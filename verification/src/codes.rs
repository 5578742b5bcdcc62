//! Numbering of names: each new name of a column gets the next number of a
//! counter. Later entries shadow earlier ones for the same name.
use vstd::prelude::*;
use crate::chars::chars_equal;

verus! {

/// The number last given to `k` in `list`, if any.
pub open spec fn assoc_get(list: Seq<(Seq<char>, u16)>, k: Seq<char>) -> Option<u16>
    decreases list.len(),
{
    if list.len() == 0 {
        None
    } else if list.last().0 == k {
        Some(list.last().1)
    } else {
        assoc_get(list.drop_last(), k)
    }
}

/// Names with the numbers given to them, in the order given.
pub struct NameCodes {
    entries: Vec<(Vec<char>, u16)>,
}

impl View for NameCodes {
    type V = Seq<(Seq<char>, u16)>;

    closed spec fn view(&self) -> Seq<(Seq<char>, u16)> {
        self.entries@.map_values(|e: (Vec<char>, u16)| (e.0@, e.1))
    }
}

impl NameCodes {
    /// No name numbered yet.
    pub fn new() -> (r: NameCodes)
        ensures
            r@ == Seq::<(Seq<char>, u16)>::empty(),
    {
        let r = NameCodes { entries: Vec::new() };
        proof {
            assert(r@ =~= Seq::<(Seq<char>, u16)>::empty());
        }
        r
    }

    /// The number last given to `k`.
    pub fn get(&self, k: &Vec<char>) -> (r: Option<u16>)
        ensures
            r == assoc_get(self@, k@),
    {
        let mut i: usize = self.entries.len();
        proof {
            assert(self@.take(i as int) =~= self@);
        }
        while i > 0
            invariant
                i <= self.entries.len(),
                self@.len() == self.entries.len(),
                assoc_get(self@, k@) == assoc_get(self@.take(i as int), k@),
            decreases i,
        {
            let ghost pre = self@.take(i as int);
            proof {
                assert(pre.drop_last() =~= self@.take(i - 1));
                assert(pre.last() == (self.entries@[i - 1].0@, self.entries@[i - 1].1));
            }
            if chars_equal(&self.entries[i - 1].0, k) {
                return Some(self.entries[i - 1].1);
            }
            i = i - 1;
        }
        None
    }

    /// Gives `k` the number `c`.
    pub fn insert(&mut self, k: Vec<char>, c: u16)
        ensures
            final(self)@ == old(self)@.push((k@, c)),
    {
        self.entries.push((k, c));
        proof {
            assert(self@ =~= old(self)@.push((k@, c)));
        }
    }
}

/// Names numbered one after the other: each name once, numbers rising and
/// below `next`.
pub open spec fn fresh_codes(list: Seq<(Seq<char>, u16)>, next: u16) -> bool {
    &&& forall|i: int, j: int| 0 <= i < j < list.len() ==> list[i].0 != list[j].0 && list[i].1 < list[j].1
    &&& forall|i: int| 0 <= i < list.len() ==> list[i].1 < next
}

/// A name without a number is in no entry; one with a number has it from an
/// entry.
pub proof fn lemma_assoc_get(list: Seq<(Seq<char>, u16)>, k: Seq<char>)
    ensures
        assoc_get(list, k) is None <==> forall|i: int| 0 <= i < list.len() ==> list[i].0 != k,
        assoc_get(list, k) matches Some(c) ==> exists|i: int| 0 <= i < list.len() && list[i] == (k, c),
    decreases list.len(),
{
    if list.len() > 0 {
        let t = list.drop_last();
        lemma_assoc_get(t, k);
        if list.last().0 != k {
            assert forall|i: int| 0 <= i < t.len() implies list[i] == t[i] by {}
            if assoc_get(t, k) is None {
                assert forall|i: int| 0 <= i < list.len() implies list[i].0 != k by {
                    if i < t.len() {
                        assert(list[i] == t[i]);
                    }
                }
            } else {
                let c = assoc_get(t, k)->0;
                let i = choose|i: int| 0 <= i < t.len() && t[i] == (k, c);
                assert(list[i] == t[i]);
            }
        } else {
            assert(list[list.len() - 1] == list.last());
        }
    }
}

/// Giving a name without a number the next number keeps the numbering fresh,
/// and the name then has that number.
pub proof fn lemma_fresh_push(list: Seq<(Seq<char>, u16)>, next: u16, k: Seq<char>)
    requires
        fresh_codes(list, next),
        assoc_get(list, k) is None,
        next < 65535,
    ensures
        fresh_codes(list.push((k, next)), (next + 1) as u16),
        assoc_get(list.push((k, next)), k) == Some(next),
{
    lemma_assoc_get(list, k);
    let l2 = list.push((k, next));
    assert forall|i: int, j: int| 0 <= i < j < l2.len() implies l2[i].0 != l2[j].0 && l2[i].1 < l2[j].1 by {
        if j == list.len() {
            assert(l2[i] == list[i]);
        } else {
            assert(l2[i] == list[i] && l2[j] == list[j]);
        }
    }
    assert forall|i: int| 0 <= i < l2.len() implies l2[i].1 < (next + 1) as u16 by {
        if i < list.len() {
            assert(l2[i] == list[i]);
        }
    }
}

/// With fresh numbering, different names never share a number.
pub proof fn lemma_fresh_distinct(list: Seq<(Seq<char>, u16)>, next: u16, a: Seq<char>, b: Seq<char>)
    requires
        fresh_codes(list, next),
        assoc_get(list, a) is Some,
        assoc_get(list, b) is Some,
        a != b,
    ensures
        assoc_get(list, a) != assoc_get(list, b),
{
    lemma_assoc_get(list, a);
    lemma_assoc_get(list, b);
    let ca = assoc_get(list, a)->0;
    let cb = assoc_get(list, b)->0;
    let i = choose|i: int| 0 <= i < list.len() && list[i] == (a, ca);
    let j = choose|j: int| 0 <= j < list.len() && list[j] == (b, cb);
    if i < j {
        assert(list[i].1 < list[j].1);
    } else if j < i {
        assert(list[j].1 < list[i].1);
    }
}

/// Numbers given one after the other: each entry's number is larger than those
/// of the entries before it, and all are below `next`.
pub open spec fn rising_codes(list: Seq<(Seq<char>, u16)>, next: u16) -> bool {
    &&& forall|i: int, j: int| 0 <= i < j < list.len() ==> list[i].1 < list[j].1
    &&& forall|i: int| 0 <= i < list.len() ==> list[i].1 < next
}

/// Giving any name the next number, and moving the counter on, keeps the
/// numbers rising.
pub proof fn lemma_rising_push(list: Seq<(Seq<char>, u16)>, next: u16, k: Seq<char>)
    requires
        rising_codes(list, next),
        next < 65535,
    ensures
        rising_codes(list.push((k, next)), (next + 1) as u16),
        assoc_get(list.push((k, next)), k) == Some(next),
{
    let l2 = list.push((k, next));
    assert forall|i: int, j: int| 0 <= i < j < l2.len() implies l2[i].1 < l2[j].1 by {
        assert(l2[i] == list[i]);
        if j < list.len() {
            assert(l2[j] == list[j]);
        }
    }
    assert forall|i: int| 0 <= i < l2.len() implies l2[i].1 < (next + 1) as u16 by {
        if i < list.len() {
            assert(l2[i] == list[i]);
        }
    }
}

/// With rising numbers, two different names never have the same number, even
/// where a name was numbered more than once.
pub proof fn lemma_rising_distinct(list: Seq<(Seq<char>, u16)>, next: u16, a: Seq<char>, b: Seq<char>)
    requires
        rising_codes(list, next),
        assoc_get(list, a) is Some,
        assoc_get(list, b) is Some,
        a != b,
    ensures
        assoc_get(list, a) != assoc_get(list, b),
{
    lemma_assoc_get(list, a);
    lemma_assoc_get(list, b);
    let ca = assoc_get(list, a)->0;
    let cb = assoc_get(list, b)->0;
    let i = choose|i: int| 0 <= i < list.len() && list[i] == (a, ca);
    let j = choose|j: int| 0 <= j < list.len() && list[j] == (b, cb);
    if i < j {
        assert(list[i].1 < list[j].1);
    } else if j < i {
        assert(list[j].1 < list[i].1);
    }
}

} // verus!
