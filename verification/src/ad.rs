//! The user directory: users read from the users file, kept sorted by user
//! number, looked up by number and searched by common name.
use vstd::prelude::*;
use std::collections::HashMap;
use crate::chars::{append_chars, chars_of, contains_chars, contains_seq, join_lines, join_lines_chars, seqs_of, string_from_chars};
use crate::decimal::{decimal, decimal_chars};
use crate::firm::{Claims, PersonView};

verus! {

/// A user of the directory.
#[derive(Debug)]
pub struct SUser {
    pub uid: u32,
    pub pid: u32,
    pub cn: String,
    pub dn: String,
}

impl View for SUser {
    type V = PersonView;

    open spec fn view(&self) -> PersonView {
        PersonView { uid: self.uid, pid: self.pid, cn: self.cn@, dn: self.dn@ }
    }
}

/// The people of a list of users.
pub open spec fn people(s: Seq<SUser>) -> Seq<PersonView> {
    s.map_values(|u: SUser| u@)
}

/// The number of leading people of `s` whose user number is at most `x`: for a
/// list sorted by user number, the place after the last one with number `x` or
/// less.
pub open spec fn upper_place(s: Seq<PersonView>, x: u32) -> int
    decreases s.len(),
{
    if s.len() == 0 {
        0
    } else if s[0].uid <= x {
        1 + upper_place(s.skip(1), x)
    } else {
        0
    }
}

/// `u` put after every person of `s` whose number is at most its own.
pub open spec fn insert_by_uid(s: Seq<PersonView>, u: PersonView) -> Seq<PersonView> {
    s.insert(upper_place(s, u.uid), u)
}

/// `s` sorted by user number, people with the same number keeping their order
/// (a stable sort by key).
pub open spec fn sort_by_uid(s: Seq<PersonView>) -> Seq<PersonView>
    decreases s.len(),
{
    if s.len() == 0 {
        s
    } else {
        insert_by_uid(sort_by_uid(s.drop_last()), s.last())
    }
}

/// Sorted by user number.
pub open spec fn uid_sorted(s: Seq<PersonView>) -> bool {
    forall|i: int, j: int| 0 <= i <= j < s.len() ==> s[i].uid <= s[j].uid
}

proof fn lemma_upper_place(s: Seq<PersonView>, x: u32)
    requires
        uid_sorted(s),
    ensures
        0 <= upper_place(s, x) <= s.len(),
        forall|j: int| 0 <= j < upper_place(s, x) ==> s[j].uid <= x,
        forall|j: int| upper_place(s, x) <= j < s.len() ==> s[j].uid > x,
    decreases s.len(),
{
    if s.len() > 0 {
        let t = s.skip(1);
        lemma_upper_place(t, x);
        if s[0].uid <= x {
            assert forall|j: int| 0 <= j < upper_place(s, x) implies s[j].uid <= x by {
                if j > 0 {
                    assert(s[j] == t[j - 1]);
                }
            }
            assert forall|j: int| upper_place(s, x) <= j < s.len() implies s[j].uid > x by {
                assert(s[j] == t[j - 1]);
            }
        }
    }
}

/// Inserting by number keeps a sorted list sorted and adds exactly `u`.
proof fn lemma_insert_by_uid(s: Seq<PersonView>, u: PersonView)
    requires
        uid_sorted(s),
    ensures
        uid_sorted(insert_by_uid(s, u)),
        insert_by_uid(s, u).to_multiset() == s.to_multiset().insert(u),
{
    lemma_upper_place(s, u.uid);
    let p = upper_place(s, u.uid);
    let r = insert_by_uid(s, u);
    assert forall|i: int, j: int| 0 <= i <= j < r.len() implies r[i].uid <= r[j].uid by {
        if i < p && j < p {
        } else if i < p && j == p {
        } else if i < p {
            assert(r[j] == s[j - 1]);
        } else if i == p && j > p {
            assert(r[j] == s[j - 1]);
        } else if i > p {
            assert(r[i] == s[i - 1]);
            assert(r[j] == s[j - 1]);
        }
    }
    broadcast use vstd::seq_lib::group_seq_properties;
    assert(r.to_multiset() =~= s.to_multiset().insert(u)) by {
        vstd::seq_lib::lemma_multiset_commutative(s.take(p), seq![u] + s.skip(p));
        vstd::seq_lib::lemma_multiset_commutative(s.take(p), s.skip(p));
        vstd::seq_lib::lemma_multiset_commutative(seq![u], s.skip(p));
        assert(r =~= s.take(p) + (seq![u] + s.skip(p)));
        assert(s =~= s.take(p) + s.skip(p));
    }
}

/// Sorting by number gives a list sorted by number that holds the same people
/// as many times each.
pub proof fn lemma_sort_by_uid(s: Seq<PersonView>)
    ensures
        uid_sorted(sort_by_uid(s)),
        sort_by_uid(s).to_multiset() == s.to_multiset(),
    decreases s.len(),
{
    broadcast use vstd::seq_lib::group_seq_properties;
    if s.len() > 0 {
        lemma_sort_by_uid(s.drop_last());
        lemma_insert_by_uid(sort_by_uid(s.drop_last()), s.last());
        assert(s =~= s.drop_last().push(s.last()));
        vstd::seq_lib::lemma_multiset_commutative(s.drop_last(), seq![s.last()]);
        assert(s.drop_last() + seq![s.last()] =~= s);
    } else {
        assert(sort_by_uid(s) =~= Seq::<PersonView>::empty());
    }
}

/// The users of the directory.
pub struct UserData {
    users: Vec<SUser>,
}

impl View for UserData {
    type V = Seq<PersonView>;

    closed spec fn view(&self) -> Seq<PersonView> {
        people(self.users@)
    }
}

/// A copy of a user.
fn copy_user(u: &SUser) -> (r: SUser)
    ensures
        r@ == u@,
{
    SUser { uid: u.uid, pid: u.pid, cn: u.cn.clone(), dn: u.dn.clone() }
}

/// The directory holding `users`, sorted by user number, users with the same
/// number in the order given.
pub fn init(users: &Vec<SUser>) -> (r: UserData)
    ensures
        r@ == sort_by_uid(people(users@)),
        uid_sorted(r@),
{
    let mut sorted: Vec<SUser> = Vec::new();
    proof {
        assert(people(users@).take(0) =~= Seq::<PersonView>::empty());
        assert(people(sorted@) =~= Seq::<PersonView>::empty());
    }
    for i in 0..users.len()
        invariant
            people(sorted@) == sort_by_uid(people(users@).take(i as int)),
    {
        let ghost before = people(sorted@);
        proof {
            lemma_sort_by_uid(people(users@).take(i as int));
            lemma_upper_place(before, users@[i as int].uid);
        }
        let x = users[i].uid;
        let mut lo: usize = 0;
        let mut hi: usize = sorted.len();
        while lo < hi
            invariant
                0 <= lo <= hi <= sorted.len(),
                people(sorted@) == before,
                uid_sorted(before),
                x == users@[i as int].uid,
                forall|j: int| 0 <= j < lo ==> before[j].uid <= x,
                forall|j: int| hi <= j < sorted.len() ==> before[j].uid > x,
            decreases hi - lo,
        {
            let mid = lo + (hi - lo) / 2;
            if sorted[mid].uid <= x {
                proof {
                    assert(before[mid as int].uid == sorted@[mid as int].uid);
                    assert forall|j: int| 0 <= j < mid + 1 implies before[j].uid <= x by {
                        if j < mid {
                            assert(before[j].uid <= before[mid as int].uid);
                        }
                    }
                }
                lo = mid + 1;
            } else {
                proof {
                    assert(before[mid as int].uid == sorted@[mid as int].uid);
                    assert forall|j: int| mid <= j < sorted.len() implies before[j].uid > x by {
                        assert(before[mid as int].uid <= before[j].uid);
                    }
                }
                hi = mid;
            }
        }
        proof {
            lemma_upper_place(before, x);
            let p = upper_place(before, x);
            if p < lo {
                assert(before[p].uid > x);
            }
            if p > lo {
                assert(before[lo as int].uid <= x);
            }
            assert(p == lo);
        }
        let u = copy_user(&users[i]);
        sorted.insert(lo, u);
        proof {
            assert(people(users@).take(i + 1).drop_last() =~= people(users@).take(i as int));
            assert(people(sorted@) =~= before.insert(lo as int, users@[i as int]@));
        }
    }
    proof {
        assert(people(users@).take(users.len() as int) =~= people(users@));
        lemma_sort_by_uid(people(users@));
    }
    UserData { users: sorted }
}

/// The first person of `s` with user number `id`.
pub open spec fn find_uid(s: Seq<PersonView>, id: u32) -> Option<PersonView>
    decreases s.len(),
{
    if s.len() == 0 {
        None
    } else if s[0].uid == id {
        Some(s[0])
    } else {
        find_uid(s.skip(1), id)
    }
}

/// A person is found exactly when one has the number, and the one found has it.
pub proof fn lemma_find_uid(s: Seq<PersonView>, id: u32)
    ensures
        find_uid(s, id) is Some <==> exists|j: int| 0 <= j < s.len() && s[j].uid == id,
        find_uid(s, id) matches Some(p) ==> p.uid == id && s.contains(p),
    decreases s.len(),
{
    if s.len() > 0 {
        let t = s.skip(1);
        lemma_find_uid(t, id);
        if s[0].uid != id {
            if exists|j: int| 0 <= j < s.len() && s[j].uid == id {
                let j = choose|j: int| 0 <= j < s.len() && s[j].uid == id;
                assert(t[j - 1] == s[j]);
            }
            if find_uid(t, id) is Some {
                let p = find_uid(t, id)->0;
                let k = choose|k: int| 0 <= k < t.len() && t[k] == p;
                assert(s[k + 1] == p);
            }
        }
    }
}

proof fn lemma_find_uid_at(s: Seq<PersonView>, id: u32, lo: int)
    requires
        uid_sorted(s),
        0 <= lo <= s.len(),
        forall|j: int| 0 <= j < lo ==> s[j].uid < id,
        forall|j: int| lo <= j < s.len() ==> s[j].uid >= id,
    ensures
        find_uid(s, id) == if lo < s.len() && s[lo].uid == id {
            Some(s[lo])
        } else {
            None::<PersonView>
        },
    decreases s.len(),
{
    lemma_find_uid(s, id);
    if s.len() > 0 {
        let t = s.skip(1);
        if lo > 0 {
            assert forall|j: int| 0 <= j < lo - 1 implies t[j].uid < id by {
                assert(t[j] == s[j + 1]);
            }
            assert forall|j: int| lo - 1 <= j < t.len() implies t[j].uid >= id by {
                assert(t[j] == s[j + 1]);
            }
            lemma_find_uid_at(t, id, lo - 1);
        } else if s[0].uid != id {
            assert forall|j: int| 0 <= j < s.len() implies s[j].uid != id by {
                assert(s[0].uid <= s[j].uid);
            }
        }
    }
}

/// The user with number `id`: the first of them in the directory's order when
/// several have it.
pub fn get_cn(users: &UserData, id: &u32) -> (r: Option<SUser>)
    requires
        uid_sorted(users@),
    ensures
        match find_uid(users@, *id) {
            Some(p) => r is Some && r->0@ == p,
            None => r is None,
        },
{
    let ghost s = users@;
    let x = *id;
    let mut lo: usize = 0;
    let mut hi: usize = users.users.len();
    while lo < hi
        invariant
            0 <= lo <= hi <= users.users.len(),
            s == people(users.users@),
            uid_sorted(s),
            forall|j: int| 0 <= j < lo ==> s[j].uid < x,
            forall|j: int| hi <= j < s.len() ==> s[j].uid >= x,
        decreases hi - lo,
    {
        let mid = lo + (hi - lo) / 2;
        if users.users[mid].uid < x {
            proof {
                assert(s[mid as int].uid == users.users@[mid as int].uid);
                assert forall|j: int| 0 <= j < mid + 1 implies s[j].uid < x by {
                    if j < mid {
                        assert(s[j].uid <= s[mid as int].uid);
                    }
                }
            }
            lo = mid + 1;
        } else {
            proof {
                assert(s[mid as int].uid == users.users@[mid as int].uid);
                assert forall|j: int| mid <= j < s.len() implies s[j].uid >= x by {
                    assert(s[mid as int].uid <= s[j].uid);
                }
            }
            hi = mid;
        }
    }
    proof {
        lemma_find_uid_at(s, x, lo as int);
    }
    if lo < users.users.len() && users.users[lo].uid == x {
        Some(copy_user(&users.users[lo]))
    } else {
        None
    }
}

/// The people of `s` whose common name holds `w`, keyed by user number; a later
/// person replaces an earlier one with the same number.
pub open spec fn search_map(s: Seq<PersonView>, w: Seq<char>) -> Map<u32, PersonView>
    decreases s.len(),
{
    if s.len() == 0 {
        Map::empty()
    } else {
        let m = search_map(s.drop_last(), w);
        if contains_seq(s.last().cn, w) {
            m.insert(s.last().uid, s.last())
        } else {
            m
        }
    }
}

/// The people of a map of claims.
pub open spec fn claims_people(m: Map<u32, Claims>) -> Map<u32, PersonView> {
    m.map_values(|c: Claims| c@)
}

/// A search finds the people whose common name holds the word, each under its
/// own number, and only them.
pub proof fn lemma_search_map(s: Seq<PersonView>, w: Seq<char>)
    ensures
        forall|k: u32| #[trigger]
            search_map(s, w).contains_key(k) ==> search_map(s, w)[k].uid == k && contains_seq(
                search_map(s, w)[k].cn,
                w,
            ) && s.contains(search_map(s, w)[k]),
        forall|i: int|
            0 <= i < s.len() && contains_seq(s[i].cn, w) ==> #[trigger] search_map(
                s,
                w,
            ).contains_key(s[i].uid),
    decreases s.len(),
{
    if s.len() > 0 {
        let t = s.drop_last();
        lemma_search_map(t, w);
        assert forall|k: u32| #[trigger]
            search_map(s, w).contains_key(k) implies search_map(s, w)[k].uid == k && contains_seq(
            search_map(s, w)[k].cn,
            w,
        ) && s.contains(search_map(s, w)[k]) by {
            if search_map(t, w).contains_key(k) && !(contains_seq(s.last().cn, w) && k
                == s.last().uid) {
                let p = search_map(t, w)[k];
                let j = choose|j: int| 0 <= j < t.len() && t[j] == p;
                assert(s[j] == p);
            } else {
                assert(s[s.len() - 1] == s.last());
            }
        }
        assert forall|i: int|
            0 <= i < s.len() && contains_seq(s[i].cn, w) implies #[trigger] search_map(
            s,
            w,
        ).contains_key(s[i].uid) by {
            if i < s.len() - 1 {
                assert(t[i] == s[i]);
            }
        }
    }
}

/// The users whose common name holds `word`, keyed by user number.
pub fn search_users(users: &UserData, word: &str) -> (r: HashMap<u32, Claims>)
    ensures
        claims_people(r@) == search_map(users@, word@),
{
    broadcast use vstd::std_specs::hash::group_hash_axioms;

    let w = chars_of(word);
    let mut map: HashMap<u32, Claims> = HashMap::new();
    proof {
        assert(claims_people(map@) =~= search_map(users@.take(0), word@));
    }
    for i in 0..users.users.len()
        invariant
            w@ == word@,
            claims_people(map@) == search_map(people(users.users@).take(i as int), word@),
    {
        let u = &users.users[i];
        let cn = chars_of(u.cn.as_str());
        let ghost before = map@;
        proof {
            assert(people(users.users@).take(i + 1).drop_last() =~= people(users.users@).take(
                i as int,
            ));
            assert(people(users.users@).take(i + 1).last() == u@);
        }
        if contains_chars(&cn, &w) {
            map.insert(u.uid, Claims { uid: u.uid, pid: u.pid, cn: u.cn.clone(), dn: u.dn.clone() });
            proof {
                assert(claims_people(map@) =~= claims_people(before).insert(u.uid, u@));
            }
        }
    }
    proof {
        assert(people(users.users@).take(users.users.len() as int) =~= people(users.users@));
    }
    map
}

/// The six lines that the evaluation file holds for a person.
pub open spec fn evp_entry(p: PersonView) -> Seq<Seq<char>> {
    seq![
        "- uuid: "@ + decimal(p.uid as nat),
        "  stat: 0"@,
        "  cate: "@ + decimal(0),
        "  days: "@ + decimal(0xffff_ffff),
        "  muid: "@ + decimal(p.pid as nat),
        "  appr: false"@,
    ]
}

/// The lines of the evaluation file: six for each person, in order.
pub open spec fn evp_lines(s: Seq<PersonView>) -> Seq<Seq<char>>
    decreases s.len(),
{
    if s.len() == 0 {
        Seq::empty()
    } else {
        evp_lines(s.drop_last()) + evp_entry(s.last())
    }
}

/// A line made of `prefix` and the decimal digits of `n`.
fn prefixed_number(prefix: &str, n: u64) -> (r: Vec<char>)
    ensures
        r@ == prefix@ + decimal(n as nat),
{
    let mut line = chars_of(prefix);
    append_chars(&mut line, &decimal_chars(n));
    line
}

/// The evaluation file (YAML) for every user of the directory, in the
/// directory's order: user number, status 0, category 0, all days open,
/// personnel number and not approved, joined by new lines. Writing it to a
/// file is left to the caller.
pub fn create_evp_file(users: &UserData) -> (r: String)
    ensures
        r@ == join_lines(evp_lines(users@)),
{
    let mut lines: Vec<Vec<char>> = Vec::new();
    for i in 0..users.users.len()
        invariant
            seqs_of(lines@) == evp_lines(people(users.users@).take(i as int)),
    {
        let u = &users.users[i];
        let ghost before = seqs_of(lines@);
        lines.push(prefixed_number("- uuid: ", u.uid as u64));
        lines.push(chars_of("  stat: 0"));
        lines.push(prefixed_number("  cate: ", 0));
        lines.push(prefixed_number("  days: ", 0xffff_ffff));
        lines.push(prefixed_number("  muid: ", u.pid as u64));
        lines.push(chars_of("  appr: false"));
        proof {
            assert(people(users.users@).take(i + 1).drop_last() =~= people(users.users@).take(
                i as int,
            ));
            assert(people(users.users@).take(i + 1).last() == u@);
            assert(seqs_of(lines@) =~= before + evp_entry(u@));
        }
    }
    proof {
        assert(people(users.users@).take(users.users.len() as int) =~= people(users.users@));
    }
    string_from_chars(&join_lines_chars(&lines))
}

} // verus!
