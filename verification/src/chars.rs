//! Character sequences: reading a `str`, building a `String`, and the
//! field, trimming and searching operations that the data files need.
use vstd::prelude::*;

verus! {

/// Whether `c` has the Unicode `White_Space` property, as `char::is_whitespace`
/// reports it.
pub uninterp spec fn unicode_white_space(c: char) -> bool;

/// `char::is_whitespace`: its documentation defines the result as the Unicode
/// `White_Space` property of `c`, a table that is not restated here; the contract
/// names that table `unicode_white_space`.
#[verifier::external_body]
pub fn is_whitespace(c: char) -> (b: bool)
    ensures
        b == unicode_white_space(c),
{
    c.is_whitespace()
}

/// `String::from_iter` over a slice of characters: its documentation gives the
/// string made of those characters, in order.
#[verifier::external_body]
pub fn string_from_chars(v: &Vec<char>) -> (s: String)
    ensures
        s@ == v@,
{
    String::from_iter(v.iter())
}

/// The characters of `s`, in order.
pub fn chars_of(s: &str) -> (r: Vec<char>)
    ensures
        r@ == s@,
{
    let mut r: Vec<char> = Vec::new();
    for c in it: s.chars()
        invariant
            r@ == it.seq().take(it.index() as int),
    {
        r.push(c);
    }
    r
}

/// Appends the characters of `src` to `dst`.
pub fn append_chars(dst: &mut Vec<char>, src: &Vec<char>)
    ensures
        final(dst)@ == old(dst)@ + src@,
{
    let ghost start = dst@;
    for i in 0..src.len()
        invariant
            dst@ == start + src@.take(i as int),
    {
        dst.push(src[i]);
        proof {
            assert(src@.take(i + 1) =~= src@.take(i as int).push(src@[i as int]));
        }
    }
    proof {
        assert(src@.take(src@.len() as int) =~= src@);
    }
}

/// Whether two character sequences are equal.
pub fn chars_equal(a: &Vec<char>, b: &Vec<char>) -> (r: bool)
    ensures
        r == (a@ == b@),
{
    if a.len() != b.len() {
        return false;
    }
    for i in 0..a.len()
        invariant
            a.len() == b.len(),
            forall|j: int| 0 <= j < i ==> a@[j] == b@[j],
    {
        if a[i] != b[i] {
            return false;
        }
    }
    proof {
        assert(a@ =~= b@);
    }
    true
}

/// The character sequences held by a list of character vectors.
pub open spec fn seqs_of(v: Seq<Vec<char>>) -> Seq<Seq<char>> {
    v.map_values(|f: Vec<char>| f@)
}

/// The pieces of `s` between occurrences of `sep`, as `str::split` with a
/// one-character pattern yields them: `k` separators give `k + 1` pieces, and
/// the empty sequence gives one empty piece.
pub open spec fn split_on(s: Seq<char>, sep: char) -> Seq<Seq<char>>
    decreases s.len(),
{
    if s.len() == 0 {
        seq![Seq::<char>::empty()]
    } else {
        let r = split_on(s.drop_last(), sep);
        if s.last() == sep {
            r.push(Seq::<char>::empty())
        } else {
            r.update(r.len() - 1, r.last().push(s.last()))
        }
    }
}

/// `split_on` always gives at least one piece.
pub proof fn lemma_split_on_nonempty(s: Seq<char>, sep: char)
    ensures
        split_on(s, sep).len() >= 1,
    decreases s.len(),
{
    if s.len() > 0 {
        lemma_split_on_nonempty(s.drop_last(), sep);
    }
}

/// Splits `s` at every `sep`.
pub fn split_on_char(s: &Vec<char>, sep: char) -> (r: Vec<Vec<char>>)
    ensures
        seqs_of(r@) == split_on(s@, sep),
{
    let mut fields: Vec<Vec<char>> = Vec::new();
    let mut cur: Vec<char> = Vec::new();
    proof {
        assert(s@.take(0) =~= Seq::<char>::empty());
        assert(seqs_of(fields@).push(cur@) =~= split_on(s@.take(0), sep));
    }
    for i in 0..s.len()
        invariant
            seqs_of(fields@).push(cur@) == split_on(s@.take(i as int), sep),
    {
        let c = s[i];
        let ghost pre = s@.take(i as int);
        let ghost post = s@.take(i + 1);
        proof {
            assert(post.drop_last() =~= pre);
            assert(post.last() == c);
            lemma_split_on_nonempty(pre, sep);
        }
        if c == sep {
            let ghost old_fields = seqs_of(fields@);
            let ghost old_cur = cur@;
            fields.push(cur);
            cur = Vec::new();
            proof {
                assert(seqs_of(fields@) =~= old_fields.push(old_cur));
                assert(seqs_of(fields@).push(cur@) =~= split_on(post, sep));
            }
        } else {
            let ghost old_fields = seqs_of(fields@);
            cur.push(c);
            proof {
                assert(seqs_of(fields@) =~= old_fields);
                assert(seqs_of(fields@).push(cur@) =~= split_on(post, sep));
            }
        }
    }
    let ghost before = seqs_of(fields@);
    let ghost last = cur@;
    fields.push(cur);
    proof {
        assert(seqs_of(fields@) =~= before.push(last));
        assert(s@.take(s@.len() as int) =~= s@);
    }
    fields
}

/// What follows the first `c` in `s`, or `None` when `s` holds no `c`
/// (the second half of `str::split_once`).
pub open spec fn after_first(s: Seq<char>, c: char) -> Option<Seq<char>>
    decreases s.len(),
{
    if s.len() == 0 {
        None
    } else if s[0] == c {
        Some(s.skip(1))
    } else {
        after_first(s.skip(1), c)
    }
}

/// What follows the first `c` in `s`.
pub fn after_first_char(s: &Vec<char>, c: char) -> (r: Option<Vec<char>>)
    ensures
        match after_first(s@, c) {
            Some(t) => r is Some && r->0@ == t,
            None => r is None,
        },
{
    let n = s.len();
    let mut i: usize = 0;
    proof {
        assert(s@.skip(0) =~= s@);
    }
    while i < n
        invariant
            i <= n,
            n == s.len(),
            after_first(s@, c) == after_first(s@.skip(i as int), c),
        decreases n - i,
    {
        proof {
            assert(s@.skip(i as int).skip(1) =~= s@.skip(i + 1));
        }
        if s[i] == c {
            let mut rest: Vec<char> = Vec::new();
            let mut j: usize = i + 1;
            while j < n
                invariant
                    i < j <= n,
                    n == s.len(),
                    rest@ == s@.subrange(i + 1, j as int),
                decreases n - j,
            {
                rest.push(s[j]);
                j = j + 1;
                proof {
                    assert(rest@ =~= s@.subrange(i + 1, j as int));
                }
            }
            proof {
                assert(rest@ =~= s@.skip(i + 1));
            }
            return Some(rest);
        }
        i = i + 1;
    }
    None
}

/// `s` without its leading white space.
pub open spec fn trim_start(s: Seq<char>) -> Seq<char>
    decreases s.len(),
{
    if s.len() > 0 && unicode_white_space(s[0]) {
        trim_start(s.skip(1))
    } else {
        s
    }
}

/// `s` without its trailing white space.
pub open spec fn trim_end(s: Seq<char>) -> Seq<char>
    decreases s.len(),
{
    if s.len() > 0 && unicode_white_space(s.last()) {
        trim_end(s.drop_last())
    } else {
        s
    }
}

/// `s` without leading and trailing white space (`str::trim`).
pub open spec fn trim(s: Seq<char>) -> Seq<char> {
    trim_end(trim_start(s))
}

/// Removes leading and trailing white space.
pub fn trim_chars(s: &Vec<char>) -> (r: Vec<char>)
    ensures
        r@ == trim(s@),
{
    let n = s.len();
    let mut i: usize = 0;
    proof {
        assert(s@.skip(0) =~= s@);
    }
    while i < n && is_whitespace(s[i])
        invariant
            i <= n,
            n == s.len(),
            trim_start(s@) == trim_start(s@.skip(i as int)),
        decreases n - i,
    {
        proof {
            assert(s@.skip(i as int).skip(1) =~= s@.skip(i + 1));
        }
        i = i + 1;
    }
    let mut j: usize = n;
    proof {
        assert(s@.subrange(i as int, n as int) =~= s@.skip(i as int));
    }
    while j > i && is_whitespace(s[j - 1])
        invariant
            i <= j <= n,
            n == s.len(),
            trim_start(s@) == s@.skip(i as int),
            trim(s@) == trim_end(s@.subrange(i as int, j as int)),
        decreases j,
    {
        proof {
            assert(s@.subrange(i as int, j as int).drop_last() =~= s@.subrange(i as int, j - 1));
        }
        j = j - 1;
    }
    let mut r: Vec<char> = Vec::new();
    let mut k: usize = i;
    while k < j
        invariant
            i <= k <= j <= n,
            n == s.len(),
            r@ == s@.subrange(i as int, k as int),
        decreases j - k,
    {
        r.push(s[k]);
        k = k + 1;
        proof {
            assert(r@ =~= s@.subrange(i as int, k as int));
        }
    }
    r
}

/// `w` occurs in `s` starting at index `i`.
pub open spec fn occurs_at(s: Seq<char>, w: Seq<char>, i: int) -> bool {
    0 <= i && i + w.len() <= s.len() && s.subrange(i, i + w.len()) == w
}

/// `w` occurs somewhere in `s` (`str::contains` with a string pattern).
pub open spec fn contains_seq(s: Seq<char>, w: Seq<char>) -> bool {
    exists|i: int| occurs_at(s, w, i)
}

/// Whether `w` occurs in `s`.
pub fn contains_chars(s: &Vec<char>, w: &Vec<char>) -> (r: bool)
    ensures
        r == contains_seq(s@, w@),
{
    let n = s.len();
    let m = w.len();
    if m > n {
        proof {
            assert forall|i: int| !occurs_at(s@, w@, i) by {}
        }
        return false;
    }
    let mut i: usize = 0;
    while i <= n - m
        invariant
            m <= n,
            n == s.len(),
            m == w.len(),
            i <= n - m + 1,
            forall|k: int| 0 <= k < i ==> !occurs_at(s@, w@, k),
        decreases n - m + 1 - i,
    {
        let mut j: usize = 0;
        let mut same = true;
        while j < m
            invariant
                m <= n,
                n == s.len(),
                m == w.len(),
                i + m <= n,
                j <= m,
                same == (forall|k: int| 0 <= k < j ==> s@[i + k] == w@[k]),
            decreases m - j,
        {
            if s[i + j] != w[j] {
                same = false;
            }
            j = j + 1;
        }
        if same {
            proof {
                assert(s@.subrange(i as int, i + m) =~= w@);
                assert(occurs_at(s@, w@, i as int));
            }
            return true;
        }
        proof {
            if s@.subrange(i as int, i + m) == w@ {
                assert forall|k: int| 0 <= k < m implies s@[i + k] == w@[k] by {
                    assert(s@.subrange(i as int, i + m)[k] == s@[i + k]);
                }
            }
        }
        i = i + 1;
    }
    false
}

/// The lines of `s` joined by `'\n'` (`join("\n")` on a list of lines).
pub open spec fn join_lines(s: Seq<Seq<char>>) -> Seq<char>
    decreases s.len(),
{
    if s.len() == 0 {
        Seq::<char>::empty()
    } else if s.len() == 1 {
        s[0]
    } else {
        join_lines(s.drop_last()) + seq!['\n'] + s.last()
    }
}

/// Joins lines with `'\n'`.
pub fn join_lines_chars(lines: &Vec<Vec<char>>) -> (r: Vec<char>)
    ensures
        r@ == join_lines(seqs_of(lines@)),
{
    let mut out: Vec<char> = Vec::new();
    proof {
        assert(seqs_of(lines@).take(0) =~= Seq::<Seq<char>>::empty());
    }
    for i in 0..lines.len()
        invariant
            out@ == join_lines(seqs_of(lines@).take(i as int)),
    {
        let ghost pre = seqs_of(lines@).take(i as int);
        let ghost post = seqs_of(lines@).take(i + 1);
        proof {
            assert(post.drop_last() =~= pre);
            assert(post.last() == lines[i as int]@);
        }
        if i > 0 {
            out.push('\n');
        }
        append_chars(&mut out, &lines[i]);
        proof {
            if i == 0 {
                assert(out@ =~= post[0]);
            } else {
                assert(out@ =~= join_lines(pre) + seq!['\n'] + post.last());
            }
        }
    }
    proof {
        assert(seqs_of(lines@).take(lines.len() as int) =~= seqs_of(lines@));
    }
    out
}

/// `s` starts with a character of one byte in UTF-8, so that `split_at(1)`
/// cuts off exactly that character.
pub open spec fn first_char_one_byte(s: Seq<char>) -> bool {
    s.len() > 0 && (s[0] as u32) < 0x80
}

/// Whether `s` starts with a character of one byte in UTF-8.
pub fn starts_with_one_byte(s: &Vec<char>) -> (r: bool)
    ensures
        r == first_char_one_byte(s@),
{
    s.len() > 0 && (s[0] as u32) < 0x80
}

/// `s` without its first character (the second half of `split_at(1)`).
pub fn skip_first(s: &Vec<char>) -> (r: Vec<char>)
    requires
        s.len() > 0,
    ensures
        r@ == s@.skip(1),
{
    let mut r: Vec<char> = Vec::new();
    let mut i: usize = 1;
    while i < s.len()
        invariant
            1 <= i <= s.len(),
            r@ == s@.subrange(1, i as int),
        decreases s.len() - i,
    {
        r.push(s[i]);
        i = i + 1;
        proof {
            assert(r@ =~= s@.subrange(1, i as int));
        }
    }
    proof {
        assert(r@ =~= s@.skip(1));
    }
    r
}

/// A copy of `s`.
pub fn copy_chars(s: &Vec<char>) -> (r: Vec<char>)
    ensures
        r@ == s@,
{
    let mut r: Vec<char> = Vec::new();
    append_chars(&mut r, s);
    proof {
        assert(r@ =~= s@);
    }
    r
}

/// The character sequences of a list of lines, `None` for a line that could
/// not be read.
pub open spec fn line_views(lines: Seq<Option<String>>) -> Seq<Option<Seq<char>>> {
    lines.map_values(
        |l: Option<String>|
            match l {
                Some(s) => Some(s@),
                None => None,
            },
    )
}

/// A sequence without `c` has nothing after a first `c`.
pub proof fn lemma_after_first_absent(s: Seq<char>, c: char)
    requires
        !s.contains(c),
    ensures
        after_first(s, c) is None,
    decreases s.len(),
{
    if s.len() > 0 {
        assert(s[0] != c);
        assert forall|i: int| 0 <= i < s.skip(1).len() implies s.skip(1)[i] != c by {
            assert(s.skip(1)[i] == s[i + 1]);
        }
        lemma_after_first_absent(s.skip(1), c);
    }
}

/// When the first `c` of `s` is at index `i`, what follows it is everything
/// after index `i`.
pub proof fn lemma_after_first_at(s: Seq<char>, c: char, i: int)
    requires
        0 <= i < s.len(),
        s[i] == c,
        forall|j: int| 0 <= j < i ==> s[j] != c,
    ensures
        after_first(s, c) == Some(s.skip(i + 1)),
    decreases i,
{
    if i > 0 {
        let t = s.skip(1);
        assert forall|j: int| 0 <= j < i - 1 implies t[j] != c by {
            assert(t[j] == s[j + 1]);
        }
        assert(t[i - 1] == s[i]);
        lemma_after_first_at(t, c, i - 1);
        assert(t.skip(i) =~= s.skip(i + 1));
    }
}

} // verus!
