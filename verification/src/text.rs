//! Character-level helpers shared by the tag, key and header logic.
//!
//! Strings are read once into a `Vec<char>`; everything after that works on
//! characters, so that positions are character positions and never byte
//! offsets.

use vstd::prelude::*;

verus! {

/// The characters of `s`, in order.
pub fn chars_of(s: &str) -> (r: Vec<char>)
    ensures
        r@ == s@,
{
    let mut out: Vec<char> = Vec::new();
    for c in it: s.chars()
        invariant
            it.seq() == s@,
            out@ == it.seq().take(it.index()),
    {
        out.push(c);
    }
    out
}

/// Whether `a` and `b` hold the same characters.
pub fn same_chars(a: &Vec<char>, b: &Vec<char>) -> (r: bool)
    ensures
        r == (a@ == b@),
{
    if a.len() != b.len() {
        return false;
    }
    let mut i: usize = 0;
    while i < a.len()
        invariant
            a.len() == b.len(),
            i <= a.len(),
            forall|j: int| 0 <= j < i ==> a[j] == b[j],
        decreases a.len() - i,
    {
        if a[i] != b[i] {
            return false;
        }
        i += 1;
    }
    assert(a@ =~= b@);
    true
}

/// Whether the string `s` spells exactly the characters `chars`.
pub fn str_matches(s: &str, chars: &Vec<char>) -> (r: bool)
    ensures
        r == (s@ == chars@),
{
    let own = chars_of(s);
    same_chars(&own, chars)
}

/// Whether the first `n` characters of `a` and of `b` agree.
pub fn same_prefix(a: &Vec<char>, b: &Vec<char>, n: usize) -> (r: bool)
    requires
        n <= a.len(),
        n <= b.len(),
    ensures
        r == (a@.take(n as int) == b@.take(n as int)),
{
    let mut i: usize = 0;
    while i < n
        invariant
            i <= n,
            n <= a.len(),
            n <= b.len(),
            forall|j: int| 0 <= j < i ==> a[j] == b[j],
        decreases n - i,
    {
        if a[i] != b[i] {
            assert(a@.take(n as int)[i as int] != b@.take(n as int)[i as int]);
            return false;
        }
        i += 1;
    }
    assert(a@.take(n as int) =~= b@.take(n as int));
    true
}

/// Index of the first `c` in `s` at or after `from`; the length of `s` when
/// no such character is left.
pub open spec fn position_from(s: Seq<char>, c: char, from: int) -> int
    decreases s.len() - from,
{
    if 0 <= from < s.len() && s[from] != c {
        position_from(s, c, from + 1)
    } else {
        from
    }
}

/// Index of the first `c` in `s`, or the length of `s`.
pub open spec fn position(s: Seq<char>, c: char) -> int {
    position_from(s, c, 0)
}

/// `position_from` is the one index `p` with no `c` in `[from, p)` and either
/// a `c` at `p` or `p` at the end.
pub proof fn lemma_position_from(s: Seq<char>, c: char, from: int, p: int)
    requires
        0 <= from <= p <= s.len(),
        forall|k: int| from <= k < p ==> s[k] != c,
        p == s.len() || s[p] == c,
    ensures
        position_from(s, c, from) == p,
    decreases p - from,
{
    if from < p {
        lemma_position_from(s, c, from + 1, p);
    }
}

/// What `position_from` returns, said without recursion.
pub proof fn lemma_position_from_is_first(s: Seq<char>, c: char, from: int)
    requires
        0 <= from <= s.len(),
    ensures
        from <= position_from(s, c, from) <= s.len(),
        forall|k: int| from <= k < position_from(s, c, from) ==> s[k] != c,
        position_from(s, c, from) < s.len() ==> s[position_from(s, c, from)] == c,
    decreases s.len() - from,
{
    if from < s.len() && s[from] != c {
        lemma_position_from_is_first(s, c, from + 1);
    }
}

/// Index of the first `c` in `s`, or `s.len()`.
pub fn find_char(s: &Vec<char>, c: char) -> (p: usize)
    ensures
        p == position(s@, c),
        p <= s.len(),
        forall|k: int| 0 <= k < p ==> s[k] != c,
        p < s.len() ==> s[p as int] == c,
{
    let mut i: usize = 0;
    while i < s.len() && s[i] != c
        invariant
            i <= s.len(),
            forall|k: int| 0 <= k < i ==> s[k] != c,
        decreases s.len() - i,
    {
        i += 1;
    }
    proof {
        lemma_position_from(s@, c, 0, i as int);
    }
    i
}

/// The pieces of `s` between occurrences of `sep`: `n` separators give
/// `n + 1` pieces, some of them possibly empty.
pub open spec fn split(s: Seq<char>, sep: char) -> Seq<Seq<char>>
    decreases s.len(),
{
    let p = position(s, sep);
    if 0 <= p < s.len() {
        seq![s.take(p)] + split(s.skip(p + 1), sep)
    } else {
        seq![s]
    }
}

/// The character sequences held by a vector of character vectors.
pub open spec fn pieces(v: Seq<Vec<char>>) -> Seq<Seq<char>> {
    Seq::new(v.len(), |i: int| v[i]@)
}

/// Splits `s` at every `sep`.
pub fn split_chars(s: &Vec<char>, sep: char) -> (r: Vec<Vec<char>>)
    ensures
        pieces(r@) == split(s@, sep),
        r.len() >= 1,
{
    let mut out: Vec<Vec<char>> = Vec::new();
    let mut cur: Vec<char> = Vec::new();
    let ghost mut start: int = 0;
    let mut i: usize = 0;
    proof {
        assert(s@.skip(0) =~= s@);
        assert(pieces(out@) + split(s@, sep) =~= split(s@, sep));
    }
    while i < s.len()
        invariant
            0 <= start <= i <= s.len(),
            cur@ == s@.subrange(start, i as int),
            forall|k: int| start <= k < i ==> s[k] != sep,
            split(s@, sep) == pieces(out@) + split(s@.skip(start), sep),
        decreases s.len() - i,
    {
        let c = s[i];
        if c == sep {
            proof {
                let rest = s@.skip(start);
                assert forall|k: int| 0 <= k < i - start implies rest[k] != sep by {
                    assert(rest[k] == s[start + k]);
                }
                lemma_position_from(rest, sep, 0, i - start);
                assert(rest.take(i - start) =~= cur@);
                assert(rest.skip(i - start + 1) =~= s@.skip(i + 1));
                assert(pieces(out@.push(cur)) =~= pieces(out@).push(cur@));
                assert(pieces(out@).push(cur@) + split(s@.skip(i + 1), sep) =~= pieces(out@) + (
                seq![cur@] + split(s@.skip(i + 1), sep)));
                start = i + 1;
            }
            out.push(cur);
            cur = Vec::new();
        } else {
            cur.push(c);
        }
        i += 1;
        assert(cur@ =~= s@.subrange(start, i as int));
    }
    proof {
        let rest = s@.skip(start);
        assert forall|k: int| 0 <= k < rest.len() implies rest[k] != sep by {
            assert(rest[k] == s[start + k]);
        }
        lemma_position_from(rest, sep, 0, rest.len() as int);
        assert(rest =~= cur@);
        assert(pieces(out@.push(cur)) =~= pieces(out@).push(cur@));
        assert(pieces(out@).push(cur@) =~= pieces(out@) + seq![cur@]);
    }
    out.push(cur);
    out
}

} // verus!
