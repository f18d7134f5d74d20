//! Locale tags and their canonical form.
//!
//! A tag such as `en`, `en_US` or `en-GB` is a run of segments separated by
//! `_` or `-`.  The first segment is the language scope; what follows names a
//! region or variant.  Two tags count as the same tag when their canonical
//! forms are equal: ASCII letters in lower case, every separator written `_`.
//! Case folding is ASCII only; other characters are compared as they stand.

use vstd::prelude::*;
use crate::text::{chars_of, find_char, position, split};

verus! {

/// The separator of canonical tags.
pub const SEPARATOR: char = '_';

/// The canonical form of one character: `A`..`Z` in lower case, `-` as `_`,
/// anything else unchanged.
pub open spec fn fold_char(c: char) -> char {
    if 'A' <= c && c <= 'Z' {
        ((c as u8) + 32) as char
    } else if c == '-' {
        '_'
    } else {
        c
    }
}

/// The canonical form of a tag.
pub open spec fn normalized(tag: Seq<char>) -> Seq<char> {
    Seq::new(tag.len(), |i: int| fold_char(tag[i]))
}

/// The segments of a tag, in canonical form.
pub open spec fn segments(tag: Seq<char>) -> Seq<Seq<char>> {
    split(normalized(tag), '_')
}

/// The language scope of a tag: its first segment, in canonical form.
pub open spec fn scope(tag: Seq<char>) -> Seq<char> {
    segments(tag)[0]
}

/// Whether a tag has more than one segment.
pub open spec fn has_region(tag: Seq<char>) -> bool {
    segments(tag).len() > 1
}

/// The scope is what stands before the first separator of the canonical form,
/// and a tag has a region exactly when there is such a separator.
pub proof fn lemma_scope(tag: Seq<char>)
    ensures
        scope(tag) == normalized(tag).take(position(normalized(tag), '_')),
        has_region(tag) == (position(normalized(tag), '_') < tag.len()),
        0 <= position(normalized(tag), '_') <= tag.len(),
{
    let n = normalized(tag);
    crate::text::lemma_position_from_is_first(n, '_', 0);
    let p = position(n, '_');
    if p < n.len() {
        assert(split(n, '_') == seq![n.take(p)] + split(n.skip(p + 1), '_'));
        assert(split(n.skip(p + 1), '_').len() >= 1) by {
            lemma_split_nonempty(n.skip(p + 1), '_');
        }
    } else {
        assert(n.take(p) =~= n);
    }
}

/// Splitting always yields at least one piece.
pub proof fn lemma_split_nonempty(s: Seq<char>, sep: char)
    ensures
        split(s, sep).len() >= 1,
    decreases s.len(),
{
    let p = position(s, sep);
    if 0 <= p < s.len() {
        lemma_split_nonempty(s.skip(p + 1), sep);
    }
}

/// Canonical form of one character.
pub fn fold(c: char) -> (r: char)
    ensures
        r == fold_char(c),
{
    if 'A' <= c && c <= 'Z' {
        ((c as u8) + 32) as char
    } else if c == '-' {
        '_'
    } else {
        c
    }
}

/// Canonical form of `tag`, as characters.
pub fn normalize_tag(tag: &str) -> (r: Vec<char>)
    ensures
        r@ == normalized(tag@),
{
    let raw = chars_of(tag);
    let mut out: Vec<char> = Vec::new();
    let mut i: usize = 0;
    while i < raw.len()
        invariant
            i <= raw.len(),
            raw@ == tag@,
            out@ == normalized(raw@.take(i as int)),
        decreases raw.len() - i,
    {
        out.push(fold(raw[i]));
        i += 1;
        assert(out@ =~= normalized(raw@.take(i as int)));
    }
    assert(raw@.take(i as int) =~= raw@);
    out
}

/// Language scope of `tag`, as characters in canonical form.
pub fn tag_scope(tag: &str) -> (r: Vec<char>)
    ensures
        r@ == scope(tag@),
{
    let mut n = normalize_tag(tag);
    let p: usize = find_char(&n, SEPARATOR);
    proof {
        lemma_scope(tag@);
    }
    n.truncate(p);
    n
}

/// Whether `tag` names a region or variant besides its language scope.
pub fn tag_has_region(tag: &str) -> (r: bool)
    ensures
        r == has_region(tag@),
{
    let n = normalize_tag(tag);
    let p: usize = find_char(&n, SEPARATOR);
    proof {
        lemma_scope(tag@);
    }
    p < n.len()
}

} // verus!
