//! Choosing a locale from an `Accept-Language` header.
//!
//! A header such as `zh-CN,zh;q=0.9,en;q=0.8` lists the languages that a
//! client takes, each with an optional quality.  The `accept-language` crate
//! reads the header and returns the listed languages that the application
//! supports, best quality first.  Verus does not see into that crate, so its
//! answer carries a name here, `negotiated`.
//!
//! That a header yields no supported language at all is an ordinary outcome,
//! reported as `NegotiationError::NoAcceptableLocale`.

use vstd::prelude::*;
use crate::matcher::tags_of;
use crate::text::chars_of;

verus! {

/// Why a header led to no locale.
#[derive(Clone, Copy, Debug, PartialEq, Eq, Structural)]
pub enum NegotiationError {
    /// A quality value of the header begins with the letter `n`, so it may
    /// read as "not a number"; such a header is not negotiated.
    UnorderedQuality,
    /// None of the languages of the header is supported.
    NoAcceptableLocale,
}

/// Characters that may stand between the `=` of a quality and its first
/// letter or digit.
pub open spec fn is_skipped(c: char) -> bool {
    c == ' ' || c == '+' || c == '-'
}

/// Whether a quality value has begun just before index `at`: an `=` stands
/// before `at`, with nothing but blanks and signs in between.
pub open spec fn quality_begins(header: Seq<char>, at: int) -> bool {
    exists|i: int|
        0 <= i < at && #[trigger] header[i] == '=' && forall|k: int|
            i < k < at ==> is_skipped(#[trigger] header[k])
}

/// Whether some quality value of the header begins with the letter `n`.
pub open spec fn has_unordered_quality(header: Seq<char>) -> bool {
    exists|j: int|
        0 <= j < header.len() && (header[j] == 'n' || header[j] == 'N') && #[trigger] quality_begins(
            header,
            j,
        )
}

/// The supported languages that `accept-language` finds in `header`, best
/// quality first.
pub uninterp spec fn negotiated(header: Seq<char>, supported: Seq<Seq<char>>) -> Seq<Seq<char>>;

/// Calls `accept_language::intersection` with `header` and the supported
/// languages.
///
/// That function sorts the languages of the header by their qualities, which
/// it reads as floating-point numbers.  A quality that reads as "not a
/// number" is not ordered against the others and the sort may then abort;
/// such a quality begins with `n` (after an optional sign), so headers with
/// one are left out here.
///
/// Trusted, not proved: the list returned is the one named `negotiated`, and
/// each language in it is one of `supported`, because `intersection` keeps
/// only what `supported` contains.
#[verifier::external_body]
pub(crate) fn intersect(header: &str, supported: &Vec<String>) -> (r: Vec<String>)
    requires
        !has_unordered_quality(header@),
    ensures
        tags_of(r@) == negotiated(header@, tags_of(supported@)),
        forall|i: int| 0 <= i < r.len() ==> tags_of(supported@).contains(#[trigger] r[i]@),
{
    accept_language::intersection(header, supported.iter().map(|s| s.as_str()).collect())
}

/// Whether some quality value of `header` begins with the letter `n`.
pub fn check_unordered_quality(header: &str) -> (r: bool)
    ensures
        r == has_unordered_quality(header@),
{
    let h = chars_of(header);
    let mut armed = false;
    let mut i: usize = 0;
    while i < h.len()
        invariant
            i <= h.len(),
            h@ == header@,
            armed == quality_begins(h@, i as int),
            forall|j: int|
                0 <= j < i ==> !((h[j] == 'n' || h[j] == 'N') && #[trigger] quality_begins(h@, j)),
        decreases h.len() - i,
    {
        let c = h[i];
        if armed && (c == 'n' || c == 'N') {
            return true;
        }
        let ghost was = armed;
        armed = c == '=' || (armed && (c == ' ' || c == '+' || c == '-'));
        proof {
            let s = h@;
            let at = i as int;
            if c == '=' {
                assert(s[at] == '=');
                assert(quality_begins(s, at + 1));
            } else if was && is_skipped(c) {
                let w = choose|w: int|
                    0 <= w < at && #[trigger] s[w] == '=' && forall|k: int|
                        w < k < at ==> is_skipped(#[trigger] s[k]);
                assert(s[w] == '=');
                assert forall|k: int| w < k < at + 1 implies is_skipped(#[trigger] s[k]) by {}
                assert(quality_begins(s, at + 1));
            } else {
                if quality_begins(s, at + 1) {
                    let w = choose|w: int|
                        0 <= w < at + 1 && #[trigger] s[w] == '=' && forall|k: int|
                            w < k < at + 1 ==> is_skipped(#[trigger] s[k]);
                    assert(w < at);
                    assert(is_skipped(s[at]));
                    assert(quality_begins(s, at));
                }
            }
        }
        i += 1;
    }
    false
}

/// Index of the first tag of `known` that is spelled exactly like `tag`.
pub fn index_of_tag(known: &Vec<String>, tag: &str) -> (r: Option<usize>)
    ensures
        match r {
            Some(i) => i < known.len() && known[i as int]@ == tag@ && forall|j: int|
                0 <= j < i ==> known[j]@ != tag@,
            None => forall|j: int| 0 <= j < known.len() ==> known[j]@ != tag@,
        },
{
    let wanted = chars_of(tag);
    let mut i: usize = 0;
    while i < known.len()
        invariant
            i <= known.len(),
            wanted@ == tag@,
            forall|j: int| 0 <= j < i ==> known[j]@ != tag@,
        decreases known.len() - i,
    {
        if crate::text::str_matches(known[i].as_str(), &wanted) {
            return Some(i);
        }
        i += 1;
    }
    None
}

/// The first place among `known` of a tag that is known to be there.
pub(crate) fn place_of(known: &Vec<String>, tag: &str) -> (r: usize)
    requires
        exists|j: int| 0 <= j < known.len() && (#[trigger] known[j])@ == tag@,
    ensures
        r < known.len(),
        known[r as int]@ == tag@,
        forall|j: int| 0 <= j < r ==> known[j]@ != tag@,
{
    let wanted = chars_of(tag);
    let mut i: usize = 0;
    while !crate::text::str_matches(known[i].as_str(), &wanted)
        invariant
            i < known.len(),
            wanted@ == tag@,
            forall|j: int| 0 <= j < i ==> known[j]@ != tag@,
            exists|j: int| 0 <= j < known.len() && (#[trigger] known[j])@ == tag@,
        decreases known.len() - i,
    {
        i += 1;
    }
    i
}

/// The place among `supported` of the first language of `found`, the list
/// that a negotiation returned: `None` when the list is empty or its first
/// language is not supported.
pub fn first_choice(found: &Vec<String>, supported: &Vec<String>) -> (r: Option<usize>)
    ensures
        match r {
            Some(i) => found.len() > 0 && i < supported.len() && supported[i as int]@ == found[0]@
                && forall|j: int| 0 <= j < i ==> supported[j]@ != found[0]@,
            None => found.len() == 0 || forall|j: int|
                0 <= j < supported.len() ==> supported[j]@ != found[0]@,
        },
{
    if found.len() == 0 {
        None
    } else {
        index_of_tag(supported, found[0].as_str())
    }
}

/// What negotiating `header` against `supported` comes to: the best
/// supported language of the header, or the reason why there is none.
pub open spec fn negotiation(header: Seq<char>, supported: Seq<Seq<char>>) -> Result<
    Seq<char>,
    NegotiationError,
> {
    if has_unordered_quality(header) {
        Err(NegotiationError::UnorderedQuality)
    } else if negotiated(header, supported).len() == 0 {
        Err(NegotiationError::NoAcceptableLocale)
    } else {
        Ok(negotiated(header, supported)[0])
    }
}

/// Negotiates `header` against `supported` and returns the first index of
/// the best supported language, or the reason why there is none.
pub fn negotiate(header: &str, supported: &Vec<String>) -> (r: Result<usize, NegotiationError>)
    ensures
        match r {
            Ok(i) => i < supported.len() && negotiation(header@, tags_of(supported@)) == Ok::<
                Seq<char>,
                NegotiationError,
            >(supported[i as int]@) && forall|j: int|
                0 <= j < i ==> supported[j]@ != supported[i as int]@,
            Err(e) => negotiation(header@, tags_of(supported@)) == Err::<
                Seq<char>,
                NegotiationError,
            >(e),
        },
{
    if check_unordered_quality(header) {
        return Err(NegotiationError::UnorderedQuality);
    }
    let found = intersect(header, supported);
    assert(tags_of(found@).len() == found.len());
    match first_choice(&found, supported) {
        Some(i) => {
            assert(tags_of(found@)[0] == found[0]@);
            Ok(i)
        },
        None => {
            proof {
                if found.len() > 0 {
                    let t = found[0]@;
                    assert(tags_of(supported@).contains(t));
                    let j = choose|j: int|
                        0 <= j < tags_of(supported@).len() && tags_of(supported@)[j] == t;
                    assert(supported[j]@ == t);
                }
            }
            Err(NegotiationError::NoAcceptableLocale)
        },
    }
}

} // verus!
