//! Choosing the known locale tag that best serves a requested one.
//!
//! Every known tag is ranked against the request:
//!
//! * rank 0, *exact*: its canonical form equals that of the request;
//! * rank 1, *common*: same language scope, and the tag is the bare scope;
//! * rank 2, *similar*: same language scope, and the tag names a region;
//! * rank 3: not eligible.
//!
//! Ranks 1 and 2 are open only when fallback is allowed.  The tag of the
//! lowest rank wins.  Among tags of one rank the winner is the one that comes
//! first when the tags, as written, are ordered character by character.  The
//! outcome therefore never depends on the order in which the known tags are
//! listed.  When no tag is eligible there is no match: the configured default
//! locale is not tried in its place.

use vstd::prelude::*;
use crate::tag::{has_region, normalize_tag, normalized, scope, lemma_scope, SEPARATOR};
use crate::text::{chars_of, find_char, same_chars, same_prefix};

verus! {

/// Rank of a tag whose canonical form is that of the request.
pub const EXACT: u8 = 0;

/// Rank of the bare language scope of the request.
pub const COMMON: u8 = 1;

/// Rank of a regional tag of the language scope of the request.
pub const SIMILAR: u8 = 2;

/// Rank of a tag that cannot serve the request.
pub const UNRELATED: u8 = 3;

/// How well `tag` serves `request`.
pub open spec fn rank(request: Seq<char>, fallback: bool, tag: Seq<char>) -> u8 {
    if normalized(tag) == normalized(request) {
        EXACT
    } else if fallback && scope(tag) == scope(request) {
        if has_region(tag) {
            SIMILAR
        } else {
            COMMON
        }
    } else {
        UNRELATED
    }
}

/// `a` comes no later than `b`, reading both from index `i` on, where one
/// that has run out comes first and otherwise the first differing
/// characters decide.
pub open spec fn lex_le_from(a: Seq<char>, b: Seq<char>, i: int) -> bool
    decreases a.len() - i,
{
    if i >= a.len() {
        true
    } else if i >= b.len() {
        false
    } else if a[i] == b[i] {
        lex_le_from(a, b, i + 1)
    } else {
        a[i] < b[i]
    }
}

/// Dictionary order on character sequences.
pub open spec fn lex_le(a: Seq<char>, b: Seq<char>) -> bool {
    lex_le_from(a, b, 0)
}

/// `a` is at least as good a choice as `b`.
pub open spec fn precedes(request: Seq<char>, fallback: bool, a: Seq<char>, b: Seq<char>) -> bool {
    rank(request, fallback, a) < rank(request, fallback, b) || (rank(request, fallback, a) == rank(
        request,
        fallback,
        b,
    ) && lex_le(a, b))
}

/// `tag` is the known tag chosen for `request`.
pub open spec fn is_match(
    request: Seq<char>,
    fallback: bool,
    known: Seq<Seq<char>>,
    tag: Seq<char>,
) -> bool {
    &&& known.contains(tag)
    &&& rank(request, fallback, tag) < UNRELATED
    &&& forall|j: int|
        0 <= j < known.len() ==> precedes(request, fallback, tag, #[trigger] known[j])
}

/// The known tag chosen for `request`, if any is eligible.
pub open spec fn resolved(request: Seq<char>, fallback: bool, known: Seq<Seq<char>>) -> Option<
    Seq<char>,
> {
    if exists|t: Seq<char>| is_match(request, fallback, known, t) {
        Some(choose|t: Seq<char>| is_match(request, fallback, known, t))
    } else {
        None
    }
}

/// Of two sequences that agree before `i`, one comes no later than the
/// other.
pub proof fn lemma_lex_le_total(a: Seq<char>, b: Seq<char>, i: int)
    requires
        0 <= i,
    ensures
        lex_le_from(a, b, i) || lex_le_from(b, a, i),
    decreases a.len() - i,
{
    if i < a.len() && i < b.len() && a[i] == b[i] {
        lemma_lex_le_total(a, b, i + 1);
    }
}

/// Two sequences that agree before `i` and come no later than each other
/// are the same sequence.
pub proof fn lemma_lex_le_antisymmetric(a: Seq<char>, b: Seq<char>, i: int)
    requires
        0 <= i <= a.len(),
        i <= b.len(),
        a.take(i) == b.take(i),
        lex_le_from(a, b, i),
        lex_le_from(b, a, i),
    ensures
        a == b,
    decreases a.len() - i,
{
    if i >= a.len() || i >= b.len() {
        assert(a.len() == b.len());
        assert(a.take(i) == a);
        assert(b.take(i) == b);
    } else {
        assert(a[i] == b[i]);
        assert(a.take(i + 1) =~= a.take(i).push(a[i]));
        assert(b.take(i + 1) =~= b.take(i).push(b[i]));
        lemma_lex_le_antisymmetric(a, b, i + 1);
    }
}

/// Dictionary order is transitive.
pub proof fn lemma_lex_le_transitive(a: Seq<char>, b: Seq<char>, c: Seq<char>, i: int)
    requires
        0 <= i,
        lex_le_from(a, b, i),
        lex_le_from(b, c, i),
    ensures
        lex_le_from(a, c, i),
    decreases a.len() - i,
{
    if i < a.len() && i < b.len() && i < c.len() && a[i] == b[i] && b[i] == c[i] {
        lemma_lex_le_transitive(a, b, c, i + 1);
    }
}

/// At most one tag is chosen.
pub proof fn lemma_match_unique(
    request: Seq<char>,
    fallback: bool,
    known: Seq<Seq<char>>,
    s: Seq<char>,
    t: Seq<char>,
)
    requires
        is_match(request, fallback, known, s),
        is_match(request, fallback, known, t),
    ensures
        s == t,
{
    let i = choose|i: int| 0 <= i < known.len() && known[i] == s;
    let j = choose|j: int| 0 <= j < known.len() && known[j] == t;
    assert(precedes(request, fallback, s, known[j]));
    assert(precedes(request, fallback, t, known[i]));
    assert(s.take(0) =~= t.take(0));
    lemma_lex_le_antisymmetric(s, t, 0);
}

/// The chosen tag, once one is known to be chosen.
pub proof fn lemma_resolved_is(
    request: Seq<char>,
    fallback: bool,
    known: Seq<Seq<char>>,
    t: Seq<char>,
)
    requires
        is_match(request, fallback, known, t),
    ensures
        resolved(request, fallback, known) == Some(t),
{
    let c = choose|c: Seq<char>| is_match(request, fallback, known, c);
    lemma_match_unique(request, fallback, known, c, t);
}

/// Where no known tag is eligible there is no match.
pub proof fn lemma_resolved_none(request: Seq<char>, fallback: bool, known: Seq<Seq<char>>)
    requires
        forall|j: int| 0 <= j < known.len() ==> rank(request, fallback, #[trigger] known[j]) == UNRELATED,
    ensures
        resolved(request, fallback, known) is None,
{
    if exists|t: Seq<char>| is_match(request, fallback, known, t) {
        let t = choose|t: Seq<char>| is_match(request, fallback, known, t);
        let i = choose|i: int| 0 <= i < known.len() && known[i] == t;
        assert(rank(request, fallback, known[i]) == UNRELATED);
    }
}

/// No two known tags share a canonical form.
pub open spec fn distinct_normalized(known: Seq<Seq<char>>) -> bool {
    forall|i: int, j: int|
        0 <= i < known.len() && 0 <= j < known.len() && i != j ==> normalized(#[trigger] known[i])
            != normalized(#[trigger] known[j])
}

/// Some known tag is eligible for `request`.
pub open spec fn some_eligible(request: Seq<char>, fallback: bool, known: Seq<Seq<char>>) -> bool {
    exists|j: int| 0 <= j < known.len() && rank(request, fallback, #[trigger] known[j]) < UNRELATED
}

/// Among the first `n` known tags there is one that is at least as good a
/// choice as each of them.
proof fn lemma_best_of_prefix(request: Seq<char>, fallback: bool, known: Seq<Seq<char>>, n: int) -> (b:
    int)
    requires
        0 < n <= known.len(),
    ensures
        0 <= b < n,
        forall|j: int| 0 <= j < n ==> precedes(request, fallback, known[b], #[trigger] known[j]),
    decreases n,
{
    let last = known[n - 1];
    lemma_lex_le_total(last, last, 0);
    if n == 1 {
        0
    } else {
        let b = lemma_best_of_prefix(request, fallback, known, n - 1);
        lemma_lex_le_total(known[b], last, 0);
        if precedes(request, fallback, known[b], last) {
            b
        } else {
            assert forall|j: int| 0 <= j < n implies precedes(
                request,
                fallback,
                last,
                #[trigger] known[j],
            ) by {
                if j < n - 1 {
                    assert(precedes(request, fallback, known[b], known[j]));
                    if rank(request, fallback, last) == rank(request, fallback, known[j]) {
                        lemma_lex_le_transitive(last, known[b], known[j], 0);
                    }
                }
            }
            n - 1
        }
    }
}

/// Whenever a known tag is eligible, a tag is chosen, and no known tag has a
/// lower rank than the chosen one.
pub proof fn lemma_resolved_has_least_rank(request: Seq<char>, fallback: bool, known: Seq<Seq<char>>)
    requires
        some_eligible(request, fallback, known),
    ensures
        resolved(request, fallback, known) is Some,
        is_match(request, fallback, known, resolved(request, fallback, known)->0),
        forall|j: int|
            0 <= j < known.len() ==> rank(request, fallback, resolved(request, fallback, known)->0)
                <= rank(request, fallback, #[trigger] known[j]),
{
    let e = choose|j: int| 0 <= j < known.len() && rank(request, fallback, #[trigger] known[j]) < UNRELATED;
    let b = lemma_best_of_prefix(request, fallback, known, known.len() as int);
    assert(precedes(request, fallback, known[b], known[e]));
    assert(known.contains(known[b]));
    lemma_resolved_is(request, fallback, known, known[b]);
    assert forall|j: int| 0 <= j < known.len() implies rank(request, fallback, known[b]) <= rank(
        request,
        fallback,
        #[trigger] known[j],
    ) by {
        assert(precedes(request, fallback, known[b], known[j]));
    }
}

/// Where no two known tags share a canonical form, the known tag that has
/// the canonical form of the request is the one chosen, with or without
/// fallback.
pub proof fn lemma_exact_match_is_chosen(
    request: Seq<char>,
    fallback: bool,
    known: Seq<Seq<char>>,
    at: int,
)
    requires
        distinct_normalized(known),
        0 <= at < known.len(),
        normalized(known[at]) == normalized(request),
    ensures
        resolved(request, fallback, known) == Some(known[at]),
{
    let tag = known[at];
    lemma_lex_le_total(tag, tag, 0);
    assert forall|j: int| 0 <= j < known.len() implies precedes(
        request,
        fallback,
        tag,
        #[trigger] known[j],
    ) by {
        if normalized(known[j]) == normalized(request) {
            assert(at == j);
        }
    }
    assert(known.contains(tag));
    lemma_resolved_is(request, fallback, known, tag);
}

/// A known tag resolves to itself, with or without fallback, as long as no
/// other known tag has its canonical form.
pub proof fn lemma_known_tag_resolves_to_itself(known: Seq<Seq<char>>, tag: Seq<char>, fallback: bool)
    requires
        distinct_normalized(known),
        known.contains(tag),
    ensures
        resolved(tag, fallback, known) == Some(tag),
{
    let at = choose|i: int| 0 <= i < known.len() && known[i] == tag;
    lemma_exact_match_is_chosen(tag, fallback, known, at);
}

/// A tag whose canonical form no known tag has does not resolve without
/// fallback; and if no known tag has its language scope either, it does not
/// resolve with fallback.
pub proof fn lemma_unknown_tag_unresolved(known: Seq<Seq<char>>, tag: Seq<char>)
    requires
        forall|j: int| 0 <= j < known.len() ==> normalized(#[trigger] known[j]) != normalized(tag),
    ensures
        resolved(tag, false, known) is None,
        (forall|j: int| 0 <= j < known.len() ==> scope(#[trigger] known[j]) != scope(tag))
            ==> resolved(tag, true, known) is None,
{
    lemma_resolved_none(tag, false, known);
    if forall|j: int| 0 <= j < known.len() ==> scope(#[trigger] known[j]) != scope(tag) {
        lemma_resolved_none(tag, true, known);
    }
}

/// Exact match comes first: when some known tag has the canonical form of the
/// request, the chosen tag has it too, whatever else is known.
pub proof fn lemma_exact_match_precedence(request: Seq<char>, fallback: bool, known: Seq<Seq<char>>)
    requires
        exists|j: int| 0 <= j < known.len() && normalized(#[trigger] known[j]) == normalized(request),
    ensures
        resolved(request, fallback, known) is Some,
        normalized(resolved(request, fallback, known)->0) == normalized(request),
{
    let e = choose|j: int| 0 <= j < known.len() && normalized(#[trigger] known[j]) == normalized(request);
    assert(rank(request, fallback, known[e]) == EXACT);
    lemma_resolved_has_least_rank(request, fallback, known);
}

/// Common before similar: with fallback and without an exact match, a known
/// tag that is the bare language scope of the request is chosen before any
/// tag of that scope that names a region.
pub proof fn lemma_common_over_similar(request: Seq<char>, known: Seq<Seq<char>>)
    requires
        forall|j: int| 0 <= j < known.len() ==> normalized(#[trigger] known[j]) != normalized(request),
        exists|j: int|
            0 <= j < known.len() && scope(#[trigger] known[j]) == scope(request) && !has_region(
                known[j],
            ),
    ensures
        resolved(request, true, known) is Some,
        scope(resolved(request, true, known)->0) == scope(request),
        !has_region(resolved(request, true, known)->0),
{
    let e = choose|j: int|
        0 <= j < known.len() && scope(#[trigger] known[j]) == scope(request) && !has_region(known[j]);
    assert(rank(request, true, known[e]) == COMMON);
    lemma_resolved_has_least_rank(request, true, known);
    let t = resolved(request, true, known)->0;
    let i = choose|i: int| 0 <= i < known.len() && known[i] == t;
    assert(normalized(known[i]) != normalized(request));
}

/// Similar as the last resort: with fallback, without an exact match and
/// without the bare scope, a known tag of the scope of the request is chosen
/// if there is one.
pub proof fn lemma_similar_fallback(request: Seq<char>, known: Seq<Seq<char>>)
    requires
        forall|j: int| 0 <= j < known.len() ==> normalized(#[trigger] known[j]) != normalized(request),
        exists|j: int| 0 <= j < known.len() && scope(#[trigger] known[j]) == scope(request),
    ensures
        resolved(request, true, known) is Some,
        scope(resolved(request, true, known)->0) == scope(request),
{
    let e = choose|j: int| 0 <= j < known.len() && scope(#[trigger] known[j]) == scope(request);
    assert(rank(request, true, known[e]) < UNRELATED);
    lemma_resolved_has_least_rank(request, true, known);
    let t = resolved(request, true, known)->0;
    let i = choose|i: int| 0 <= i < known.len() && known[i] == t;
    assert(normalized(known[i]) != normalized(request));
}

/// Case and the choice of separator in the request do not matter: requests
/// of one canonical form resolve alike.
pub proof fn lemma_request_spelling_irrelevant(
    a: Seq<char>,
    b: Seq<char>,
    fallback: bool,
    known: Seq<Seq<char>>,
)
    requires
        normalized(a) == normalized(b),
    ensures
        resolved(a, fallback, known) == resolved(b, fallback, known),
{
    assert forall|t: Seq<char>| rank(a, fallback, t) == rank(b, fallback, t) by {}
    assert forall|t: Seq<char>| is_match(a, fallback, known, t) == is_match(b, fallback, known, t) by {
        if is_match(a, fallback, known, t) {
            assert forall|j: int| 0 <= j < known.len() implies precedes(
                b,
                fallback,
                t,
                #[trigger] known[j],
            ) by {
                assert(precedes(a, fallback, t, known[j]));
            }
        }
        if is_match(b, fallback, known, t) {
            assert forall|j: int| 0 <= j < known.len() implies precedes(
                a,
                fallback,
                t,
                #[trigger] known[j],
            ) by {
                assert(precedes(b, fallback, t, known[j]));
            }
        }
    }
    if exists|t: Seq<char>| is_match(a, fallback, known, t) {
        let t = choose|t: Seq<char>| is_match(a, fallback, known, t);
        assert(is_match(b, fallback, known, t));
        lemma_resolved_is(b, fallback, known, t);
    } else {
        if exists|t: Seq<char>| is_match(b, fallback, known, t) {
            let t = choose|t: Seq<char>| is_match(b, fallback, known, t);
            assert(is_match(a, fallback, known, t));
        }
    }
}

/// The order in which the known tags are listed does not matter: two lists
/// that hold the same tags resolve every request alike.
pub proof fn lemma_listing_order_irrelevant(
    request: Seq<char>,
    fallback: bool,
    known: Seq<Seq<char>>,
    other: Seq<Seq<char>>,
)
    requires
        forall|t: Seq<char>| known.contains(t) == other.contains(t),
    ensures
        resolved(request, fallback, known) == resolved(request, fallback, other),
{
    assert forall|t: Seq<char>| is_match(request, fallback, known, t) implies is_match(
        request,
        fallback,
        other,
        t,
    ) by {
        assert forall|j: int| 0 <= j < other.len() implies precedes(
            request,
            fallback,
            t,
            #[trigger] other[j],
        ) by {
            assert(other.contains(other[j]));
            let k = choose|k: int| 0 <= k < known.len() && known[k] == other[j];
            assert(precedes(request, fallback, t, known[k]));
        }
    }
    assert forall|t: Seq<char>| is_match(request, fallback, other, t) implies is_match(
        request,
        fallback,
        known,
        t,
    ) by {
        assert forall|j: int| 0 <= j < known.len() implies precedes(
            request,
            fallback,
            t,
            #[trigger] known[j],
        ) by {
            assert(known.contains(known[j]));
            let k = choose|k: int| 0 <= k < other.len() && other[k] == known[j];
            assert(precedes(request, fallback, t, other[k]));
        }
    }
    if exists|t: Seq<char>| is_match(request, fallback, known, t) {
        let t = choose|t: Seq<char>| is_match(request, fallback, known, t);
        assert(is_match(request, fallback, other, t));
        lemma_resolved_is(request, fallback, other, t);
    } else {
        if exists|t: Seq<char>| is_match(request, fallback, other, t) {
            let t = choose|t: Seq<char>| is_match(request, fallback, other, t);
            assert(is_match(request, fallback, known, t));
        }
    }
}

/// Dictionary order on characters.
pub fn lex_le_chars(a: &Vec<char>, b: &Vec<char>) -> (r: bool)
    ensures
        r == lex_le(a@, b@),
{
    let mut i: usize = 0;
    while i < a.len() && i < b.len() && a[i] == b[i]
        invariant
            i <= a.len(),
            i <= b.len(),
            lex_le(a@, b@) == lex_le_from(a@, b@, i as int),
        decreases a.len() - i,
    {
        i += 1;
    }
    if i >= a.len() {
        true
    } else if i >= b.len() {
        false
    } else {
        a[i] < b[i]
    }
}

/// The rank of a tag against a request, both given in canonical form.
fn rank_of(request: &Vec<char>, fallback: bool, tag: &Vec<char>, Ghost(req): Ghost<Seq<char>>, Ghost(
    t,
): Ghost<Seq<char>>) -> (r: u8)
    requires
        request@ == normalized(req),
        tag@ == normalized(t),
    ensures
        r == rank(req, fallback, t),
{
    proof {
        lemma_scope(req);
        lemma_scope(t);
    }
    if same_chars(tag, request) {
        return EXACT;
    }
    if !fallback {
        return UNRELATED;
    }
    let p: usize = find_char(request, SEPARATOR);
    let q: usize = find_char(tag, SEPARATOR);
    if p == q && same_prefix(request, tag, p) {
        if q < tag.len() {
            SIMILAR
        } else {
            COMMON
        }
    } else {
        proof {
            if p != q {
                assert(scope(req).len() == p);
                assert(scope(t).len() == q);
            }
        }
        UNRELATED
    }
}

/// The tags that a list of strings spells.
pub open spec fn tags_of(known: Seq<String>) -> Seq<Seq<char>> {
    Seq::new(known.len(), |i: int| known[i]@)
}

/// Picks, among `known`, the tag that serves `requested` best, and returns
/// the first index at which it stands; `None` when no known tag is eligible.
pub fn match_locale(requested: &str, fallback: bool, known: &Vec<String>) -> (r: Option<usize>)
    ensures
        match r {
            Some(i) => {
                &&& i < known.len()
                &&& resolved(requested@, fallback, tags_of(known@)) == Some(known[i as int]@)
                &&& forall|j: int| 0 <= j < i ==> known[j]@ != known[i as int]@
            },
            None => resolved(requested@, fallback, tags_of(known@)) is None,
        },
{
    let request = normalize_tag(requested);
    let ghost tags = tags_of(known@);
    let mut best: Option<usize> = None;
    let mut best_rank: u8 = UNRELATED;
    let mut best_chars: Vec<char> = Vec::new();
    let mut i: usize = 0;
    while i < known.len()
        invariant
            i <= known.len(),
            tags == tags_of(known@),
            request@ == normalized(requested@),
            best is None ==> best_rank == UNRELATED && forall|j: int|
                0 <= j < i ==> rank(requested@, fallback, #[trigger] tags[j]) == UNRELATED,
            best matches Some(b) ==> {
                &&& b < i
                &&& best_chars@ == tags[b as int]
                &&& best_rank == rank(requested@, fallback, tags[b as int])
                &&& best_rank < UNRELATED
                &&& forall|j: int|
                    0 <= j < i ==> precedes(requested@, fallback, tags[b as int], #[trigger] tags[j])
                &&& forall|j: int| 0 <= j < b ==> tags[j] != tags[b as int]
            },
        decreases known.len() - i,
    {
        let tag = normalize_tag(known[i].as_str());
        let r: u8 = rank_of(&request, fallback, &tag, Ghost(requested@), Ghost(tags[i as int]));
        if r < UNRELATED {
            let chars = chars_of(known[i].as_str());
            let better = match best {
                None => true,
                Some(_) => r < best_rank || (r == best_rank && !lex_le_chars(&best_chars, &chars)),
            };
            if better {
                proof {
                    let c = tags[i as int];
                    lemma_lex_le_total(c, c, 0);
                    if let Some(b) = best {
                        let old_best = tags[b as int];
                        lemma_lex_le_total(old_best, c, 0);
                        assert forall|j: int| 0 <= j < i implies precedes(
                            requested@,
                            fallback,
                            c,
                            #[trigger] tags[j],
                        ) by {
                            assert(precedes(requested@, fallback, old_best, tags[j]));
                            if r == best_rank && rank(requested@, fallback, tags[j]) == best_rank {
                                lemma_lex_le_transitive(c, old_best, tags[j], 0);
                            }
                        }
                        assert forall|j: int| 0 <= j < i implies tags[j] != c by {
                            if tags[j] == c {
                                assert(precedes(requested@, fallback, old_best, tags[j]));
                            }
                        }
                    }
                }
                best = Some(i);
                best_rank = r;
                best_chars = chars;
            }
        }
        i += 1;
    }
    proof {
        match best {
            Some(b) => {
                assert(tags[b as int] == known[b as int]@);
                assert(tags.contains(tags[b as int]));
                lemma_resolved_is(requested@, fallback, tags, tags[b as int]);
                assert forall|j: int| 0 <= j < b implies known[j]@ != known[b as int]@ by {
                    assert(tags[j] == known[j]@);
                }
            },
            None => {
                lemma_resolved_none(requested@, fallback, tags);
            },
        }
    }
    best
}

} // verus!
