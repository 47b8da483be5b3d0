//! Byte-wise matching and ranking of completion candidates.

use vstd::prelude::*;
use vstd::slice::*;

verus! {

/// The lower-case form of an ASCII byte; other bytes stay.
pub open spec fn lower_byte(byte: u8) -> u8 {
    if 65 <= byte <= 90 {
        (byte + 32) as u8
    } else {
        byte
    }
}

/// Bytes in ASCII lower case.
pub open spec fn lower_bytes(bytes: Seq<u8>) -> Seq<u8> {
    bytes.map_values(|byte: u8| lower_byte(byte))
}

/// Bytes in ASCII lower case.
pub fn to_lower_bytes(bytes: &[u8]) -> (lower: Vec<u8>)
    ensures
        lower@ == lower_bytes(bytes@),
{
    let mut lower: Vec<u8> = Vec::new();
    let mut at: usize = 0;
    while at < bytes.len()
        invariant
            at <= bytes.len(),
            lower.len() == at,
            forall|i: int| 0 <= i < at ==> lower@[i] == lower_byte(bytes@[i]),
        decreases bytes.len() - at,
    {
        let byte: u8 = bytes[at];
        lower.push(
            if byte >= 65 && byte <= 90 {
                byte + 32
            } else {
                byte
            },
        );
        at += 1;
    }
    assert(lower@ =~= lower_bytes(bytes@));
    lower
}

/// Whether `needle` stands at byte `at`.
pub open spec fn stands_at(bytes: Seq<u8>, needle: Seq<u8>, at: int) -> bool {
    0 <= at && at + needle.len() <= bytes.len() && bytes.subrange(at, at + needle.len()) == needle
}

/// Whether `needle` stands at byte `at`.
pub fn is_at(bytes: &[u8], needle: &[u8], at: usize) -> (yes: bool)
    ensures
        yes == stands_at(bytes@, needle@, at as int),
{
    if at > bytes.len() || needle.len() > bytes.len() - at {
        return false;
    }
    let mut i: usize = 0;
    while i < needle.len()
        invariant
            i <= needle.len(),
            at + needle.len() <= bytes.len(),
            forall|j: int| 0 <= j < i ==> bytes@[at + j] == needle@[j],
        decreases needle.len() - i,
    {
        if bytes[at + i] != needle[i] {
            assert(bytes@.subrange(at as int, at + needle.len())[i as int] != needle@[i as int]);
            return false;
        }
        i += 1;
    }
    assert(bytes@.subrange(at as int, at + needle.len()) =~= needle@);
    true
}

/// Whether the bytes start with `prefix`.
pub open spec fn starts_with(bytes: Seq<u8>, prefix: Seq<u8>) -> bool {
    stands_at(bytes, prefix, 0)
}

/// Whether the bytes start with `prefix`.
pub fn has_prefix(bytes: &[u8], prefix: &[u8]) -> (yes: bool)
    ensures
        yes == starts_with(bytes@, prefix@),
{
    is_at(bytes, prefix, 0)
}

/// Whether two runs of bytes are the same.
pub fn same_bytes(a: &[u8], b: &[u8]) -> (same: bool)
    ensures
        same == (a@ == b@),
{
    let same: bool = a.len() == b.len() && is_at(a, b, 0);
    proof {
        assert(a@.subrange(0, a@.len() as int) =~= a@);
    }
    same
}

/// The first position at or behind `at` where `needle` stands.
pub open spec fn found_from(bytes: Seq<u8>, needle: Seq<u8>, at: int) -> Option<int>
    decreases bytes.len() + 1 - at,
{
    if at + needle.len() > bytes.len() {
        None
    } else if stands_at(bytes, needle, at) {
        Some(at)
    } else {
        found_from(bytes, needle, at + 1)
    }
}

/// The first position where `needle` stands.
pub fn find_bytes(bytes: &[u8], needle: &[u8]) -> (found: Option<usize>)
    ensures
        crate::buffer::offset_view(found) == found_from(bytes@, needle@, 0),
        found matches Some(at) ==> at + needle.len() <= bytes.len(),
{
    if needle.len() > bytes.len() {
        return None;
    }
    let last: usize = bytes.len() - needle.len();
    let mut at: usize = 0;
    loop
        invariant
            at <= last,
            last + needle.len() == bytes.len(),
            found_from(bytes@, needle@, 0) == found_from(bytes@, needle@, at as int),
        decreases last - at,
    {
        if is_at(bytes, needle, at) {
            return Some(at);
        }
        if at == last {
            assert(found_from(bytes@, needle@, at + 1) is None);
            return None;
        }
        at += 1;
    }
}

/// A sum held at the largest count.
pub open spec fn sat16(count: int) -> int {
    if count > 65535 {
        65535
    } else if count < 0 {
        0
    } else {
        count
    }
}

/// The score of a query whose bytes from `qi` on are looked for in the target
/// from `ti` on, after `matched` matches and `gaps` bytes between them.
pub open spec fn fuzzy_from(
    query: Seq<u8>,
    target: Seq<u8>,
    qi: int,
    ti: int,
    matched: int,
    gaps: int,
) -> int
    decreases target.len() - ti,
{
    if ti >= target.len() {
        0
    } else if target[ti] == query[qi] {
        let more = sat16(matched + 1);
        if qi + 1 < query.len() {
            fuzzy_from(query, target, qi + 1, ti + 1, more, gaps)
        } else {
            sat16(sat16(500 + sat16(more * 8)) - gaps)
        }
    } else {
        fuzzy_from(
            query,
            target,
            qi,
            ti + 1,
            matched,
            if matched > 0 {
                sat16(gaps + 1)
            } else {
                gaps
            },
        )
    }
}

/// How well the query's bytes occur in order in the target; zero where they
/// do not.
pub open spec fn fuzzy(query: Seq<u8>, target: Seq<u8>) -> int {
    if query.len() == 0 {
        1
    } else {
        fuzzy_from(query, target, 0, 0, 0, 0)
    }
}

/// How well the query's bytes occur in order in the target.
pub fn fuzzy_score(query: &[u8], target: &[u8]) -> (score: u16)
    ensures
        score == fuzzy(query@, target@),
{
    if query.len() == 0 {
        return 1;
    }
    let mut qi: usize = 0;
    let mut matched: u16 = 0;
    let mut gaps: u16 = 0;
    let mut ti: usize = 0;
    while ti < target.len()
        invariant
            ti <= target.len(),
            qi < query.len(),
            fuzzy(query@, target@) == fuzzy_from(
                query@,
                target@,
                qi as int,
                ti as int,
                matched as int,
                gaps as int,
            ),
        decreases target.len() - ti,
    {
        if target[ti] == query[qi] {
            matched = matched.saturating_add(1);
            if qi + 1 < query.len() {
                qi += 1;
            } else {
                let bonus: u16 = if matched > 8191 {
                    65535
                } else {
                    matched * 8
                };
                let base: u16 = 500;
                return base.saturating_add(bonus).saturating_sub(gaps);
            }
        } else if matched > 0 {
            gaps = gaps.saturating_add(1);
        }
        ti += 1;
    }
    0
}

/// Rank of a command name against a query.
pub open spec fn command_rank(query: Seq<u8>, target: Seq<u8>) -> int {
    if query.len() == 0 {
        1
    } else if query == target {
        1_000
    } else if starts_with(target, query) {
        900
    } else {
        fuzzy(query, target)
    }
}

/// Rank of a command name against a query.
pub fn command_score(query: &[u8], target: &[u8]) -> (score: u16)
    ensures
        score == command_rank(query@, target@),
{
    if query.len() == 0 {
        1
    } else if same_bytes(query, target) {
        1_000
    } else if has_prefix(target, query) {
        900
    } else {
        fuzzy_score(query, target)
    }
}

/// Rank of an exact or prefix match; zero for others.
pub open spec fn breakout_tier(query: Seq<u8>, target: Seq<u8>) -> int {
    if query == target {
        1_000
    } else if starts_with(target, query) {
        900
    } else {
        0
    }
}

/// Rank of an exact or prefix match; zero for others.
pub fn breakout_match_tier(query: &[u8], target: &[u8]) -> (tier: u16)
    ensures
        tier == breakout_tier(query@, target@),
{
    if same_bytes(query, target) {
        1_000
    } else if has_prefix(target, query) {
        900
    } else {
        0
    }
}

/// Spans put in front of others, where there are others.
pub open spec fn with_spans(front: Seq<(u16, u16)>, rest: Option<Seq<(u16, u16)>>) -> Option<
    Seq<(u16, u16)>,
> {
    match rest {
        Some(spans) => Some(front + spans),
        None => None,
    }
}

/// The span of one byte, where it can be told.
pub open spec fn byte_span(at: int) -> Seq<(u16, u16)> {
    if at <= 65535 {
        seq![(at as u16, sat16(at + 1) as u16)]
    } else {
        Seq::empty()
    }
}

/// The spans of the query's bytes from `qi` on, each at its first occurrence
/// behind the one before, from `ti` on.
pub open spec fn scattered_spans(text: Seq<u8>, query: Seq<u8>, ti: int, qi: int) -> Option<
    Seq<(u16, u16)>,
>
    decreases text.len() - ti,
{
    if qi >= query.len() {
        Some(Seq::empty())
    } else if ti >= text.len() {
        None
    } else if text[ti] == query[qi] {
        with_spans(byte_span(ti), scattered_spans(text, query, ti + 1, qi + 1))
    } else {
        scattered_spans(text, query, ti + 1, qi)
    }
}

/// The spans of a candidate that a query matches: one run where it occurs in
/// full, else its bytes in order.
pub open spec fn match_spans(candidate: Seq<u8>, query: Seq<u8>) -> Seq<(u16, u16)> {
    let folded = lower_bytes(candidate);
    if query.len() == 0 {
        Seq::empty()
    } else {
        match found_from(folded, query, 0) {
            Some(start) => if start + query.len() <= 65535 {
                seq![(start as u16, (start + query.len()) as u16)]
            } else {
                Seq::empty()
            },
            None => match scattered_spans(folded, query, 0, 0) {
                Some(spans) => spans,
                None => Seq::empty(),
            },
        }
    }
}

/// The spans of a candidate that a query matches.
pub fn fuzzy_match_spans(candidate: &[u8], query: &[u8]) -> (spans: Vec<(u16, u16)>)
    ensures
        spans@ == match_spans(candidate@, query@),
{
    let mut spans: Vec<(u16, u16)> = Vec::new();
    if query.len() == 0 {
        assert(spans@ =~= Seq::<(u16, u16)>::empty());
        return spans;
    }
    let folded: Vec<u8> = to_lower_bytes(candidate);
    if let Some(start) = find_bytes(folded.as_slice(), query) {
        let end: usize = start + query.len();
        if end <= 65535 {
            spans.push((start as u16, end as u16));
        }
        assert(spans@ =~= match_spans(candidate@, query@));
        return spans;
    }
    let ghost goal = scattered_spans(folded@, query@, 0, 0);
    let mut ti: usize = 0;
    let mut qi: usize = 0;
    assert(with_spans(spans@, goal) == goal) by {
        if let Some(rest) = goal {
            assert(spans@ + rest =~= rest);
        }
    }
    while ti < folded.len() && qi < query.len()
        invariant
            ti <= folded.len(),
            qi <= query.len(),
            goal == with_spans(spans@, scattered_spans(folded@, query@, ti as int, qi as int)),
        decreases folded.len() - ti,
    {
        let ghost earlier = spans@;
        let ghost rest = scattered_spans(folded@, query@, ti + 1, qi + 1);
        if folded[ti] == query[qi] {
            if ti <= 65535 {
                let index: u16 = ti as u16;
                spans.push((index, index.saturating_add(1)));
            }
            assert(spans@ =~= earlier + byte_span(ti as int));
            assert(with_spans(spans@, rest) == with_spans(earlier, with_spans(byte_span(ti as int), rest)))
                by {
                if let Some(more) = rest {
                    assert(spans@ + more =~= earlier + (byte_span(ti as int) + more));
                }
            }
            qi += 1;
        }
        ti += 1;
    }
    if qi < query.len() {
        spans = Vec::new();
        assert(spans@ =~= Seq::<(u16, u16)>::empty());
    } else {
        assert(spans@ + Seq::<(u16, u16)>::empty() =~= spans@);
    }
    spans
}

/// Whether a history entry matches a query in lower case.
pub open spec fn entry_matches(query: Seq<u8>, entry: Seq<u8>) -> bool {
    query.len() == 0 || found_from(lower_bytes(entry), query, 0) is Some || fuzzy(
        query,
        lower_bytes(entry),
    ) > 0
}

/// Whether a history entry matches a query in lower case.
pub fn history_entry_matches(query: &[u8], entry: &[u8]) -> (yes: bool)
    ensures
        yes == entry_matches(query@, entry@),
{
    if query.len() == 0 {
        return true;
    }
    let lower: Vec<u8> = to_lower_bytes(entry);
    find_bytes(lower.as_slice(), query).is_some() || fuzzy_score(query, lower.as_slice()) > 0
}

/// Exact names rank above prefixes, and prefixes above every scattered match
/// of fewer than forty-nine bytes.
pub proof fn exact_names_rank_first(query: Seq<u8>, target: Seq<u8>, other: Seq<u8>)
    requires
        0 < query.len() < 49,
        query == target,
        query != other,
    ensures
        command_rank(query, target) == 1_000,
        command_rank(query, other) <= 900,
{
    if !starts_with(other, query) {
        scattered_ranks_low(query, other, 0, 0, 0, 0);
    }
}

/// A scattered match scores by its length at most.
proof fn scattered_ranks_low(
    query: Seq<u8>,
    target: Seq<u8>,
    qi: int,
    ti: int,
    matched: int,
    gaps: int,
)
    requires
        0 <= qi < query.len() < 49,
        0 <= matched <= qi,
        0 <= gaps,
    ensures
        0 <= fuzzy_from(query, target, qi, ti, matched, gaps) <= 500 + query.len() * 8,
    decreases target.len() - ti,
{
    if ti < target.len() {
        if target[ti] == query[qi] {
            if qi + 1 < query.len() {
                scattered_ranks_low(query, target, qi + 1, ti + 1, sat16(matched + 1), gaps);
            }
        } else {
            scattered_ranks_low(
                query,
                target,
                qi,
                ti + 1,
                matched,
                if matched > 0 {
                    sat16(gaps + 1)
                } else {
                    gaps
                },
            );
        }
    }
}

/// A name that starts with the query ranks above every name that does not, for
/// queries of fewer than forty-nine bytes; the query itself ranks above both.
pub proof fn prefixes_rank_above_scattered(query: Seq<u8>, target: Seq<u8>, other: Seq<u8>)
    requires
        0 < query.len() < 49,
        query.len() <= target.len(),
        target.subrange(0, query.len() as int) == query,
        other.len() < query.len() || other.subrange(0, query.len() as int) != query,
    ensures
        command_rank(query, target) > command_rank(query, other),
        command_rank(query, query) == 1_000,
        target.len() > query.len() ==> command_rank(query, target) == 900,
        command_rank(query, other) == fuzzy(query, other),
        breakout_tier(query, target) > breakout_tier(query, other),
        breakout_tier(query, other) == 0,
        target.len() > query.len() ==> breakout_tier(query, query) > breakout_tier(query, target),
{
    assert(query.subrange(0, query.len() as int) =~= query);
    if query == other {
        assert(other.subrange(0, query.len() as int) =~= query);
    }
    scattered_ranks_low(query, other, 0, 0, 0, 0);
    assert(500 + query.len() * 8 < 900);
}

/// Whether the query's first bytes stand at the given positions of the target:
/// each at its first occurrence behind the one before.
pub open spec fn leftmost_part(query: Seq<u8>, target: Seq<u8>, at: Seq<int>) -> bool {
    &&& at.len() <= query.len()
    &&& forall|i: int|
        0 <= i < at.len() ==> 0 <= #[trigger] at[i] < target.len() && target[at[i]] == query[i]
    &&& forall|i: int, j: int| 0 <= i < j < at.len() ==> #[trigger] at[i] < #[trigger] at[j]
    &&& forall|k: int| at.len() > 0 && 0 <= k < at[0] ==> #[trigger] target[k] != query[0]
    &&& forall|i: int, j: int, k: int|
        #![trigger at[i], at[j], target[k]]
        0 <= i && j == i + 1 && j < at.len() && at[i] < k < at[j] ==> target[k] != query[j]
}

/// Whether all of the query's bytes stand at the given positions of the target:
/// each at its first occurrence behind the one before.
pub open spec fn leftmost(query: Seq<u8>, target: Seq<u8>, at: Seq<int>) -> bool {
    at.len() == query.len() && leftmost_part(query, target, at)
}

proof fn scattered_score(
    query: Seq<u8>,
    target: Seq<u8>,
    at: Seq<int>,
    qi: int,
    ti: int,
    gaps: int,
)
    requires
        0 < query.len() <= 8_000,
        leftmost(query, target, at),
        0 <= qi < query.len(),
        0 <= ti <= at[qi],
        qi > 0 ==> at[qi - 1] < ti,
        gaps == (if qi == 0 {
            0
        } else {
            sat16(ti - at[0] - qi)
        }),
    ensures
        fuzzy_from(query, target, qi, ti, qi, gaps) == ({
            let score = 500 + 8 * query.len() - (at.last() - at[0] + 1 - query.len());
            if score > 0 {
                score
            } else {
                0
            }
        }),
    decreases target.len() - ti,
{
    if qi > 0 {
        spread(query, target, at, qi - 1);
    }
    if ti == at[qi] {
        if qi + 1 < query.len() {
            assert(at[qi] < at[qi + 1]);
            scattered_score(query, target, at, qi + 1, ti + 1, gaps);
        }
    } else {
        if qi > 0 {
            assert(at[qi - 1] < ti < at[qi]);
        }
        assert(target[ti] != query[qi]);
        scattered_score(
            query,
            target,
            at,
            qi,
            ti + 1,
            if qi > 0 {
                sat16(gaps + 1)
            } else {
                gaps
            },
        );
    }
}

proof fn spread(query: Seq<u8>, target: Seq<u8>, at: Seq<int>, i: int)
    requires
        leftmost(query, target, at),
        0 <= i < at.len(),
    ensures
        at[i] - at[0] >= i,
    decreases i,
{
    if i > 0 {
        spread(query, target, at, i - 1);
        assert(at[i - 1] < at[i]);
    }
}

/// A scattered match scores 500, eight more for every byte of the query, and
/// one less for every byte of the target that lies between its matches.
pub proof fn scattered_matches_score_by_gaps(query: Seq<u8>, target: Seq<u8>, at: Seq<int>)
    requires
        0 < query.len() <= 8_000,
        leftmost(query, target, at),
    ensures
        fuzzy(query, target) == ({
            let score = 500 + 8 * query.len() - (at.last() - at[0] + 1 - query.len());
            if score > 0 {
                score
            } else {
                0
            }
        }),
{
    scattered_score(query, target, at, 0, 0, 0);
}

proof fn one_more_position(query: Seq<u8>, target: Seq<u8>, at: Seq<int>, ti: int)
    requires
        at.len() < query.len(),
        leftmost_part(query, target, at),
        0 <= ti < target.len(),
        target[ti] == query[at.len() as int],
        at.len() > 0 ==> at.last() < ti,
        forall|k: int|
            (if at.len() == 0 {
                0
            } else {
                at.last() + 1
            }) <= k < ti ==> #[trigger] target[k] != query[at.len() as int],
    ensures
        leftmost_part(query, target, at.push(ti)),
{
    let more = at.push(ti);
    assert forall|i: int, j: int| 0 <= i < j < more.len() implies #[trigger] more[i]
        < #[trigger] more[j] by {
        if j < at.len() {
            assert(at[i] < at[j]);
        } else if i < at.len() - 1 {
            assert(at[i] < at[at.len() - 1]);
        }
    }
    assert forall|i: int, j: int, k: int|
        #![trigger more[i], more[j], target[k]]
        0 <= i && j == i + 1 && j < more.len() && more[i] < k < more[j] implies target[k]
        != query[j] by {
        assert(more[i] == at[i]);
        if j < at.len() {
            assert(more[j] == at[j]);
        }
    }
}

proof fn positions_from(
    query: Seq<u8>,
    target: Seq<u8>,
    qi: int,
    ti: int,
    matched: int,
    gaps: int,
    at: Seq<int>,
) -> (all: Seq<int>)
    requires
        0 <= qi < query.len(),
        0 <= ti,
        fuzzy_from(query, target, qi, ti, matched, gaps) > 0,
        at.len() == qi,
        leftmost_part(query, target, at),
        qi > 0 ==> at.last() < ti,
        forall|k: int|
            (if qi == 0 {
                0
            } else {
                at.last() + 1
            }) <= k < ti ==> #[trigger] target[k] != query[qi],
    ensures
        leftmost(query, target, all),
    decreases target.len() - ti,
{
    if target[ti] == query[qi] {
        let more = at.push(ti);
        one_more_position(query, target, at, ti);
        if qi + 1 < query.len() {
            positions_from(query, target, qi + 1, ti + 1, sat16(matched + 1), gaps, more)
        } else {
            more
        }
    } else {
        positions_from(
            query,
            target,
            qi,
            ti + 1,
            matched,
            if matched > 0 {
                sat16(gaps + 1)
            } else {
                gaps
            },
            at,
        )
    }
}

/// Only a target that holds the query's bytes in order scores.
pub proof fn scores_come_of_matches(query: Seq<u8>, target: Seq<u8>) -> (at: Seq<int>)
    requires
        query.len() > 0,
        fuzzy(query, target) > 0,
    ensures
        leftmost(query, target, at),
{
    positions_from(query, target, 0, 0, 0, 0, Seq::empty())
}

/// What is found stands there and nowhere before; what is not found stands
/// nowhere.
pub proof fn found_is_the_first(bytes: Seq<u8>, needle: Seq<u8>, from: int)
    requires
        0 <= from,
    ensures
        match found_from(bytes, needle, from) {
            Some(at) => {
                &&& from <= at
                &&& at + needle.len() <= bytes.len()
                &&& bytes.subrange(at, at + needle.len()) == needle
                &&& forall|k: int|
                    from <= k < at ==> #[trigger] bytes.subrange(k, k + needle.len()) != needle
            },
            None => forall|k: int|
                from <= k && k + needle.len() <= bytes.len() ==> #[trigger] bytes.subrange(
                    k,
                    k + needle.len(),
                ) != needle,
        },
    decreases bytes.len() + 1 - from,
{
    if from + needle.len() <= bytes.len() && !stands_at(bytes, needle, from) {
        found_is_the_first(bytes, needle, from + 1);
    }
}

proof fn scattered_spans_mark_positions(
    text: Seq<u8>,
    query: Seq<u8>,
    ti: int,
    qi: int,
)
    requires
        0 <= ti,
        0 <= qi <= query.len(),
        text.len() <= 65_535,
    ensures
        scattered_spans(text, query, ti, qi) matches Some(spans) ==> {
            &&& spans.len() == query.len() - qi
            &&& forall|i: int|
                0 <= i < spans.len() ==> {
                    let span = #[trigger] spans[i];
                    &&& ti <= span.0 < text.len()
                    &&& span.1 == span.0 + 1
                    &&& text[span.0 as int] == query[qi + i]
                }
            &&& forall|i: int, j: int|
                0 <= i < j < spans.len() ==> (#[trigger] spans[i]).0 < (#[trigger] spans[j]).0
        },
    decreases text.len() - ti,
{
    if qi < query.len() && ti < text.len() {
        if text[ti] == query[qi] {
            scattered_spans_mark_positions(text, query, ti + 1, qi + 1);
            if let Some(rest) = scattered_spans(text, query, ti + 1, qi + 1) {
                let all = byte_span(ti) + rest;
                assert(scattered_spans(text, query, ti, qi) == Some(all));
                assert forall|i: int| 0 <= i < all.len() implies {
                    let span = #[trigger] all[i];
                    &&& ti <= span.0 < text.len()
                    &&& span.1 == span.0 + 1
                    &&& text[span.0 as int] == query[qi + i]
                } by {
                    if i > 0 {
                        assert(all[i] == rest[i - 1]);
                    }
                }
                assert forall|i: int, j: int| 0 <= i < j < all.len() implies (#[trigger] all[i]).0 < (
                #[trigger] all[j]).0 by {
                    assert(all[j] == rest[j - 1]);
                    if i > 0 {
                        assert(all[i] == rest[i - 1]);
                    }
                }
            }
        } else {
            scattered_spans_mark_positions(text, query, ti + 1, qi);
        }
    }
}

/// Highlighted spans mark the query: where the candidate holds it in one piece,
/// case aside, the first such piece; else, one byte each, its bytes in order.
pub proof fn spans_mark_the_query(candidate: Seq<u8>, query: Seq<u8>)
    requires
        0 < query.len(),
        candidate.len() <= 65_535,
    ensures
        ({
            let folded = lower_bytes(candidate);
            let spans = match_spans(candidate, query);
            match found_from(folded, query, 0) {
                Some(at) => spans.len() == 1 && spans[0].0 == at && spans[0].1 == at + query.len()
                    && folded.subrange(spans[0].0 as int, spans[0].1 as int) == query,
                None => {
                    &&& spans.len() == 0 || spans.len() == query.len()
                    &&& forall|i: int|
                        0 <= i < spans.len() ==> {
                            let span = #[trigger] spans[i];
                            &&& span.0 < candidate.len()
                            &&& span.1 == span.0 + 1
                            &&& lower_byte(candidate[span.0 as int]) == query[i]
                        }
                    &&& forall|i: int, j: int|
                        0 <= i < j < spans.len() ==> (#[trigger] spans[i]).0 < (
                        #[trigger] spans[j]).0
                },
            }
        }),
{
    let folded = lower_bytes(candidate);
    found_is_the_first(folded, query, 0);
    scattered_spans_mark_positions(folded, query, 0, 0);
}

} // verus!
