//! A tiny anchored pattern matcher for validating fields.
//!
//! Supported syntax: literals, `.`, `[a-z0-9-]` classes (ranges + literals,
//! leading `^` negation), and the postfix quantifiers `*` `+` `?` on the
//! previous atom. This is not a regex engine; unsupported constructs match
//! literally.

use vstd::prelude::*;

use crate::strings::chars_of;

verus! {

/// What one place of a pattern takes.
pub enum Atom {
    /// One character.
    Literal(char),
    /// A character within one of the ranges, or outside all of them.
    Class(Vec<(char, char)>, bool),
    /// Any character.
    Any,
}

/// What one place of a pattern takes.
pub enum AtomView {
    /// One character.
    Literal(char),
    /// A character within one of the ranges, or outside all of them.
    Class(Seq<(char, char)>, bool),
    /// Any character.
    Any,
}

impl View for Atom {
    type V = AtomView;

    open spec fn view(&self) -> AtomView {
        match *self {
            Atom::Literal(c) => AtomView::Literal(c),
            Atom::Class(ranges, negated) => AtomView::Class(ranges@, negated),
            Atom::Any => AtomView::Any,
        }
    }
}

/// How often an atom stands in a row.
#[derive(Clone, Copy, Debug, PartialEq, Eq, Structural)]
pub enum Quantifier {
    /// Once.
    Once,
    /// Once or not at all.
    Optional,
    /// Any number of times.
    Star,
    /// At least once.
    Plus,
}

impl Quantifier {
    /// The least count.
    pub open spec fn least(self) -> int {
        match self {
            Quantifier::Once | Quantifier::Plus => 1,
            Quantifier::Optional | Quantifier::Star => 0,
        }
    }

    /// Whether a count is too many.
    pub open spec fn exceeded(self, count: int) -> bool {
        match self {
            Quantifier::Once | Quantifier::Optional => count > 1,
            Quantifier::Star | Quantifier::Plus => false,
        }
    }
}

/// One atom with its quantifier.
pub struct Place {
    /// What it takes.
    pub atom: Atom,
    /// How often.
    pub quantifier: Quantifier,
}

/// One atom with its quantifier.
pub struct PlaceView {
    /// What it takes.
    pub atom: AtomView,
    /// How often.
    pub quantifier: Quantifier,
}

impl View for Place {
    type V = PlaceView;

    open spec fn view(&self) -> PlaceView {
        PlaceView { atom: self.atom@, quantifier: self.quantifier }
    }
}

/// The views of places.
pub open spec fn place_views(places: Seq<Place>) -> Seq<PlaceView> {
    places.map_values(|place: Place| place@)
}

/// Whether a character lies within one of the ranges.
pub open spec fn within(ranges: Seq<(char, char)>, c: char) -> bool {
    exists|i: int| 0 <= i < ranges.len() && (#[trigger] ranges[i]).0 <= c && c <= ranges[i].1
}

/// Whether an atom takes a character.
pub open spec fn takes(atom: AtomView, c: char) -> bool {
    match atom {
        AtomView::Literal(own) => own == c,
        AtomView::Any => true,
        AtomView::Class(ranges, negated) => within(ranges, c) != negated,
    }
}

/// Whether the places from `at` on take the whole text from `from` on, where
/// the first of them has taken `taken` characters already: it may stop once it
/// has its least count, and go on while its quantifier allows.
pub open spec fn fits(
    places: Seq<PlaceView>,
    at: int,
    text: Seq<char>,
    from: int,
    taken: int,
) -> bool
    decreases places.len() - at, text.len() - from,
{
    if at < 0 || at >= places.len() {
        from == text.len()
    } else {
        let place = places[at];
        ||| taken >= place.quantifier.least() && fits(places, at + 1, text, from, 0)
        ||| !place.quantifier.exceeded(taken + 1) && 0 <= from < text.len() && takes(
            place.atom,
            text[from],
        ) && fits(places, at, text, from + 1, taken + 1)
    }
}

/// The ranges of a class from `at` on, behind those in `ranges`, and where the
/// class ends. A dash joins the character before it with the one behind it,
/// where both are there.
pub open spec fn class_from(
    pattern: Seq<char>,
    at: int,
    ranges: Seq<(char, char)>,
    previous: Option<char>,
) -> (Seq<(char, char)>, int)
    decreases pattern.len() - at,
{
    if at < 0 || at >= pattern.len() {
        (ranges, at)
    } else if pattern[at] == ']' {
        (ranges, at + 1)
    } else if pattern[at] == '-' {
        match previous {
            Some(low) if at + 1 < pattern.len() => class_from(
                pattern,
                at + 2,
                ranges.drop_last().push((low, pattern[at + 1])),
                None,
            ),
            _ => class_from(pattern, at + 1, ranges.push(('-', '-')), previous),
        }
    } else {
        class_from(
            pattern,
            at + 1,
            ranges.push((pattern[at], pattern[at])),
            Some(pattern[at]),
        )
    }
}

/// The atom at `at`, and where it ends.
pub open spec fn atom_at(pattern: Seq<char>, at: int) -> (AtomView, int) {
    let c = pattern[at];
    if c == '.' {
        (AtomView::Any, at + 1)
    } else if c == '[' {
        let negated = at + 1 < pattern.len() && pattern[at + 1] == '^';
        let (ranges, end) = class_from(
            pattern,
            if negated {
                at + 2
            } else {
                at + 1
            },
            Seq::empty(),
            None,
        );
        (AtomView::Class(ranges, negated), end)
    } else if c == '\\' {
        if at + 1 < pattern.len() {
            (AtomView::Literal(pattern[at + 1]), at + 2)
        } else {
            (AtomView::Literal('\\'), at + 1)
        }
    } else {
        (AtomView::Literal(c), at + 1)
    }
}

/// The quantifier at `at`, if one stands there.
pub open spec fn quantifier_at(pattern: Seq<char>, at: int) -> Option<Quantifier> {
    if at < 0 || at >= pattern.len() {
        None
    } else if pattern[at] == '*' {
        Some(Quantifier::Star)
    } else if pattern[at] == '+' {
        Some(Quantifier::Plus)
    } else if pattern[at] == '?' {
        Some(Quantifier::Optional)
    } else {
        None
    }
}

/// The places of a pattern from `at` on.
pub open spec fn places_from(pattern: Seq<char>, at: int) -> Seq<PlaceView>
    decreases pattern.len() - at,
{
    if at < 0 || at >= pattern.len() {
        Seq::empty()
    } else {
        let (atom, end) = atom_at(pattern, at);
        if end <= at || end > pattern.len() {
            Seq::empty()
        } else {
            match quantifier_at(pattern, end) {
                Some(quantifier) => seq![PlaceView { atom, quantifier }] + places_from(
                    pattern,
                    end + 1,
                ),
                None => seq![PlaceView { atom, quantifier: Quantifier::Once }] + places_from(
                    pattern,
                    end,
                ),
            }
        }
    }
}

/// Whether a pattern takes the whole of a text.
pub open spec fn matches_whole(pattern: Seq<char>, text: Seq<char>) -> bool {
    fits(places_from(pattern, 0), 0, text, 0, 0)
}

/// A class ends behind its start.
proof fn class_ends_later(
    pattern: Seq<char>,
    at: int,
    ranges: Seq<(char, char)>,
    previous: Option<char>,
)
    requires
        0 <= at <= pattern.len(),
    ensures
        at <= class_from(pattern, at, ranges, previous).1 <= pattern.len(),
    decreases pattern.len() - at,
{
    if at < pattern.len() && pattern[at] != ']' {
        if pattern[at] == '-' {
            match previous {
                Some(low) if at + 1 < pattern.len() => {
                    class_ends_later(
                        pattern,
                        at + 2,
                        ranges.drop_last().push((low, pattern[at + 1])),
                        None,
                    );
                },
                _ => {
                    class_ends_later(pattern, at + 1, ranges.push(('-', '-')), previous);
                },
            }
        } else {
            class_ends_later(
                pattern,
                at + 1,
                ranges.push((pattern[at], pattern[at])),
                Some(pattern[at]),
            );
        }
    }
}

/// Reads a class.
fn read_class(pattern: &Vec<char>, start: usize) -> (class: (Vec<(char, char)>, usize))
    requires
        start <= pattern@.len(),
    ensures
        (class.0@, class.1 as int) == class_from(pattern@, start as int, Seq::empty(), None),
        start <= class.1 <= pattern@.len(),
{
    proof {
        class_ends_later(pattern@, start as int, Seq::empty(), None);
    }
    let ghost goal = class_from(pattern@, start as int, Seq::empty(), None);
    let mut ranges: Vec<(char, char)> = Vec::new();
    let mut previous: Option<char> = None;
    let mut at: usize = start;
    loop
        invariant
            start <= at <= pattern@.len(),
            previous is Some ==> ranges@.len() > 0,
            goal == class_from(pattern@, start as int, Seq::empty(), None),
            goal == class_from(pattern@, at as int, ranges@, previous),
            start <= goal.1 <= pattern@.len(),
        decreases pattern.len() - at,
    {
        if at >= pattern.len() {
            return (ranges, at);
        }
        let c: char = pattern[at];
        if c == ']' {
            return (ranges, at + 1);
        }
        if c == '-' {
            match previous {
                Some(low) if at < pattern.len() - 1 => {
                    let high: char = pattern[at + 1];
                    ranges.pop();
                    ranges.push((low, high));
                    previous = None;
                    at += 2;
                },
                _ => {
                    ranges.push(('-', '-'));
                    at += 1;
                },
            }
        } else {
            ranges.push((c, c));
            previous = Some(c);
            at += 1;
        }
    }
}

/// Reads the atom at `at`.
fn read_atom(pattern: &Vec<char>, at: usize) -> (read: (Atom, usize))
    requires
        at < pattern@.len(),
    ensures
        (read.0@, read.1 as int) == atom_at(pattern@, at as int),
        at < read.1 <= pattern@.len(),
{
    let length: usize = pattern.len();
    let c: char = pattern[at];
    if c == '.' {
        (Atom::Any, at + 1)
    } else if c == '[' {
        let negated: bool = at < length - 1 && pattern[at + 1] == '^';
        let start: usize = if negated {
            at + 2
        } else {
            at + 1
        };
        let (ranges, end) = read_class(pattern, start);
        (Atom::Class(ranges, negated), end)
    } else if c == '\\' {
        if at < length - 1 {
            (Atom::Literal(pattern[at + 1]), at + 2)
        } else {
            (Atom::Literal('\\'), at + 1)
        }
    } else {
        (Atom::Literal(c), at + 1)
    }
}

/// Reads a pattern.
fn read_pattern(pattern: &Vec<char>) -> (places: Vec<Place>)
    ensures
        place_views(places@) == places_from(pattern@, 0),
{
    let ghost goal = places_from(pattern@, 0);
    let mut places: Vec<Place> = Vec::new();
    let mut at: usize = 0;
    assert(place_views(places@) + goal =~= goal);
    while at < pattern.len()
        invariant
            at <= pattern@.len(),
            place_views(places@) + places_from(pattern@, at as int) == goal,
        decreases pattern.len() - at,
    {
        let ghost earlier = place_views(places@);
        let ghost rest = places_from(pattern@, at as int);
        let (atom, end) = read_atom(pattern, at);
        let mut quantifier: Quantifier = Quantifier::Once;
        let mut next: usize = end;
        if end < pattern.len() {
            if pattern[end] == '*' {
                quantifier = Quantifier::Star;
                next = end + 1;
            } else if pattern[end] == '+' {
                quantifier = Quantifier::Plus;
                next = end + 1;
            } else if pattern[end] == '?' {
                quantifier = Quantifier::Optional;
                next = end + 1;
            }
        }
        let place = Place { atom, quantifier };
        let ghost added = place@;
        places.push(place);
        assert(place_views(places@) =~= earlier.push(added));
        assert(earlier.push(added) + places_from(pattern@, next as int) =~= earlier + rest);
        at = next;
    }
    assert(place_views(places@) =~= goal);
    places
}

/// Whether an atom takes a character.
fn atom_matches(atom: &Atom, c: char) -> (yes: bool)
    ensures
        yes == takes(atom@, c),
{
    match atom {
        Atom::Literal(own) => *own == c,
        Atom::Any => true,
        Atom::Class(ranges, negated) => {
            let mut inside: bool = false;
            let mut at: usize = 0;
            while at < ranges.len() && !inside
                invariant
                    at <= ranges@.len(),
                    inside ==> within(ranges@, c),
                    !inside ==> forall|i: int|
                        0 <= i < at ==> !((#[trigger] ranges@[i]).0 <= c && c <= ranges@[i].1),
                decreases
                        ranges.len() - at + (if inside {
                            0int
                        } else {
                            1
                        }),
            {
                if ranges[at].0 <= c && c <= ranges[at].1 {
                    assert(ranges@[at as int].0 <= c && c <= ranges@[at as int].1);
                    inside = true;
                } else {
                    at += 1;
                }
            }
            inside != *negated
        },
    }
}

/// Whether the places from `at` on take the whole text from `from` on, tried
/// with the least counts first.
fn matches_at(places: &Vec<Place>, text: &Vec<char>, at: usize, from: usize) -> (yes: bool)
    requires
        at <= places@.len(),
        from <= text@.len(),
    ensures
        yes == fits(place_views(places@), at as int, text@, from as int, 0),
    decreases places@.len() - at,
{
    let ghost views = place_views(places@);
    if at >= places.len() {
        return from == text.len();
    }
    let place: &Place = &places[at];
    assert(views[at as int] == place@);
    let least: usize = match place.quantifier {
        Quantifier::Once | Quantifier::Plus => 1,
        Quantifier::Optional | Quantifier::Star => 0,
    };
    let bounded: bool = match place.quantifier {
        Quantifier::Once | Quantifier::Optional => true,
        Quantifier::Star | Quantifier::Plus => false,
    };
    let length: usize = text.len();
    let mut count: usize = 0;
    loop
        invariant
            length == text@.len(),
            at < places@.len() <= usize::MAX,
            views == place_views(places@),
            views[at as int] == place@,
            from + count <= length,
            least == place@.quantifier.least(),
            bounded == place@.quantifier.exceeded(2),
            bounded ==> count <= 1,
            fits(views, at as int, text@, from as int, 0) == fits(
                views,
                at as int,
                text@,
                from + count,
                count as int,
            ),
        decreases length - from - count,
    {
        let next: usize = at + 1;
        if count >= least && matches_at(places, text, next, from + count) {
            return true;
        }
        if bounded && count == 1 || count == length - from || !atom_matches(
            &place.atom,
            text[from + count],
        ) {
            return false;
        }
        count += 1;
    }
}

/// Whether `pattern` matches the whole of `text`.
pub fn match_simple(pattern: &str, text: &str) -> (yes: bool)
    ensures
        yes == matches_whole(pattern@, text@),
{
    let pattern_chars: Vec<char> = chars_of(pattern);
    let places: Vec<Place> = read_pattern(&pattern_chars);
    let chars: Vec<char> = chars_of(text);
    matches_at(&places, &chars, 0, 0)
}

/// Whether a character stands for itself in a pattern.
pub open spec fn stands_for_itself(c: char) -> bool {
    c != '.' && c != '[' && c != '\\' && c != '*' && c != '+' && c != '?'
}

/// Places of plain characters from `at` on match only those characters.
proof fn plain_places_match_themselves(
    pattern: Seq<char>,
    at: int,
    text: Seq<char>,
    places: Seq<PlaceView>,
)
    requires
        0 <= at <= pattern.len(),
        at <= text.len(),
        places.len() == pattern.len(),
        forall|i: int|
            0 <= i < places.len() ==> (#[trigger] places[i]) == (PlaceView {
                atom: AtomView::Literal(pattern[i]),
                quantifier: Quantifier::Once,
            }),
    ensures
        fits(places, at, text, at, 0) <==> pattern.skip(at) == text.skip(at),
    decreases pattern.len() - at,
{
    if at == pattern.len() {
        if text.len() == at {
            assert(pattern.skip(at) =~= text.skip(at));
        } else {
            assert(pattern.skip(at).len() != text.skip(at).len());
        }
    } else {
        let place = places[at];
        if at < text.len() {
            plain_places_match_themselves(pattern, at + 1, text, places);
            assert(pattern.skip(at) =~= seq![pattern[at]] + pattern.skip(at + 1));
            assert(text.skip(at) =~= seq![text[at]] + text.skip(at + 1));
            reveal_with_fuel(fits, 3);
            if pattern.skip(at) == text.skip(at) {
                assert(pattern.skip(at)[0] == text.skip(at)[0]);
                assert(pattern.skip(at + 1) =~= pattern.skip(at).skip(1));
                assert(text.skip(at + 1) =~= text.skip(at).skip(1));
            }
        } else {
            assert(pattern.skip(at).len() != text.skip(at).len());
        }
    }
}

/// A pattern of plain characters reads as those characters.
proof fn plain_patterns_read_plain(pattern: Seq<char>, at: int)
    requires
        forall|i: int| 0 <= i < pattern.len() ==> stands_for_itself(#[trigger] pattern[i]),
        0 <= at <= pattern.len(),
    ensures
        places_from(pattern, at).len() == pattern.len() - at,
        forall|i: int|
            0 <= i < pattern.len() - at ==> (#[trigger] places_from(pattern, at)[i]) == (PlaceView {
                atom: AtomView::Literal(pattern[at + i]),
                quantifier: Quantifier::Once,
            }),
    decreases pattern.len() - at,
{
    if at < pattern.len() {
        plain_patterns_read_plain(pattern, at + 1);
        assert(stands_for_itself(pattern[at]));
        if at + 1 < pattern.len() {
            assert(stands_for_itself(pattern[at + 1]));
        }
        let first = PlaceView {
            atom: AtomView::Literal(pattern[at]),
            quantifier: Quantifier::Once,
        };
        assert(atom_at(pattern, at) == (AtomView::Literal(pattern[at]), at + 1));
        assert(quantifier_at(pattern, at + 1) is None);
        assert(places_from(pattern, at) == seq![first] + places_from(pattern, at + 1));
        assert forall|i: int| 0 <= i < pattern.len() - at implies (#[trigger] places_from(
            pattern,
            at,
        )[i]) == (PlaceView {
            atom: AtomView::Literal(pattern[at + i]),
            quantifier: Quantifier::Once,
        }) by {
            if i > 0 {
                assert(places_from(pattern, at + 1)[i - 1] == (PlaceView {
                    atom: AtomView::Literal(pattern[at + 1 + (i - 1)]),
                    quantifier: Quantifier::Once,
                }));
            }
        }
    }
}

/// A pattern without special characters matches itself and nothing else: the
/// match is anchored at both ends.
pub proof fn plain_patterns_match_only_themselves(pattern: Seq<char>, text: Seq<char>)
    requires
        forall|i: int| 0 <= i < pattern.len() ==> stands_for_itself(#[trigger] pattern[i]),
    ensures
        matches_whole(pattern, text) <==> pattern == text,
{
    plain_patterns_read_plain(pattern, 0);
    plain_places_match_themselves(pattern, 0, text, places_from(pattern, 0));
    assert(pattern.skip(0) =~= pattern);
    assert(text.skip(0) =~= text);
}

/// Whether a place may take `count` characters.
pub open spec fn may_take(quantifier: Quantifier, count: int) -> bool {
    match quantifier {
        Quantifier::Once => count == 1,
        Quantifier::Optional => count == 0 || count == 1,
        Quantifier::Star => count >= 0,
        Quantifier::Plus => count >= 1,
    }
}

/// Whether `cuts` divide the text from `from` on among the places from `at` on,
/// where the first of them has taken `taken` characters already.
pub open spec fn divides(
    places: Seq<PlaceView>,
    at: int,
    text: Seq<char>,
    from: int,
    taken: int,
    cuts: Seq<int>,
) -> bool {
    &&& cuts.len() == places.len() - at + 1
    &&& cuts[0] == from
    &&& cuts.last() == text.len()
    &&& forall|i: int, j: int|
        0 <= i && j == i + 1 && j < cuts.len() ==> {
            &&& #[trigger] cuts[i] <= #[trigger] cuts[j]
            &&& may_take(
                places[at + i].quantifier,
                cuts[j] - cuts[i] + (if i == 0 {
                    taken
                } else {
                    0
                }),
            )
        }
    &&& forall|i: int, j: int, k: int|
        #![trigger cuts[i], cuts[j], text[k]]
        0 <= i && j == i + 1 && j < cuts.len() && cuts[i] <= k < cuts[j] ==> takes(
            places[at + i].atom,
            text[k],
        )
}

proof fn fitting_texts_divide(
    places: Seq<PlaceView>,
    at: int,
    text: Seq<char>,
    from: int,
    taken: int,
) -> (cuts: Seq<int>)
    requires
        0 <= at <= places.len(),
        0 <= from <= text.len(),
        0 <= taken,
        at < places.len() ==> !places[at].quantifier.exceeded(taken),
        fits(places, at, text, from, taken),
    ensures
        divides(places, at, text, from, taken, cuts),
    decreases places.len() - at, text.len() - from,
{
    if at >= places.len() {
        seq![from]
    } else {
        let place = places[at];
        if taken >= place.quantifier.least() && fits(places, at + 1, text, from, 0) {
            let rest = fitting_texts_divide(places, at + 1, text, from, 0);
            let cuts = seq![from] + rest;
            assert forall|i: int, j: int| 0 <= i && j == i + 1 && j < cuts.len() implies {
                &&& #[trigger] cuts[i] <= #[trigger] cuts[j]
                &&& may_take(
                    places[at + i].quantifier,
                    cuts[j] - cuts[i] + (if i == 0 {
                        taken
                    } else {
                        0
                    }),
                )
            } by {
                assert(cuts[j] == rest[j - 1]);
                if i > 0 {
                    assert(cuts[i] == rest[i - 1]);
                }
            }
            assert forall|i: int, j: int, k: int|
                #![trigger cuts[i], cuts[j], text[k]]
                0 <= i && j == i + 1 && j < cuts.len() && cuts[i] <= k < cuts[j] implies takes(
                places[at + i].atom,
                text[k],
            ) by {
                assert(cuts[j] == rest[j - 1]);
                if i > 0 {
                    assert(cuts[i] == rest[i - 1]);
                }
            }
            cuts
        } else {
            let rest = fitting_texts_divide(places, at, text, from + 1, taken + 1);
            let cuts = rest.update(0, from);
            assert(rest[0] <= rest[1]);
            assert forall|i: int, j: int| 0 <= i && j == i + 1 && j < cuts.len() implies {
                &&& #[trigger] cuts[i] <= #[trigger] cuts[j]
                &&& may_take(
                    places[at + i].quantifier,
                    cuts[j] - cuts[i] + (if i == 0 {
                        taken
                    } else {
                        0
                    }),
                )
            } by {
                assert(cuts[j] == rest[j]);
                assert(rest[i] <= rest[j]);
            }
            assert forall|i: int, j: int, k: int|
                #![trigger cuts[i], cuts[j], text[k]]
                0 <= i && j == i + 1 && j < cuts.len() && cuts[i] <= k < cuts[j] implies takes(
                places[at + i].atom,
                text[k],
            ) by {
                assert(cuts[j] == rest[j]);
                if i > 0 || k > from {
                    assert(rest[i] <= k);
                }
            }
            cuts
        }
    }
}

proof fn divided_texts_fit(
    places: Seq<PlaceView>,
    at: int,
    text: Seq<char>,
    from: int,
    taken: int,
    cuts: Seq<int>,
)
    requires
        0 <= at <= places.len(),
        0 <= from <= text.len(),
        0 <= taken,
        divides(places, at, text, from, taken, cuts),
    ensures
        fits(places, at, text, from, taken),
    decreases places.len() - at, text.len() - from,
{
    if at < places.len() {
        let place = places[at];
        cuts_rise(places, at, text, from, taken, cuts, 1);
        if cuts[1] == cuts[0] {
            let rest = cuts.skip(1);
            assert(rest.last() == cuts.last());
            assert(may_take(place.quantifier, taken));
            assert forall|i: int, j: int| 0 <= i && j == i + 1 && j < rest.len() implies {
                &&& #[trigger] rest[i] <= #[trigger] rest[j]
                &&& may_take(places[at + 1 + i].quantifier, rest[j] - rest[i])
            } by {
                assert(cuts[i + 1] <= cuts[j + 1]);
            }
            assert forall|i: int, j: int, k: int|
                #![trigger rest[i], rest[j], text[k]]
                0 <= i && j == i + 1 && j < rest.len() && rest[i] <= k < rest[j] implies takes(
                places[at + 1 + i].atom,
                text[k],
            ) by {
                assert(cuts[i + 1] <= k < cuts[j + 1]);
            }
            divided_texts_fit(places, at + 1, text, from, 0, rest);
        } else {
            let rest = cuts.update(0, from + 1);
            assert(cuts[0] <= from < cuts[1]);
            assert(takes(place.atom, text[from]));
            assert forall|i: int, j: int| 0 <= i && j == i + 1 && j < rest.len() implies {
                &&& #[trigger] rest[i] <= #[trigger] rest[j]
                &&& may_take(
                    places[at + i].quantifier,
                    rest[j] - rest[i] + (if i == 0 {
                        taken + 1
                    } else {
                        0
                    }),
                )
            } by {
                assert(cuts[i] <= cuts[j]);
            }
            assert forall|i: int, j: int, k: int|
                #![trigger rest[i], rest[j], text[k]]
                0 <= i && j == i + 1 && j < rest.len() && rest[i] <= k < rest[j] implies takes(
                places[at + i].atom,
                text[k],
            ) by {
                assert(cuts[i] <= k < cuts[j]);
            }
            divided_texts_fit(places, at, text, from + 1, taken + 1, rest);
        }
    }
}

proof fn cuts_rise(
    places: Seq<PlaceView>,
    at: int,
    text: Seq<char>,
    from: int,
    taken: int,
    cuts: Seq<int>,
    i: int,
)
    requires
        divides(places, at, text, from, taken, cuts),
        0 <= i < cuts.len(),
    ensures
        from <= cuts[i] <= text.len(),
    decreases cuts.len() - i,
{
    cuts_rise_up(places, at, text, from, taken, cuts, i);
    if i + 1 < cuts.len() {
        cuts_rise(places, at, text, from, taken, cuts, i + 1);
        assert(cuts[i] <= cuts[i + 1]);
    }
}

proof fn cuts_rise_up(
    places: Seq<PlaceView>,
    at: int,
    text: Seq<char>,
    from: int,
    taken: int,
    cuts: Seq<int>,
    i: int,
)
    requires
        divides(places, at, text, from, taken, cuts),
        0 <= i < cuts.len(),
    ensures
        from <= cuts[i],
    decreases i,
{
    if i > 0 {
        cuts_rise_up(places, at, text, from, taken, cuts, i - 1);
        assert(cuts[i - 1] <= cuts[i]);
    }
}

/// A pattern matches a text if and only if the text can be cut into one piece
/// for each place, in order, so that every place takes all characters of its
/// piece and may take as many: exactly one, at most one, any number or at least
/// one.
pub proof fn matches_divide_the_text(pattern: Seq<char>, text: Seq<char>)
    ensures
        matches_whole(pattern, text) <==> exists|cuts: Seq<int>| #[trigger]
            divides(places_from(pattern, 0), 0, text, 0, 0, cuts),
{
    let places = places_from(pattern, 0);
    if matches_whole(pattern, text) {
        let cuts = fitting_texts_divide(places, 0, text, 0, 0);
        assert(divides(places, 0, text, 0, 0, cuts));
    }
    if exists|cuts: Seq<int>| #[trigger] divides(places, 0, text, 0, 0, cuts) {
        let cuts = choose|cuts: Seq<int>| #[trigger] divides(places, 0, text, 0, 0, cuts);
        divided_texts_fit(places, 0, text, 0, 0, cuts);
    }
}

proof fn plain_classes_read_plain(
    pattern: Seq<char>,
    at: int,
    end: int,
    ranges: Seq<(char, char)>,
    previous: Option<char>,
)
    requires
        0 <= at <= end < pattern.len(),
        pattern[end] == ']',
        forall|k: int| at <= k < end ==> #[trigger] pattern[k] != ']' && pattern[k] != '-',
    ensures
        class_from(pattern, at, ranges, previous).1 == end + 1,
        class_from(pattern, at, ranges, previous).0 == ranges + Seq::new(
            (end - at) as nat,
            |i: int| (pattern[at + i], pattern[at + i]),
        ),
    decreases end - at,
{
    let tail = Seq::new((end - at) as nat, |i: int| (pattern[at + i], pattern[at + i]));
    if at < end {
        let first = (pattern[at], pattern[at]);
        plain_classes_read_plain(pattern, at + 1, end, ranges.push(first), Some(pattern[at]));
        let rest = Seq::new(
            (end - at - 1) as nat,
            |i: int| (pattern[at + 1 + i], pattern[at + 1 + i]),
        );
        assert(ranges.push(first) + rest =~= ranges + tail);
    } else {
        assert(ranges + tail =~= ranges);
    }
}

/// A class of plain characters takes exactly these; with a caret in front,
/// exactly all others.
pub proof fn plain_classes_take_their_characters(pattern: Seq<char>, at: int, end: int, c: char)
    requires
        0 <= at,
        at + 1 < end < pattern.len(),
        pattern[at] == '[',
        pattern[end] == ']',
        forall|k: int|
            at + (if pattern[at + 1] == '^' {
                2int
            } else {
                1
            }) <= k < end ==> #[trigger] pattern[k] != ']' && pattern[k] != '-',
    ensures
        ({
            let negated = pattern[at + 1] == '^';
            let first = if negated {
                at + 2
            } else {
                at + 1
            };
            let held = exists|k: int| first <= k < end && #[trigger] pattern[k] == c;
            &&& atom_at(pattern, at).1 == end + 1
            &&& takes(atom_at(pattern, at).0, c) <==> held != negated
        }),
{
    let negated = pattern[at + 1] == '^';
    let first = if negated {
        at + 2
    } else {
        at + 1
    };
    plain_classes_read_plain(pattern, first, end, Seq::empty(), None);
    let ranges = class_from(pattern, first, Seq::empty(), None).0;
    assert(ranges =~= Seq::new(
        (end - first) as nat,
        |i: int| (pattern[first + i], pattern[first + i]),
    ));
    if exists|k: int| first <= k < end && #[trigger] pattern[k] == c {
        let k = choose|k: int| first <= k < end && #[trigger] pattern[k] == c;
        assert(ranges[k - first].0 <= c && c <= ranges[k - first].1);
    }
    if within(ranges, c) {
        let i = choose|i: int|
            0 <= i < ranges.len() && (#[trigger] ranges[i]).0 <= c && c <= ranges[i].1;
        assert(pattern[first + i] == c);
    }
}

/// A class of one range takes the characters from its low to its high end.
pub proof fn ranges_take_what_lies_between(pattern: Seq<char>, at: int, c: char)
    requires
        0 <= at,
        at + 4 < pattern.len(),
        pattern[at] == '[',
        pattern[at + 1] != '^' && pattern[at + 1] != ']' && pattern[at + 1] != '-',
        pattern[at + 2] == '-',
        pattern[at + 4] == ']',
    ensures
        atom_at(pattern, at).1 == at + 5,
        takes(atom_at(pattern, at).0, c) <==> pattern[at + 1] <= c && c <= pattern[at + 3],
{
    reveal_with_fuel(class_from, 4);
    let low = pattern[at + 1];
    let high = pattern[at + 3];
    let one = Seq::<(char, char)>::empty().push((low, low));
    let joined = one.drop_last().push((low, high));
    assert(class_from(pattern, at + 1, Seq::empty(), None) == (joined, at + 5));
    assert(joined.len() == 1 && joined[0] == (low, high));
    if low <= c && c <= high {
        assert(joined[0].0 <= c && c <= joined[0].1);
    }
}

/// A lone place takes a text of characters it takes, where it may take as many.
proof fn lone_places_take_runs(place: PlaceView, text: Seq<char>, from: int, taken: int)
    requires
        0 <= from <= text.len(),
        0 <= taken,
    ensures
        fits(seq![place], 0, text, from, taken) <==> (forall|k: int|
            from <= k < text.len() ==> takes(place.atom, #[trigger] text[k])) && taken + text.len()
            - from >= place.quantifier.least() && (from == text.len()
            || !place.quantifier.exceeded(taken + text.len() - from)),
    decreases text.len() - from,
{
    let places = seq![place];
    assert(places[0] == place);
    assert(fits(places, 1, text, from, 0) == (from == text.len()));
    if from < text.len() {
        lone_places_take_runs(place, text, from + 1, taken + 1);
        if (forall|k: int| from + 1 <= k < text.len() ==> takes(place.atom, #[trigger] text[k]))
            && takes(place.atom, text[from]) {
            assert forall|k: int| from <= k < text.len() implies takes(
                place.atom,
                #[trigger] text[k],
            ) by {
                if k > from {
                    assert(takes(place.atom, text[k]));
                }
            }
        }
    }
}

/// The places of a pattern of one character with or without a mark.
proof fn short_patterns_have_one_place(c: char, marked: char)
    requires
        c != '[' && c != '\\',
    ensures
        ({
            let atom = if c == '.' {
                AtomView::Any
            } else {
                AtomView::Literal(c)
            };
            let once = PlaceView { atom, quantifier: Quantifier::Once };
            &&& places_from(seq![c], 0) == seq![once]
            &&& marked == '*' ==> places_from(seq![c, marked], 0) == seq![
                PlaceView { quantifier: Quantifier::Star, ..once },
            ]
            &&& marked == '+' ==> places_from(seq![c, marked], 0) == seq![
                PlaceView { quantifier: Quantifier::Plus, ..once },
            ]
            &&& marked == '?' ==> places_from(seq![c, marked], 0) == seq![
                PlaceView { quantifier: Quantifier::Optional, ..once },
            ]
        }),
{
    reveal_with_fuel(places_from, 3);
    let atom = atom_at(seq![c], 0).0;
    assert(places_from(seq![c], 1) =~= Seq::empty());
    assert(places_from(seq![c, marked], 2) =~= Seq::empty());
    assert(seq![PlaceView { atom, quantifier: Quantifier::Once }] + Seq::empty() =~= seq![
        PlaceView { atom, quantifier: Quantifier::Once },
    ]);
    assert(places_from(seq![c], 0) =~= seq![PlaceView { atom, quantifier: Quantifier::Once }]);
    let mark = quantifier_at(seq![c, marked], 1);
    if mark is Some {
        assert(places_from(seq![c, marked], 0) =~= seq![PlaceView { atom, quantifier: mark->0 }]);
    }
}

/// A character matches itself alone; with a star any run of itself, even of
/// none, with a plus any run of one at least, and with a question mark itself or
/// nothing. A dot stands for any character.
pub proof fn marks_tell_how_often(c: char, text: Seq<char>)
    requires
        c != '[' && c != '\\',
    ensures
        ({
            let run = forall|k: int|
                0 <= k < text.len() ==> c == '.' || #[trigger] text[k] == c;
            &&& matches_whole(seq![c], text) <==> run && text.len() == 1
            &&& matches_whole(seq![c, '*'], text) <==> run
            &&& matches_whole(seq![c, '+'], text) <==> run && text.len() >= 1
            &&& matches_whole(seq![c, '?'], text) <==> run && text.len() <= 1
        }),
{
    let atom = if c == '.' {
        AtomView::Any
    } else {
        AtomView::Literal(c)
    };
    short_patterns_have_one_place(c, '*');
    short_patterns_have_one_place(c, '+');
    short_patterns_have_one_place(c, '?');
    lone_places_take_runs(PlaceView { atom, quantifier: Quantifier::Once }, text, 0, 0);
    lone_places_take_runs(PlaceView { atom, quantifier: Quantifier::Star }, text, 0, 0);
    lone_places_take_runs(PlaceView { atom, quantifier: Quantifier::Plus }, text, 0, 0);
    lone_places_take_runs(PlaceView { atom, quantifier: Quantifier::Optional }, text, 0, 0);
    let run = forall|k: int| 0 <= k < text.len() ==> c == '.' || #[trigger] text[k] == c;
    let taken = forall|k: int| 0 <= k < text.len() ==> takes(atom, #[trigger] text[k]);
    if run {
        assert forall|k: int| 0 <= k < text.len() implies takes(atom, #[trigger] text[k]) by {
            assert(c == '.' || text[k] == c);
        }
    }
    if taken {
        assert forall|k: int| 0 <= k < text.len() implies c == '.' || #[trigger] text[k] == c by {
            assert(takes(atom, text[k]));
        }
    }
}

} // verus!
