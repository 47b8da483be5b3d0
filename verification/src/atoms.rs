//! Atomic units of an edited text, kept in `im::Vector`.

use im::Vector;
use vstd::prelude::*;

use crate::strings::{boundary, utf8};

verus! {

/// One atomic unit in the visible text: the `start..end` marker range is
/// displayed, navigated, and deleted as a whole, and `payload` replaces it
/// in the submitted text. Ranges are maintained through every edit, so
/// text that merely looks like a marker is never treated as one.
#[derive(Clone, Debug)]
pub struct Atom {
    /// First byte of the marker.
    pub start: usize,
    /// Byte behind the marker.
    pub end: usize,
    /// What the marker stands for.
    pub payload: String,
}

/// An atomic unit, with its payload as characters.
pub struct AtomView {
    /// First byte of the marker.
    pub start: int,
    /// Byte behind the marker.
    pub end: int,
    /// What the marker stands for.
    pub payload: Seq<char>,
}

impl View for Atom {
    type V = AtomView;

    open spec fn view(&self) -> AtomView {
        AtomView { start: self.start as int, end: self.end as int, payload: self.payload@ }
    }
}

/// `im::Vector`, carried as an opaque value.
#[verifier::external_type_specification]
#[verifier::external_body]
#[verifier::reject_recursive_types(A)]
pub struct ExVector<A>(Vector<A>);

/// The atoms of a list, in the order they were added.
pub uninterp spec fn atom_views(list: Vector<Atom>) -> Seq<AtomView>;

/// `Vector::new`: an empty list.
#[verifier::external_body]
pub(crate) fn atoms_new() -> (list: Vector<Atom>)
    ensures
        atom_views(list) == Seq::<AtomView>::empty(),
{
    Vector::new()
}

/// `Vector::len`: the number of atoms.
#[verifier::external_body]
pub(crate) fn atoms_len(list: &Vector<Atom>) -> (count: usize)
    ensures
        count == atom_views(*list).len(),
{
    list.len()
}

/// `Vector::index`: the atom at a position inside the list.
#[verifier::external_body]
pub(crate) fn atoms_get(list: &Vector<Atom>, at: usize) -> (atom: &Atom)
    requires
        at < atom_views(*list).len(),
    ensures
        atom@ == atom_views(*list)[at as int],
{
    &list[at]
}

/// `Vector::push_back`: appends one atom.
#[verifier::external_body]
pub(crate) fn atoms_push(list: &mut Vector<Atom>, atom: Atom)
    ensures
        atom_views(*final(list)) == atom_views(*old(list)).push(atom@),
{
    list.push_back(atom);
}

/// `Vector::clone`: the copy holds the same atoms.
#[verifier::external_body]
pub(crate) fn atoms_clone(list: &Vector<Atom>) -> (copy: Vector<Atom>)
    ensures
        atom_views(copy) == atom_views(*list),
{
    list.clone()
}

/// Whether the atoms lie inside the text, cut at boundaries and apart.
pub open spec fn atoms_ok(bytes: Seq<u8>, atoms: Seq<AtomView>) -> bool {
    &&& forall|i: int|
        0 <= i < atoms.len() ==> {
            let atom = #[trigger] atoms[i];
            &&& 0 <= atom.start < atom.end <= bytes.len()
            &&& boundary(bytes, atom.start)
            &&& boundary(bytes, atom.end)
        }
    &&& forall|i: int, j: int|
        0 <= i < atoms.len() && 0 <= j < atoms.len() && i != j ==> apart(
            #[trigger] atoms[i],
            #[trigger] atoms[j],
        )
}

/// Whether two atoms share no byte.
pub open spec fn apart(a: AtomView, b: AtomView) -> bool {
    a.end <= b.start || b.end <= a.start
}

/// Whether an atom shares a byte with a range, or lies strictly around it.
pub open spec fn touched(atom: AtomView, start: int, end: int) -> bool {
    start < atom.end && end > atom.start
}

/// The range widened to the whole of every atom from `at` on that it touches.
pub open spec fn widened(atoms: Seq<AtomView>, at: int, start: int, end: int) -> (int, int)
    decreases atoms.len() - at,
{
    if at >= atoms.len() {
        (start, end)
    } else if touched(atoms[at], start, end) {
        widened(
            atoms,
            at + 1,
            if atoms[at].start < start {
                atoms[at].start
            } else {
                start
            },
            if atoms[at].end > end {
                atoms[at].end
            } else {
                end
            },
        )
    } else {
        widened(atoms, at + 1, start, end)
    }
}

/// The first atom from `at` on that holds byte `index`.
pub open spec fn holding(atoms: Seq<AtomView>, at: int, index: int) -> Option<AtomView>
    decreases atoms.len() - at,
{
    if at >= atoms.len() {
        None
    } else if atoms[at].start <= index < atoms[at].end {
        Some(atoms[at])
    } else {
        holding(atoms, at + 1, index)
    }
}

/// Whether an edit of a range leaves an atom whole.
pub open spec fn survives(atom: AtomView, start: int, end: int) -> bool {
    atom.end <= start || atom.start >= end
}

/// Where an atom stands after a range is replaced by `inserted` bytes.
pub open spec fn shifted(atom: AtomView, start: int, end: int, inserted: int) -> AtomView {
    if atom.start >= end {
        AtomView {
            start: atom.start - (end - start) + inserted,
            end: atom.end - (end - start) + inserted,
            payload: atom.payload,
        }
    } else {
        atom
    }
}

/// The atoms after a range is replaced by `inserted` bytes: those behind it
/// move, those it tears go.
pub open spec fn spliced_atoms(
    atoms: Seq<AtomView>,
    start: int,
    end: int,
    inserted: int,
) -> Seq<AtomView> {
    atoms.filter(|atom: AtomView| survives(atom, start, end)).map_values(
        |atom: AtomView| shifted(atom, start, end, inserted),
    )
}

/// The atoms inside a range, with offsets counted from its start.
pub open spec fn atoms_inside(atoms: Seq<AtomView>, start: int, end: int) -> Seq<AtomView> {
    atoms.filter(|atom: AtomView| atom.start >= start && atom.end <= end).map_values(
        |atom: AtomView| moved_by(atom, -start),
    )
}

/// An atom whose offsets count from elsewhere.
pub open spec fn moved_by(atom: AtomView, distance: int) -> AtomView {
    AtomView { start: atom.start + distance, end: atom.end + distance, payload: atom.payload }
}

/// Atoms whose offsets count from elsewhere.
pub open spec fn all_moved_by(atoms: Seq<AtomView>, distance: int) -> Seq<AtomView> {
    atoms.map_values(|atom: AtomView| moved_by(atom, distance))
}

/// Filtering one more element.
pub proof fn filter_grows<T>(items: Seq<T>, keep: spec_fn(T) -> bool, at: int)
    requires
        0 <= at < items.len(),
    ensures
        items.take(at + 1).filter(keep) == (if keep(items[at]) {
            items.take(at).filter(keep).push(items[at])
        } else {
            items.take(at).filter(keep)
        }),
{
    reveal(Seq::filter);
    assert(items.take(at + 1).drop_last() =~= items.take(at));
    assert(items.take(at + 1).last() == items[at]);
}

/// What holds of every element holds of those that a filter keeps.
pub proof fn filter_keeps<T>(items: Seq<T>, keep: spec_fn(T) -> bool, holds: spec_fn(T) -> bool)
    requires
        forall|i: int| 0 <= i < items.len() ==> holds(#[trigger] items[i]),
    ensures
        forall|i: int|
            0 <= i < items.filter(keep).len() ==> holds(#[trigger] items.filter(keep)[i]) && keep(
                items.filter(keep)[i],
            ),
    decreases items.len(),
{
    reveal(Seq::filter);
    if items.len() > 0 {
        let shorter = items.drop_last();
        assert forall|i: int| 0 <= i < shorter.len() implies holds(#[trigger] shorter[i]) by {
            assert(shorter[i] == items[i]);
        }
        filter_keeps(shorter, keep, holds);
        assert(holds(items[items.len() - 1]));
        let kept = shorter.filter(keep);
        let all = items.filter(keep);
        if keep(items.last()) {
            assert(all == kept.push(items.last()));
            assert forall|i: int| 0 <= i < all.len() implies holds(#[trigger] all[i]) && keep(
                all[i],
            ) by {
                if i < kept.len() {
                    assert(all[i] == kept[i]);
                }
            }
        } else {
            assert(all == kept);
        }
    }
}

/// The atoms that a filter keeps still lie inside the text and apart.
pub proof fn filtered_atoms_ok(
    bytes: Seq<u8>,
    atoms: Seq<AtomView>,
    keep: spec_fn(AtomView) -> bool,
)
    requires
        atoms_ok(bytes, atoms),
    ensures
        atoms_ok(bytes, atoms.filter(keep)),
        forall|i: int|
            0 <= i < atoms.filter(keep).len() ==> keep(#[trigger] atoms.filter(keep)[i]),
    decreases atoms.len(),
{
    reveal(Seq::filter);
    if atoms.len() > 0 {
        let shorter = atoms.drop_last();
        let last = atoms.last();
        assert(atoms_ok(bytes, shorter)) by {
            assert forall|i: int, j: int|
                0 <= i < shorter.len() && 0 <= j < shorter.len() && i != j implies apart(
                #[trigger] shorter[i],
                #[trigger] shorter[j],
            ) by {
                assert(apart(atoms[i], atoms[j]));
            }
            assert forall|i: int| 0 <= i < shorter.len() implies {
                let atom = #[trigger] shorter[i];
                &&& 0 <= atom.start < atom.end <= bytes.len()
                &&& boundary(bytes, atom.start)
                &&& boundary(bytes, atom.end)
            } by {
                assert(shorter[i] == atoms[i]);
            }
        }
        filtered_atoms_ok(bytes, shorter, keep);
        let away = |atom: AtomView| apart(atom, last);
        assert forall|i: int| 0 <= i < shorter.len() implies away(#[trigger] shorter[i]) by {
            assert(apart(atoms[i], atoms[atoms.len() - 1]));
        }
        filter_keeps(shorter, keep, away);
        let kept = shorter.filter(keep);
        let all = atoms.filter(keep);
        if keep(last) {
            assert(all == kept.push(last));
            assert(atoms[atoms.len() - 1] == last);
            assert forall|i: int, j: int|
                0 <= i < all.len() && 0 <= j < all.len() && i != j implies apart(
                #[trigger] all[i],
                #[trigger] all[j],
            ) by {
                if i < kept.len() && j < kept.len() {
                    assert(apart(kept[i], kept[j]));
                } else if i < kept.len() {
                    assert(away(kept[i]));
                } else {
                    assert(away(kept[j]));
                }
            }
        }
    }
}

/// A text whose bytes from `start` up to `end` were replaced.
pub open spec fn spliced_bytes(bytes: Seq<u8>, start: int, end: int, insert: Seq<u8>) -> Seq<u8> {
    bytes.subrange(0, start) + insert + bytes.subrange(end, bytes.len() as int)
}

/// Splicing keeps the boundaries outside the replaced range and adds its ends.
pub proof fn spliced_boundaries(
    text: Seq<char>,
    after: Seq<char>,
    insert: Seq<char>,
    start: int,
    end: int,
    at: int,
)
    requires
        0 <= start <= end <= utf8(text).len(),
        boundary(utf8(text), start),
        boundary(utf8(text), end),
        utf8(after) == spliced_bytes(utf8(text), start, end, utf8(insert)),
    ensures
        at <= start ==> (boundary(utf8(after), at) <==> boundary(utf8(text), at)),
        at >= end ==> (boundary(utf8(after), at - (end - start) + utf8(insert).len()) <==> boundary(
            utf8(text),
            at,
        )),
        0 <= at <= utf8(insert).len() ==> (boundary(utf8(after), start + at) <==> boundary(
            utf8(insert),
            at,
        )),
{
    let old_bytes = utf8(text);
    let new_bytes = utf8(after);
    let middle = utf8(insert);
    crate::strings::ends_are_boundaries(insert);
    let tail = start + middle.len();
    assert(new_bytes.len() == old_bytes.len() - (end - start) + middle.len());
    // The byte at the seam behind the insert starts a character or ends the text.
    assert(boundary(new_bytes, tail)) by {
        if tail < new_bytes.len() {
            assert(new_bytes[tail] == old_bytes[end]);
        }
    }
    assert(boundary(new_bytes, start)) by {
        if middle.len() > 0 {
            assert(new_bytes[start] == middle[0]);
        }
    }
    if at < start && 0 <= at {
        assert(new_bytes[at] == old_bytes[at]);
    }
    let there = at - (end - start) + middle.len();
    if end <= at < old_bytes.len() {
        assert(new_bytes[there] == old_bytes[at]);
    }
    if 0 <= at < middle.len() {
        assert(new_bytes[start + at] == middle[at]);
    }
}

/// Splicing keeps the atoms inside the text and apart.
pub proof fn splicing_keeps_atoms(
    text: Seq<char>,
    after: Seq<char>,
    insert: Seq<char>,
    start: int,
    end: int,
    atoms: Seq<AtomView>,
)
    requires
        0 <= start <= end <= utf8(text).len(),
        boundary(utf8(text), start),
        boundary(utf8(text), end),
        utf8(after) == spliced_bytes(utf8(text), start, end, utf8(insert)),
        atoms_ok(utf8(text), atoms),
    ensures
        atoms_ok(
            utf8(after),
            spliced_atoms(atoms, start, end, utf8(insert).len() as int),
        ),
        forall|i: int|
            0 <= i < spliced_atoms(atoms, start, end, utf8(insert).len() as int).len() ==> survives(
                #[trigger] spliced_atoms(atoms, start, end, utf8(insert).len() as int)[i],
                start,
                start + utf8(insert).len(),
            ),
{
    let inserted = utf8(insert).len() as int;
    let keep = |atom: AtomView| survives(atom, start, end);
    let kept = atoms.filter(keep);
    let moved = spliced_atoms(atoms, start, end, inserted);
    filtered_atoms_ok(utf8(text), atoms, keep);
    assert forall|i: int| 0 <= i < moved.len() implies {
        let atom = #[trigger] moved[i];
        &&& 0 <= atom.start < atom.end <= utf8(after).len()
        &&& boundary(utf8(after), atom.start)
        &&& boundary(utf8(after), atom.end)
        &&& survives(atom, start, start + inserted)
    } by {
        let atom = kept[i];
        assert(keep(atom));
        assert(moved[i] == shifted(atom, start, end, inserted));
        spliced_boundaries(text, after, insert, start, end, atom.start);
        spliced_boundaries(text, after, insert, start, end, atom.end);
    }
    assert forall|i: int, j: int|
        0 <= i < moved.len() && 0 <= j < moved.len() && i != j implies apart(
        #[trigger] moved[i],
        #[trigger] moved[j],
    ) by {
        assert(apart(kept[i], kept[j]));
        assert(keep(kept[i]) && keep(kept[j]));
        assert(kept[i].start < kept[i].end && kept[j].start < kept[j].end);
    }
}

impl Atom {
    /// The same atom, its offsets moved so that `from` becomes `to`.
    pub fn moved(&self, from: usize, to: usize) -> (atom: Atom)
        requires
            from <= self.start,
            from <= self.end,
            self.start - from + to <= usize::MAX,
            self.end - from + to <= usize::MAX,
        ensures
            atom@ == moved_by(self@, to - from),
    {
        Atom {
            start: self.start - from + to,
            end: self.end - from + to,
            payload: self.payload.clone(),
        }
    }

    /// The same atom.
    pub fn copy(&self) -> (atom: Atom)
        ensures
            atom@ == self@,
    {
        Atom { start: self.start, end: self.end, payload: self.payload.clone() }
    }
}

/// The range widened to the whole of every atom that it touches.
pub fn widen(atoms: &Vector<Atom>, from: usize, to: usize) -> (range: (usize, usize))
    ensures
        (range.0 as int, range.1 as int) == widened(atom_views(*atoms), 0, from as int, to as int),
{
    let ghost views = atom_views(*atoms);
    let mut start: usize = from;
    let mut end: usize = to;
    let count: usize = atoms_len(atoms);
    let mut at: usize = 0;
    while at < count
        invariant
            at <= count,
            views == atom_views(*atoms),
            count == atom_views(*atoms).len(),
            widened(views, 0, from as int, to as int) == widened(
                views,
                at as int,
                start as int,
                end as int,
            ),
        decreases count - at,
    {
        let atom: &Atom = atoms_get(atoms, at);
        assert(views[at as int] == atom@);
        if start < atom.end && end > atom.start {
            if atom.start < start {
                start = atom.start;
            }
            if atom.end > end {
                end = atom.end;
            }
        }
        at += 1;
    }
    (start, end)
}

/// The range of the first atom that holds byte `index`.
pub fn find_holding(atoms: &Vector<Atom>, index: usize) -> (range: Option<(usize, usize)>)
    ensures
        match range {
            Some((start, end)) => holding(atom_views(*atoms), 0, index as int) matches Some(atom)
                && atom.start == start && atom.end == end,
            None => holding(atom_views(*atoms), 0, index as int) is None,
        },
{
    let ghost views = atom_views(*atoms);
    let count: usize = atoms_len(atoms);
    let mut at: usize = 0;
    while at < count
        invariant
            at <= count,
            views == atom_views(*atoms),
            count == atom_views(*atoms).len(),
            holding(views, 0, index as int) == holding(views, at as int, index as int),
        decreases count - at,
    {
        let atom: &Atom = atoms_get(atoms, at);
        assert(views[at as int] == atom@);
        if atom.start <= index && index < atom.end {
            return Some((atom.start, atom.end));
        }
        at += 1;
    }
    None
}

/// The atom that holds a byte is one of the atoms.
pub proof fn holding_facts(atoms: Seq<AtomView>, at: int, index: int)
    requires
        0 <= at <= atoms.len(),
    ensures
        holding(atoms, at, index) matches Some(atom) ==> atom.start <= index < atom.end && exists|
            i: int,
        |
            at <= i < atoms.len() && #[trigger] atoms[i] == atom,
    decreases atoms.len() - at,
{
    if at < atoms.len() && !(atoms[at].start <= index < atoms[at].end) {
        holding_facts(atoms, at + 1, index);
    }
}

/// A widened range keeps its order, its boundaries and stays in the text.
pub proof fn widened_facts(
    bytes: Seq<u8>,
    atoms: Seq<AtomView>,
    at: int,
    start: int,
    end: int,
)
    requires
        atoms_ok(bytes, atoms),
        0 <= at <= atoms.len(),
        0 <= start <= end <= bytes.len(),
        boundary(bytes, start),
        boundary(bytes, end),
    ensures
        0 <= widened(atoms, at, start, end).0 <= start,
        end <= widened(atoms, at, start, end).1 <= bytes.len(),
        boundary(bytes, widened(atoms, at, start, end).0),
        boundary(bytes, widened(atoms, at, start, end).1),
    decreases atoms.len() - at,
{
    if at < atoms.len() {
        let atom = atoms[at];
        if touched(atom, start, end) {
            widened_facts(
                bytes,
                atoms,
                at + 1,
                if atom.start < start {
                    atom.start
                } else {
                    start
                },
                if atom.end > end {
                    atom.end
                } else {
                    end
                },
            );
        } else {
            widened_facts(bytes, atoms, at + 1, start, end);
        }
    }
}

/// The atoms after a range is replaced by `inserted` bytes.
pub fn splice_atoms(atoms: &Vector<Atom>, start: usize, end: usize, inserted: usize) -> (result:
    Vector<Atom>)
    requires
        start <= end,
        forall|i: int|
            0 <= i < atom_views(*atoms).len() ==> (#[trigger] atom_views(*atoms)[i]).start
                <= atom_views(*atoms)[i].end && atom_views(*atoms)[i].end - (end - start)
                + inserted <= usize::MAX,
    ensures
        atom_views(result) == spliced_atoms(
            atom_views(*atoms),
            start as int,
            end as int,
            inserted as int,
        ),
{
    let ghost views = atom_views(*atoms);
    let ghost keep = |atom: AtomView| survives(atom, start as int, end as int);
    let ghost shift = |atom: AtomView| shifted(atom, start as int, end as int, inserted as int);
    let mut result: Vector<Atom> = atoms_new();
    let count: usize = atoms_len(atoms);
    let mut at: usize = 0;
    assert(views.take(0).filter(keep) =~= Seq::<AtomView>::empty()) by {
        reveal(Seq::filter);
    }
    while at < count
        invariant
            at <= count,
            start <= end,
            views == atom_views(*atoms),
            count == atom_views(*atoms).len(),
            keep == |atom: AtomView| survives(atom, start as int, end as int),
            shift == |atom: AtomView| shifted(atom, start as int, end as int, inserted as int),
            forall|i: int|
                0 <= i < atom_views(*atoms).len() ==> (#[trigger] atom_views(*atoms)[i]).start
                    <= atom_views(*atoms)[i].end && atom_views(*atoms)[i].end - (end - start)
                    + inserted <= usize::MAX,
            atom_views(result) =~= views.take(at as int).filter(keep).map_values(shift),
        decreases count - at,
    {
        let atom: &Atom = atoms_get(atoms, at);
        assert(views[at as int] == atom@);
        proof {
            filter_grows(views, keep, at as int);
        }
        if atom.end <= start || atom.start >= end {
            let next: Atom = if atom.start >= end {
                atom.moved(end - start, inserted)
            } else {
                atom.copy()
            };
            let ghost earlier = atom_views(result);
            let ghost added = next@;
            atoms_push(&mut result, next);
            assert(atom_views(result) =~= earlier.push(added));
            assert(added == shift(views[at as int]));
        }
        at += 1;
    }
    assert(views.take(at as int) =~= views);
    result
}

/// The atoms inside a range, with offsets counted from its start.
pub fn cut_atoms(atoms: &Vector<Atom>, start: usize, end: usize) -> (result: Vector<Atom>)
    requires
        forall|i: int|
            0 <= i < atom_views(*atoms).len() ==> (#[trigger] atom_views(*atoms)[i]).start
                <= atom_views(*atoms)[i].end,
    ensures
        atom_views(result) == atoms_inside(atom_views(*atoms), start as int, end as int),
{
    let ghost views = atom_views(*atoms);
    let ghost keep = |atom: AtomView| atom.start >= start && atom.end <= end;
    let ghost shift = |atom: AtomView| moved_by(atom, -(start as int));
    let mut result: Vector<Atom> = atoms_new();
    let count: usize = atoms_len(atoms);
    let mut at: usize = 0;
    assert(views.take(0).filter(keep) =~= Seq::<AtomView>::empty()) by {
        reveal(Seq::filter);
    }
    while at < count
        invariant
            at <= count,
            views == atom_views(*atoms),
            count == atom_views(*atoms).len(),
            keep == |atom: AtomView| atom.start >= start && atom.end <= end,
            shift == |atom: AtomView| moved_by(atom, -(start as int)),
            forall|i: int|
                0 <= i < atom_views(*atoms).len() ==> (#[trigger] atom_views(*atoms)[i]).start
                    <= atom_views(*atoms)[i].end,
            atom_views(result) =~= views.take(at as int).filter(keep).map_values(shift),
        decreases count - at,
    {
        let atom: &Atom = atoms_get(atoms, at);
        assert(views[at as int] == atom@);
        proof {
            filter_grows(views, keep, at as int);
        }
        if atom.start >= start && atom.end <= end {
            let next: Atom = atom.moved(start, 0);
            let ghost earlier = atom_views(result);
            let ghost added = next@;
            atoms_push(&mut result, next);
            assert(atom_views(result) =~= earlier.push(added));
            assert(added == shift(views[at as int]));
        }
        at += 1;
    }
    assert(views.take(at as int) =~= views);
    result
}

/// Appends the atoms of `more`, moved by `distance`.
pub fn append_atoms(list: &mut Vector<Atom>, more: &Vector<Atom>, distance: usize)
    requires
        forall|i: int|
            0 <= i < atom_views(*more).len() ==> (#[trigger] atom_views(*more)[i]).start
                <= atom_views(*more)[i].end && atom_views(*more)[i].end + distance <= usize::MAX,
    ensures
        atom_views(*final(list)) == atom_views(*old(list)) + all_moved_by(
            atom_views(*more),
            distance as int,
        ),
{
    let ghost before = atom_views(*list);
    let ghost views = atom_views(*more);
    let count: usize = atoms_len(more);
    let mut at: usize = 0;
    assert(before + all_moved_by(views.take(0), distance as int) =~= before);
    while at < count
        invariant
            at <= count,
            views == atom_views(*more),
            count == atom_views(*more).len(),
            forall|i: int|
                0 <= i < atom_views(*more).len() ==> (#[trigger] atom_views(*more)[i]).start
                    <= atom_views(*more)[i].end && atom_views(*more)[i].end + distance
                    <= usize::MAX,
            atom_views(*list) =~= before + all_moved_by(views.take(at as int), distance as int),
        decreases count - at,
    {
        let atom: &Atom = atoms_get(more, at);
        assert(views[at as int] == atom@);
        let next: Atom = atom.moved(0, distance);
        let ghost earlier = atom_views(*list);
        let ghost added = next@;
        atoms_push(list, next);
        assert(atom_views(*list) =~= earlier.push(added));
        assert(all_moved_by(views.take(at + 1), distance as int) =~= all_moved_by(
            views.take(at as int),
            distance as int,
        ).push(added));
        at += 1;
    }
    assert(views.take(at as int) =~= views);
}

} // verus!
