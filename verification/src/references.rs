//! Atomic references in an edited text: shown as a marker, submitted as their
//! payload.

use im::Vector;
use vstd::prelude::*;
use vstd::string::*;

use crate::atoms::{
    apart, atom_views, atoms_get, atoms_len, atoms_new, atoms_ok, atoms_push, survives,
    Atom, AtomView,
};
use crate::buffer::{Action, BufferOutcome, BufferView, EditBuffer};
use crate::ranges::{listed, ranges_new, ranges_push, RangeList};
use crate::strings::{boundary, byte_len, ends_are_boundaries, slice_text, utf8, utf8_of_concat};

verus! {

/// The first atom from `index` on that starts at byte `at`.
pub open spec fn starting(atoms: Seq<AtomView>, index: int, at: int) -> Option<AtomView>
    decreases atoms.len() - index,
{
    if index >= atoms.len() {
        None
    } else if atoms[index].start == at {
        Some(atoms[index])
    } else {
        starting(atoms, index + 1, at)
    }
}

/// The bytes from `at` on with every atom replaced by its payload.
pub open spec fn expanded(bytes: Seq<u8>, atoms: Seq<AtomView>, at: int) -> Seq<u8>
    decreases bytes.len() - at,
{
    if at >= bytes.len() {
        Seq::empty()
    } else {
        match starting(atoms, 0, at) {
            Some(atom) => if at < atom.end <= bytes.len() {
                utf8(atom.payload) + expanded(bytes, atoms, atom.end)
            } else {
                Seq::empty()
            },
            None => seq![bytes[at]] + expanded(bytes, atoms, at + 1),
        }
    }
}

/// The only atom that starts at a byte is the one found there.
proof fn starting_finds(atoms: Seq<AtomView>, index: int, at: int, k: int)
    requires
        0 <= index <= k < atoms.len(),
        atoms[k].start == at,
        forall|i: int| index <= i < atoms.len() && i != k ==> (#[trigger] atoms[i]).start != at,
    ensures
        starting(atoms, index, at) == Some(atoms[k]),
    decreases atoms.len() - index,
{
    if index != k {
        assert(atoms[index].start != at);
        starting_finds(atoms, index + 1, at, k);
    }
}

/// Where no atom starts, none is found.
proof fn starting_finds_none(atoms: Seq<AtomView>, index: int, at: int)
    requires
        0 <= index <= atoms.len(),
        forall|i: int| index <= i < atoms.len() ==> (#[trigger] atoms[i]).start != at,
    ensures
        starting(atoms, index, at) is None,
    decreases atoms.len() - index,
{
    if index < atoms.len() {
        assert(atoms[index].start != at);
        starting_finds_none(atoms, index + 1, at);
    }
}

/// Bytes among which no atom starts stay as they are.
proof fn plain_bytes_stay(bytes: Seq<u8>, atoms: Seq<AtomView>, at: int, to: int)
    requires
        0 <= at <= to <= bytes.len(),
        forall|i: int|
            0 <= i < atoms.len() ==> !(at <= (#[trigger] atoms[i]).start && atoms[i].start < to),
    ensures
        expanded(bytes, atoms, at) == bytes.subrange(at, to) + expanded(bytes, atoms, to),
    decreases to - at,
{
    if at == to {
        assert(bytes.subrange(at, to) + expanded(bytes, atoms, to) =~= expanded(bytes, atoms, at));
    } else {
        assert forall|i: int| 0 <= i < atoms.len() implies (#[trigger] atoms[i]).start != at by {}
        starting_finds_none(atoms, 0, at);
        plain_bytes_stay(bytes, atoms, at + 1, to);
        assert(seq![bytes[at]] + bytes.subrange(at + 1, to) =~= bytes.subrange(at, to));
        assert(seq![bytes[at]] + (bytes.subrange(at + 1, to) + expanded(bytes, atoms, to)) =~= (
        seq![bytes[at]] + bytes.subrange(at + 1, to)) + expanded(bytes, atoms, to));
    }
}

/// The position of the atom that starts first at or behind `at`.
pub fn next_atom(atoms: &Vector<Atom>, at: usize) -> (found: Option<usize>)
    ensures
        match found {
            Some(k) => {
                &&& k < atom_views(*atoms).len()
                &&& at <= atom_views(*atoms)[k as int].start
                &&& forall|i: int|
                    0 <= i < atom_views(*atoms).len() ==> (#[trigger] atom_views(*atoms)[i]).start
                        < at || atom_views(*atoms)[k as int].start <= atom_views(*atoms)[i].start
            },
            None => forall|i: int|
                0 <= i < atom_views(*atoms).len() ==> (#[trigger] atom_views(*atoms)[i]).start < at,
        },
{
    let ghost views = atom_views(*atoms);
    let count: usize = atoms_len(atoms);
    let mut found: Option<usize> = None;
    let mut index: usize = 0;
    while index < count
        invariant
            index <= count,
            views == atom_views(*atoms),
            count == atom_views(*atoms).len(),
            match found {
                Some(k) => {
                    &&& k < index
                    &&& at <= views[k as int].start
                    &&& forall|i: int|
                        0 <= i < index ==> (#[trigger] views[i]).start < at || views[k as int].start
                            <= views[i].start
                },
                None => forall|i: int| 0 <= i < index ==> (#[trigger] views[i]).start < at,
            },
        decreases count - index,
    {
        let start: usize = atoms_get(atoms, index).start;
        assert(views[index as int].start == start);
        if start >= at {
            let nearer: bool = match found {
                Some(k) => {
                    assert(views[k as int].start == atom_views(*atoms)[k as int].start);
                    start < atoms_get(atoms, k).start
                },
                None => true,
            };
            if nearer {
                found = Some(index);
            }
        }
        index += 1;
    }
    found
}

/// An atom over bytes that no other atom touches keeps the atoms apart.
pub proof fn pushed_atom_ok(bytes: Seq<u8>, atoms: Seq<AtomView>, atom: AtomView)
    requires
        atoms_ok(bytes, atoms),
        0 <= atom.start < atom.end <= bytes.len(),
        boundary(bytes, atom.start),
        boundary(bytes, atom.end),
        forall|i: int|
            0 <= i < atoms.len() ==> survives(#[trigger] atoms[i], atom.start, atom.end),
    ensures
        atoms_ok(bytes, atoms.push(atom)),
{
    let all = atoms.push(atom);
    assert forall|i: int, j: int|
        0 <= i < all.len() && 0 <= j < all.len() && i != j implies apart(
        #[trigger] all[i],
        #[trigger] all[j],
    ) by {
        if i < atoms.len() && j < atoms.len() {
            assert(apart(atoms[i], atoms[j]));
        } else if i < atoms.len() {
            assert(survives(atoms[i], atom.start, atom.end));
        } else {
            assert(survives(atoms[j], atom.start, atom.end));
        }
    }
}

/// Whether a text may stand as a marker: something, on a single line.
pub open spec fn usable_marker(marker: Seq<char>) -> bool {
    marker.len() > 0 && !marker.contains('\n')
}

/// Whether `marker` is something, on a single line.
pub fn is_usable_marker(marker: &str) -> (usable: bool)
    ensures
        usable == usable_marker(marker@),
{
    let mut any: bool = false;
    for c in iter: marker.chars()
        invariant
            iter.seq() == marker@,
            any == (iter.index() > 0),
            forall|i: int| 0 <= i < iter.index() ==> marker@[i] != '\n',
    {
        if c == '\n' {
            assert(marker@[iter.index() as int] == '\n');
            return false;
        }
        any = true;
    }
    any
}

/// The views of references: marker and payload.
pub open spec fn reference_views(references: Seq<(String, String)>) -> Seq<(Seq<char>, Seq<char>)> {
    references.map_values(|pair: (String, String)| (pair.0@, pair.1@))
}

impl BufferView {
    /// The buffer with the cursor behind `insert`, put in at the cursor.
    pub open spec fn typed(self, insert: Seq<u8>) -> Self {
        BufferView {
            cursor: self.cursor + insert.len(),
            ..self.spliced(self.cursor, self.cursor, insert)
        }
    }

    /// The buffer after a reference replaces the selection.
    pub open spec fn with_reference(self, marker: Seq<char>, payload: Seq<char>) -> (
        Self,
        BufferOutcome,
    ) {
        if !usable_marker(marker) {
            (self, BufferOutcome::Ignored)
        } else {
            (
                self.with_inserted(utf8(marker)).0.with_atom(utf8(marker).len() as int, payload),
                BufferOutcome::Changed,
            )
        }
    }

    /// The buffer after the usable references from `at` on are put in at the
    /// cursor, each followed by `suffix`.
    pub open spec fn with_each_reference(
        self,
        references: Seq<(Seq<char>, Seq<char>)>,
        at: int,
        suffix: Seq<u8>,
    ) -> Self
        decreases references.len() - at,
    {
        if at >= references.len() {
            self
        } else {
            let marker = references[at].0;
            let next = if usable_marker(marker) {
                self.typed(utf8(marker)).with_atom(
                    utf8(marker).len() as int,
                    references[at].1,
                ).typed(suffix)
            } else {
                self
            };
            next.with_each_reference(references, at + 1, suffix)
        }
    }

    /// The buffer after references replace the selection as one edit.
    pub open spec fn with_references(
        self,
        references: Seq<(Seq<char>, Seq<char>)>,
        suffix: Seq<u8>,
    ) -> (Self, BufferOutcome) {
        if forall|i: int| 0 <= i < references.len() ==> !usable_marker((#[trigger] references[i]).0) {
            (self, BufferOutcome::Ignored)
        } else {
            let (start, end) = self.target();
            let emptied = BufferView {
                cursor: start,
                anchor: None,
                ..self.saved().broken().spliced(start, end, Seq::empty())
            };
            (
                BufferView {
                    desired: None,
                    ..emptied.with_each_reference(references, 0, suffix)
                },
                BufferOutcome::Changed,
            )
        }
    }

    /// The buffer after its text was submitted.
    pub open spec fn submitted(self) -> Self {
        BufferView {
            bytes: Seq::empty(),
            cursor: 0,
            anchor: None,
            desired: None,
            undo: Seq::empty(),
            atoms: Seq::empty(),
            view_offset: 0,
            manual_scroll: false,
            ..self.broken()
        }
    }
}

impl EditBuffer {
    /// Puts `insert` in at the cursor and moves the cursor behind it.
    pub fn type_text(&mut self, insert: &str)
        requires
            old(self).wf(),
            old(self).anchor is None,
            old(self).last_yank is None,
        ensures
            final(self).wf(),
            final(self)@ == old(self)@.typed(utf8(insert@)),
            final(self).anchor is None,
            final(self).last_yank is None,
            forall|i: int|
                0 <= i < final(self)@.atoms.len() ==> survives(
                    #[trigger] final(self)@.atoms[i],
                    old(self)@.cursor,
                    final(self)@.cursor,
                ),
            boundary(final(self)@.bytes, old(self)@.cursor),
    {
        let ghost before = self@;
        let at: usize = self.cursor;
        self.splice(at, at, insert);
        self.cursor = at + byte_len(insert);
        assert(self@ =~= before.typed(utf8(insert@)));
    }

    /// Marks the bytes from `start` up to the cursor as one unit that stands
    /// for `payload`.
    fn mark_atom(&mut self, start: usize, payload: &str)
        requires
            old(self).wf(),
            start < old(self).cursor,
            boundary(old(self)@.bytes, start as int),
            forall|i: int|
                0 <= i < old(self)@.atoms.len() ==> survives(
                    #[trigger] old(self)@.atoms[i],
                    start as int,
                    old(self)@.cursor,
                ),
        ensures
            final(self).wf(),
            final(self)@ == old(self)@.with_atom(old(self)@.cursor - start, payload@),
            final(self).anchor == old(self).anchor,
            final(self).last_yank == old(self).last_yank,
    {
        let ghost before = self@;
        let atom = Atom { start, end: self.cursor, payload: payload.to_owned() };
        let ghost added = atom@;
        proof {
            pushed_atom_ok(before.bytes, before.atoms, added);
        }
        atoms_push(&mut self.atoms, atom);
        assert(self@.atoms =~= before.atoms.push(added));
        assert(self@ =~= before.with_atom(before.cursor - start, payload@));
    }

    /// Inserts an atomic reference at the cursor: `marker` is displayed,
    /// navigated, and deleted as one unit, and expands to `payload` in the
    /// submitted text. `marker` must be a single line.
    ///
    /// The unit is tracked by position, not by content: typed text that
    /// happens to equal `marker` stays ordinary text.
    pub fn insert_reference(&mut self, marker: &str, payload: &str) -> (outcome: BufferOutcome)
        requires
            old(self).wf(),
        ensures
            final(self).wf(),
            (final(self)@, outcome) == old(self)@.with_reference(marker@, payload@),
    {
        if !is_usable_marker(marker) {
            return BufferOutcome::Ignored;
        }
        let ghost before = self@;
        let length: usize = byte_len(marker);
        proof {
            crate::strings::first_byte_leads(marker@);
        }
        self.snapshot();
        self.break_sequence();
        let (start, end): (usize, usize) = self.target();
        self.splice(start, end, marker);
        self.cursor = start + length;
        self.anchor = None;
        self.desired = None;
        assert(self@ =~= before.with_inserted(utf8(marker@)).0);
        self.mark_atom(start, payload);
        BufferOutcome::Changed
    }

    /// Inserts references and a suffix after each as one undoable action.
    ///
    /// Invalid (empty or multiline) markers are ignored. This is used for one
    /// terminal paste/drop gesture that produces one or more attachment chips.
    pub fn insert_reference_group(
        &mut self,
        references: &Vec<(String, String)>,
        suffix: &str,
    ) -> (outcome: BufferOutcome)
        requires
            old(self).wf(),
        ensures
            final(self).wf(),
            (final(self)@, outcome) == old(self)@.with_references(
                reference_views(references@),
                utf8(suffix@),
            ),
    {
        let ghost before = self@;
        let ghost views = reference_views(references@);
        let ghost tail = utf8(suffix@);
        let mut any: bool = false;
        let mut at: usize = 0;
        while at < references.len() && !any
            invariant
                at <= references.len(),
                views == reference_views(references@),
                !any ==> forall|i: int| 0 <= i < at ==> !usable_marker((#[trigger] views[i]).0),
                any ==> exists|i: int|
                    0 <= i < views.len() && usable_marker((#[trigger] views[i]).0),
            decreases references.len() - at, (if any { 0int } else { 1int }),
        {
            assert(views[at as int].0 == references@[at as int].0@);
            any = is_usable_marker(references[at].0.as_str());
            at += 1;
        }
        if !any {
            return BufferOutcome::Ignored;
        }
        self.snapshot();
        self.break_sequence();
        let (start, end): (usize, usize) = self.target();
        self.splice(start, end, "");
        proof {
            reveal_strlit("");
            assert(utf8(""@) =~= Seq::<u8>::empty());
        }
        self.cursor = start;
        self.anchor = None;
        let ghost emptied = self@;
        let mut at: usize = 0;
        while at < references.len()
            invariant
                at <= references.len(),
                views == reference_views(references@),
                tail == utf8(suffix@),
                self.wf(),
                self.anchor is None,
                self.last_yank is None,
                self@.with_each_reference(views, at as int, tail) == emptied.with_each_reference(
                    views,
                    0,
                    tail,
                ),
            decreases references.len() - at,
        {
            let pair: &(String, String) = &references[at];
            assert(views[at as int] == (pair.0@, pair.1@));
            if is_usable_marker(pair.0.as_str()) {
                let from: usize = self.cursor;
                proof {
                    crate::strings::first_byte_leads(pair.0@);
                }
                self.type_text(pair.0.as_str());
                self.mark_atom(from, pair.1.as_str());
                self.type_text(suffix);
            }
            at += 1;
        }
        self.desired = None;
        assert(self@ =~= before.with_references(views, tail).0);
        BufferOutcome::Changed
    }

    /// Returns text with every atomic reference expanded to its payload.
    pub fn expanded_text(&self) -> (text: String)
        requires
            self.wf(),
        ensures
            utf8(text@) == expanded(self@.bytes, self@.atoms, 0),
    {
        let ghost bytes = self@.bytes;
        let ghost atoms = self@.atoms;
        proof {
            ends_are_boundaries(self.text@);
            reveal_strlit("");
            assert(utf8(""@) =~= Seq::<u8>::empty());
        }
        let mut result: String = "".to_owned();
        let mut at: usize = 0;
        let length: usize = byte_len(self.text.as_str());
        assert(utf8(result@) + expanded(bytes, atoms, 0) =~= expanded(bytes, atoms, 0));
        loop
            invariant
                self.wf(),
                bytes == self@.bytes,
                bytes == utf8(self.text@),
                atoms == self@.atoms,
                length == bytes.len(),
                at <= length,
                boundary(bytes, at as int),
                forall|i: int|
                    0 <= i < atoms.len() ==> (#[trigger] atoms[i]).start >= at || atoms[i].end
                        <= at,
                utf8(result@) + expanded(bytes, atoms, at as int) == expanded(bytes, atoms, 0),
            ensures
                forall|i: int| 0 <= i < atoms.len() ==> (#[trigger] atoms[i]).start < at,
            decreases length - at,
        {
            let k: usize = match next_atom(&self.atoms, at) {
                Some(k) => k,
                None => {
                    break;
                },
            };
            let atom: &Atom = atoms_get(&self.atoms, k);
            assert(atoms[k as int] == atom@);
            let ghost sofar = result@;
            let piece: &str = slice_text(self.text.as_str(), at, atom.start);
            result.append(piece);
            result.append(atom.payload.as_str());
            proof {
                plain_bytes_stay(bytes, atoms, at as int, atom.start as int);
                assert forall|i: int| 0 <= i < atoms.len() && i != k implies (
                #[trigger] atoms[i]).start != atom.start by {
                    assert(apart(atoms[i], atoms[k as int]));
                }
                starting_finds(atoms, 0, atom.start as int, k as int);
                utf8_of_concat(sofar, piece@);
                utf8_of_concat(sofar + piece@, atom.payload@);
                assert(utf8(result@) + expanded(bytes, atoms, atom.end as int) =~= utf8(sofar)
                    + (bytes.subrange(at as int, atom.start as int) + (utf8(atom.payload@)
                    + expanded(bytes, atoms, atom.end as int))));
                assert forall|i: int| 0 <= i < atoms.len() implies (#[trigger] atoms[i]).start
                    >= atom.end || atoms[i].end <= atom.end by {
                    if i != k {
                        assert(apart(atoms[i], atoms[k as int]));
                    }
                }
            }
            at = atom.end;
        }
        let ghost sofar = result@;
        let piece: &str = slice_text(self.text.as_str(), at, length);
        result.append(piece);
        proof {
            plain_bytes_stay(bytes, atoms, at as int, length as int);
            utf8_of_concat(sofar, piece@);
            assert(utf8(result@) =~= utf8(sofar) + (bytes.subrange(at as int, length as int)
                + expanded(bytes, atoms, length as int)));
        }
        result
    }

    /// Byte ranges of atomic markers present in the text, ascending. Slice
    /// [`EditBuffer::text`] with a range to recover the marker.
    pub fn atom_ranges(&self) -> (ranges: RangeList)
        requires
            self.wf(),
        ensures
            listed(ranges).len() == self@.atoms.len(),
            forall|i: int, j: int|
                0 <= i < j < listed(ranges).len() ==> (#[trigger] listed(ranges)[i]).1 <= (
                #[trigger] listed(ranges)[j]).0,
            forall|i: int|
                0 <= i < self@.atoms.len() ==> ranges_hold(
                    listed(ranges),
                    #[trigger] self@.atoms[i],
                ),
            forall|i: int|
                0 <= i < listed(ranges).len() ==> atoms_hold(
                    self@.atoms,
                    #[trigger] listed(ranges)[i],
                ),
    {
        let ghost atoms = self@.atoms;
        let mut ranges: RangeList = ranges_new();
        let mut at: usize = 0;
        let length: usize = byte_len(self.text.as_str());
        let ghost mut taken: Set<int> = Set::empty();
        loop
            invariant
                self.wf(),
                atoms == self@.atoms,
                length == self@.bytes.len(),
                at <= length,
                taken.finite(),
                taken.len() == listed(ranges).len(),
                forall|i: int|
                    #![trigger taken.contains(i)]
                    taken.contains(i) <==> 0 <= i < atoms.len() && atoms[i].start < at,
                forall|i: int|
                    0 <= i < atoms.len() ==> (#[trigger] atoms[i]).start >= at || atoms[i].end
                        <= at,
                forall|i: int|
                    0 <= i < atoms.len() && (#[trigger] atoms[i]).start < at ==> ranges_hold(
                        listed(ranges),
                        atoms[i],
                    ),
                forall|i: int|
                    0 <= i < listed(ranges).len() ==> atoms_hold(atoms, #[trigger] listed(ranges)[i])
                        && listed(ranges)[i].1 <= at,
                forall|i: int, j: int|
                    0 <= i < j < listed(ranges).len() ==> (#[trigger] listed(ranges)[i]).1 <= (
                    #[trigger] listed(ranges)[j]).0,
            ensures
                forall|i: int| 0 <= i < atoms.len() ==> (#[trigger] atoms[i]).start < at,
            decreases length - at,
        {
            let k: usize = match next_atom(&self.atoms, at) {
                Some(k) => k,
                None => {
                    break;
                },
            };
            let atom: &Atom = atoms_get(&self.atoms, k);
            assert(atoms[k as int] == atom@);
            let ghost earlier = listed(ranges);
            ranges_push(&mut ranges, atom.start, atom.end);
            proof {
                let all = listed(ranges);
                assert(all[all.len() - 1] == (atom.start, atom.end));
                assert(atoms_hold(atoms, all[all.len() - 1]));
                assert(ranges_hold(all, atoms[k as int]));
                assert forall|i: int|
                    0 <= i < atoms.len() && (#[trigger] atoms[i]).start < atom.end implies ranges_hold(
                    all,
                    atoms[i],
                ) by {
                    if i != k {
                        assert(apart(atoms[i], atoms[k as int]));
                        assert(ranges_hold(earlier, atoms[i]));
                        let r = choose|r: int|
                            0 <= r < earlier.len() && (#[trigger] earlier[r]).0 == atoms[i].start
                                && earlier[r].1 == atoms[i].end;
                        assert(all[r] == earlier[r]);
                    }
                }
                assert forall|i: int| 0 <= i < all.len() implies atoms_hold(
                    atoms,
                    #[trigger] all[i],
                ) && all[i].1 <= atom.end by {
                    if i < earlier.len() {
                        assert(all[i] == earlier[i]);
                    }
                }
                assert forall|i: int, j: int| 0 <= i < j < all.len() implies (#[trigger] all[i]).1
                    <= (#[trigger] all[j]).0 by {
                    assert(all[i] == earlier[i]);
                    if j < earlier.len() {
                        assert(all[j] == earlier[j]);
                    }
                }
                assert(!taken.contains(k as int));
                taken = taken.insert(k as int);
                assert forall|i: int| #![trigger taken.contains(i)] taken.contains(i) <==> (0 <= i
                    < atoms.len() && atoms[i].start < atom.end) by {
                    if 0 <= i < atoms.len() && i != k {
                        assert(apart(atoms[i], atoms[k as int]));
                    }
                }
                assert forall|i: int| 0 <= i < atoms.len() implies (#[trigger] atoms[i]).start
                    >= atom.end || atoms[i].end <= atom.end by {
                    if i != k {
                        assert(apart(atoms[i], atoms[k as int]));
                    }
                }
            }
            at = atom.end;
        }
        proof {
            assert(taken =~= vstd::set_lib::set_int_range(0, atoms.len() as int));
            vstd::set_lib::lemma_int_range(0, atoms.len() as int);
        }
        ranges
    }

    /// Returns expanded text and resets the buffer after submission.
    pub fn clear_after_submit(&mut self) -> (text: String)
        requires
            old(self).wf(),
        ensures
            final(self).wf(),
            utf8(text@) == expanded(old(self)@.bytes, old(self)@.atoms, 0),
            final(self)@ == old(self)@.submitted(),
    {
        let ghost before = self@;
        let result: String = self.expanded_text();
        proof {
            reveal_strlit("");
            assert(utf8(""@) =~= Seq::<u8>::empty());
            ends_are_boundaries(""@);
        }
        self.text = "".to_owned();
        self.cursor = 0;
        self.anchor = None;
        self.desired = None;
        self.undo = Vec::new();
        self.atoms = atoms_new();
        self.view_offset = 0;
        self.manual_scroll = false;
        self.last_action = Action::Other;
        self.last_yank = None;
        assert(self@ =~= before.submitted());
        result
    }
}

/// Whether one of the ranges is that of the atom.
pub open spec fn ranges_hold(ranges: Seq<(usize, usize)>, atom: AtomView) -> bool {
    exists|r: int|
        0 <= r < ranges.len() && (#[trigger] ranges[r]).0 == atom.start && ranges[r].1 == atom.end
}

/// Whether the range is that of one of the atoms.
pub open spec fn atoms_hold(atoms: Seq<AtomView>, range: (usize, usize)) -> bool {
    exists|i: int|
        0 <= i < atoms.len() && (#[trigger] atoms[i]).start == range.0 && atoms[i].end == range.1
}

} // verus!
