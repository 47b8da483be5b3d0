//! Deleting, killing and yanking in an edited text.

use im::Vector;
use vstd::prelude::*;
use vstd::string::*;

use crate::atoms::{
    all_moved_by, apart, append_atoms, atom_views, atoms_clone, atoms_inside, atoms_ok, cut_atoms,
    filtered_atoms_ok, find_holding, holding, holding_facts, moved_by, survives, widen,
    widened_facts, Atom, AtomView,
};
use crate::buffer::{Action, BufferOutcome, BufferView, EditBuffer, KillEntry, KillView, KILL_CAP};
use crate::layout::{
    find_line_end, find_line_start, line_end, line_end_is_boundary, line_start,
    line_start_is_boundary, tiles, Glyph,
};
use crate::strings::{boundary, byte_len, concat_boundaries, slice_text, utf8, utf8_of_concat};
use crate::words::{left_target, right_target, steps_of, word_left, word_right};

verus! {

/// Two kills joined, one in front of the other.
pub open spec fn joined(front: KillView, back: KillView) -> KillView {
    KillView {
        bytes: front.bytes + back.bytes,
        atoms: front.atoms + all_moved_by(back.atoms, front.bytes.len() as int),
    }
}

impl BufferView {
    /// What a range holds: its bytes and the atoms inside it.
    pub open spec fn cut_out(self, start: int, end: int) -> KillView {
        KillView {
            bytes: self.bytes.subrange(start, end),
            atoms: atoms_inside(self.atoms, start, end),
        }
    }

    /// The buffer with a kill recorded: joined to the newest entry within a
    /// run of kills, else as a new one; the oldest entry makes room.
    pub open spec fn recorded(self, killed: KillView, backward: bool) -> Self {
        let ring = if self.last_action == Action::Kill && self.ring.len() > 0 {
            self.ring.update(
                0,
                if backward {
                    joined(killed, self.ring[0])
                } else {
                    joined(self.ring[0], killed)
                },
            )
        } else {
            let grown = self.ring.insert(0, killed);
            if grown.len() > KILL_CAP {
                grown.drop_last()
            } else {
                grown
            }
        };
        BufferView { ring, kill_index: 0, last_action: Action::Kill, ..self }
    }

    /// The buffer after a range, atoms whole, is deleted or killed.
    pub open spec fn with_deleted(self, start: int, end: int, kill: bool) -> (Self, BufferOutcome) {
        if start == end {
            (
                if kill {
                    self
                } else {
                    self.broken()
                },
                BufferOutcome::Ignored,
            )
        } else {
            let (from, to) = self.widened(start, end);
            let cut = BufferView {
                cursor: from,
                anchor: None,
                desired: None,
                last_yank: None,
                ..self.saved().spliced(from, to, Seq::empty())
            };
            (
                if kill {
                    cut.recorded(self.cut_out(from, to), to == self.cursor)
                } else {
                    BufferView { last_action: Action::Other, ..cut }
                },
                BufferOutcome::Changed,
            )
        }
    }

    /// The buffer with a kill put in at `start`.
    pub open spec fn with_entry(self, start: int, entry: KillView) -> Self {
        BufferView {
            bytes: self.spliced(start, start, entry.bytes).bytes,
            atoms: self.spliced(start, start, entry.bytes).atoms + all_moved_by(entry.atoms, start),
            ..self
        }
    }

    /// The buffer after the newest kill replaces the selection.
    pub open spec fn yanked(self) -> (Self, BufferOutcome) {
        if self.ring.len() == 0 {
            (self.broken(), BufferOutcome::Ignored)
        } else {
            let (start, end) = self.target();
            let behind = start + self.ring[0].bytes.len();
            (
                BufferView {
                    cursor: behind,
                    anchor: None,
                    kill_index: 0,
                    last_yank: Some((start, behind)),
                    last_action: Action::Yank,
                    desired: None,
                    ..self.saved().spliced(start, end, Seq::empty()).with_entry(start, self.ring[0])
                },
                BufferOutcome::Changed,
            )
        }
    }

    /// The buffer after the kill yanked last gives way to the next older one.
    pub open spec fn yank_popped(self) -> (Self, BufferOutcome) {
        if !(self.last_action == Action::Yank || self.last_action == Action::YankPop)
            || self.ring.len() < 2 {
            (self.broken(), BufferOutcome::Ignored)
        } else {
            match self.last_yank {
                None => (self, BufferOutcome::Ignored),
                Some((start, end)) => {
                    let index = (self.kill_index + 1) % (self.ring.len() as int);
                    let behind = start + self.ring[index].bytes.len();
                    (
                        BufferView {
                            cursor: behind,
                            kill_index: index,
                            last_yank: Some((start, behind)),
                            last_action: Action::YankPop,
                            ..self.saved().spliced(start, end, Seq::empty()).with_entry(
                                start,
                                self.ring[index],
                            )
                        },
                        BufferOutcome::Changed,
                    )
                },
            }
        }
    }

    /// The buffer after the selection is copied.
    pub open spec fn selection_copied(self) -> (Self, BufferOutcome) {
        match self.selection() {
            None => (self, BufferOutcome::Ignored),
            Some((start, end)) => (
                BufferView { copied: Some(self.bytes.subrange(start, end)), ..self.broken() },
                BufferOutcome::Changed,
            ),
        }
    }

    /// The buffer after the selection is cut.
    pub open spec fn selection_cut(self) -> (Self, BufferOutcome) {
        match self.selection() {
            None => (self, BufferOutcome::Ignored),
            Some((start, end)) => {
                let copied = BufferView {
                    copied: Some(self.bytes.subrange(start, end)),
                    ..self
                };
                copied.with_deleted(start, end, true)
            },
        }
    }

    /// Where a step to the left lands; `before` measures the text up to the
    /// cursor.
    pub open spec fn step_left(self, before: Seq<Glyph>) -> int {
        match holding(self.atoms, 0, before.last().start as int) {
            Some(atom) => atom.start,
            None => before.last().start as int,
        }
    }

    /// Where a step to the right lands; `after` measures the text behind the
    /// cursor.
    pub open spec fn step_right(self, after: Seq<Glyph>) -> int {
        match holding(self.atoms, 0, self.cursor) {
            Some(atom) => atom.end,
            None => after[0].end as int,
        }
    }

    /// The buffer after Backspace.
    pub open spec fn backspaced(self, before: Seq<Glyph>) -> (Self, BufferOutcome) {
        match self.selection() {
            Some((start, end)) => self.with_deleted(start, end, false),
            None => if before.len() == 0 {
                (self.broken(), BufferOutcome::Ignored)
            } else {
                self.with_deleted(self.step_left(before), self.cursor, false)
            },
        }
    }

    /// The buffer after Delete.
    pub open spec fn deleted(self, after: Seq<Glyph>) -> (Self, BufferOutcome) {
        match self.selection() {
            Some((start, end)) => self.with_deleted(start, end, false),
            None => if after.len() == 0 {
                (self.broken(), BufferOutcome::Ignored)
            } else {
                self.with_deleted(self.cursor, self.step_right(after), false)
            },
        }
    }

    /// The buffer after a kill to the start of the line, or over the line
    /// break where the cursor already is there.
    pub open spec fn line_start_killed(self) -> (Self, BufferOutcome) {
        match self.selection() {
            Some((start, end)) => self.with_deleted(start, end, true),
            None => {
                let start = line_start(self.bytes, self.cursor);
                self.with_deleted(
                    if start == self.cursor && start > 0 {
                        start - 1
                    } else {
                        start
                    },
                    self.cursor,
                    true,
                )
            },
        }
    }

    /// The buffer after a kill to the end of the line, or over the line break
    /// where the cursor already is there.
    pub open spec fn line_end_killed(self) -> (Self, BufferOutcome) {
        match self.selection() {
            Some((start, end)) => self.with_deleted(start, end, true),
            None => {
                let end = line_end(self.bytes, self.cursor);
                self.with_deleted(
                    self.cursor,
                    if self.cursor < end {
                        end
                    } else if end < self.bytes.len() {
                        end + 1
                    } else {
                        end
                    },
                    true,
                )
            },
        }
    }

    /// Where a word motion to the left lands.
    pub open spec fn word_left(self, before: Seq<Glyph>) -> int {
        if self.cursor > 0 && self.bytes[self.cursor - 1] == 10 {
            self.cursor - 1
        } else {
            left_target(steps_of(self.bytes, before))
        }
    }

    /// Where a word motion to the right lands.
    pub open spec fn word_right(self, after: Seq<Glyph>) -> int {
        if self.cursor < self.bytes.len() && self.bytes[self.cursor] == 10 {
            self.cursor + 1
        } else {
            right_target(steps_of(self.bytes, after), self.bytes.len() as int)
        }
    }

    /// The buffer after a kill of the word to the left.
    pub open spec fn word_left_killed(self, before: Seq<Glyph>) -> (Self, BufferOutcome) {
        match self.selection() {
            Some((start, end)) => self.with_deleted(start, end, true),
            None => self.with_deleted(self.word_left(before), self.cursor, true),
        }
    }

    /// The buffer after a kill of the word to the right.
    pub open spec fn word_right_killed(self, after: Seq<Glyph>) -> (Self, BufferOutcome) {
        match self.selection() {
            Some((start, end)) => self.with_deleted(start, end, true),
            None => self.with_deleted(self.cursor, self.word_right(after), true),
        }
    }
}

/// Atoms over bytes that no earlier atom touches keep the atoms apart.
pub proof fn appended_atoms_ok(
    bytes: Seq<u8>,
    atoms: Seq<AtomView>,
    more: Seq<AtomView>,
    start: int,
    end: int,
)
    requires
        atoms_ok(bytes, atoms),
        atoms_ok(bytes, more),
        forall|i: int| 0 <= i < atoms.len() ==> survives(#[trigger] atoms[i], start, end),
        forall|i: int|
            0 <= i < more.len() ==> start <= (#[trigger] more[i]).start && more[i].end <= end,
    ensures
        atoms_ok(bytes, atoms + more),
{
    let all = atoms + more;
    let count = atoms.len();
    assert forall|i: int| 0 <= i < all.len() implies {
        let atom = #[trigger] all[i];
        &&& 0 <= atom.start < atom.end <= bytes.len()
        &&& boundary(bytes, atom.start)
        &&& boundary(bytes, atom.end)
    } by {
        if i < count {
            assert(all[i] == atoms[i]);
        } else {
            assert(all[i] == more[i - count]);
        }
    }
    assert forall|i: int, j: int|
        0 <= i < all.len() && 0 <= j < all.len() && i != j implies apart(
        #[trigger] all[i],
        #[trigger] all[j],
    ) by {
        if i < count && j < count {
            assert(apart(atoms[i], atoms[j]));
        } else if i >= count && j >= count {
            assert(apart(more[i - count], more[j - count]));
        } else if i < count {
            assert(survives(atoms[i], start, end));
            assert(all[j] == more[j - count]);
        } else {
            assert(survives(atoms[j], start, end));
            assert(all[i] == more[i - count]);
        }
    }
}

/// Atoms of a part of a text are atoms of the text, counted from its start.
pub proof fn moved_atoms_ok(bytes: Seq<u8>, part: Seq<u8>, atoms: Seq<AtomView>, distance: int)
    requires
        atoms_ok(part, atoms),
        0 <= distance,
        distance + part.len() <= bytes.len(),
        forall|at: int|
            0 <= at <= part.len() && boundary(part, at) ==> #[trigger] boundary(
                bytes,
                at + distance,
            ),
    ensures
        atoms_ok(bytes, all_moved_by(atoms, distance)),
        forall|i: int|
            0 <= i < atoms.len() ==> distance <= (#[trigger] all_moved_by(atoms, distance)[i]).start
                && all_moved_by(atoms, distance)[i].end <= distance + part.len(),
{
    let moved = all_moved_by(atoms, distance);
    assert forall|i: int| 0 <= i < moved.len() implies {
        let atom = #[trigger] moved[i];
        &&& 0 <= atom.start < atom.end <= bytes.len()
        &&& boundary(bytes, atom.start)
        &&& boundary(bytes, atom.end)
        &&& distance <= atom.start
        &&& atom.end <= distance + part.len()
    } by {
        assert(moved[i] == moved_by(atoms[i], distance));
        assert(boundary(bytes, atoms[i].start + distance));
        assert(boundary(bytes, atoms[i].end + distance));
    }
    assert forall|i: int, j: int|
        0 <= i < moved.len() && 0 <= j < moved.len() && i != j implies apart(
        #[trigger] moved[i],
        #[trigger] moved[j],
    ) by {
        assert(apart(atoms[i], atoms[j]));
    }
}

/// The atoms inside a range are atoms of what it holds.
pub proof fn cut_out_ok(bytes: Seq<u8>, atoms: Seq<AtomView>, start: int, end: int)
    requires
        atoms_ok(bytes, atoms),
        0 <= start <= end <= bytes.len(),
    ensures
        atoms_ok(bytes.subrange(start, end), atoms_inside(atoms, start, end)),
{
    let keep = |atom: AtomView| atom.start >= start && atom.end <= end;
    let kept = atoms.filter(keep);
    let moved = atoms_inside(atoms, start, end);
    filtered_atoms_ok(bytes, atoms, keep);
    assert forall|i: int| 0 <= i < moved.len() implies {
        let atom = #[trigger] moved[i];
        &&& 0 <= atom.start < atom.end <= end - start
        &&& boundary(bytes.subrange(start, end), atom.start)
        &&& boundary(bytes.subrange(start, end), atom.end)
    } by {
        assert(moved[i] == moved_by(kept[i], -start));
        assert(keep(kept[i]));
    }
    assert forall|i: int, j: int|
        0 <= i < moved.len() && 0 <= j < moved.len() && i != j implies apart(
        #[trigger] moved[i],
        #[trigger] moved[j],
    ) by {
        assert(apart(kept[i], kept[j]));
    }
}

/// Joined kills keep their atoms whole and apart.
pub proof fn joined_ok(front: Seq<char>, back: Seq<char>, a: KillView, b: KillView)
    requires
        a.bytes == utf8(front),
        b.bytes == utf8(back),
        atoms_ok(a.bytes, a.atoms),
        atoms_ok(b.bytes, b.atoms),
    ensures
        joined(a, b).bytes == utf8(front + back),
        atoms_ok(joined(a, b).bytes, joined(a, b).atoms),
{
    let bytes = utf8(front + back);
    let seam = a.bytes.len() as int;
    utf8_of_concat(front, back);
    assert forall|at: int| 0 <= at <= b.bytes.len() && boundary(b.bytes, at) implies
        #[trigger] boundary(bytes, at + seam) by {
        concat_boundaries(front, back, at + seam);
    }
    moved_atoms_ok(bytes, b.bytes, b.atoms, seam);
    assert forall|i: int| 0 <= i < a.atoms.len() implies {
        let atom = #[trigger] a.atoms[i];
        &&& 0 <= atom.start < atom.end <= bytes.len()
        &&& boundary(bytes, atom.start)
        &&& boundary(bytes, atom.end)
        &&& survives(atom, seam, bytes.len() as int)
    } by {
        concat_boundaries(front, back, a.atoms[i].start);
        concat_boundaries(front, back, a.atoms[i].end);
    }
    assert(atoms_ok(bytes, a.atoms));
    appended_atoms_ok(
        bytes,
        a.atoms,
        all_moved_by(b.atoms, seam),
        seam,
        bytes.len() as int,
    );
}

/// Two kills joined, one in front of the other.
pub fn join_kills(front: &KillEntry, back: &KillEntry) -> (entry: KillEntry)
    requires
        atoms_ok(front@.bytes, front@.atoms),
        atoms_ok(back@.bytes, back@.atoms),
    ensures
        entry@ == joined(front@, back@),
        atoms_ok(entry@.bytes, entry@.atoms),
{
    let seam: usize = byte_len(front.text.as_str());
    let mut text: String = front.text.clone();
    text.append(back.text.as_str());
    let length: usize = byte_len(text.as_str());
    let mut atoms: Vector<Atom> = atoms_clone(&front.atoms);
    proof {
        joined_ok(front.text@, back.text@, front@, back@);
        assert(length == seam + back@.bytes.len());
        assert forall|i: int| 0 <= i < atom_views(back.atoms).len() implies (
        #[trigger] atom_views(back.atoms)[i]).start <= atom_views(back.atoms)[i].end && atom_views(
            back.atoms,
        )[i].end + seam <= usize::MAX by {
            assert(back@.atoms[i] == atom_views(back.atoms)[i]);
        }
    }
    append_atoms(&mut atoms, &back.atoms, seam);
    KillEntry { text, atoms }
}

impl KillEntry {
    /// The same kill.
    pub fn copy(&self) -> (entry: Self)
        ensures
            entry@ == self@,
            entry.text@ == self.text@,
    {
        KillEntry { text: self.text.clone(), atoms: atoms_clone(&self.atoms) }
    }
}

impl EditBuffer {
    /// Records a kill.
    fn record_kill(&mut self, killed: KillEntry, backward: bool)
        requires
            old(self).wf(),
            old(self).anchor is None,
            atoms_ok(killed@.bytes, killed@.atoms),
        ensures
            final(self).wf(),
            final(self)@ == old(self)@.recorded(killed@, backward),
    {
        let ghost before = self@;
        let ghost added = killed@;
        assert(before.ring.len() == self.kill_ring@.len());
        if self.last_action == Action::Kill && self.kill_ring.len() > 0 {
            let current: KillEntry = self.kill_ring[0].copy();
            assert(before.ring[0] == current@);
            let next: KillEntry = if backward {
                join_kills(&killed, &current)
            } else {
                join_kills(&current, &killed)
            };
            let ghost renewed = next@;
            self.kill_ring.set(0, next);
            assert(self@.ring =~= before.ring.update(0, renewed));
        } else {
            self.kill_ring.insert(0, killed);
            let ghost grown = self@.ring;
            assert(grown =~= before.ring.insert(0, added));
            assert forall|i: int| 0 <= i < grown.len() implies atoms_ok(
                (#[trigger] grown[i]).bytes,
                grown[i].atoms,
            ) by {
                if i > 0 {
                    assert(grown[i] == before.ring[i - 1]);
                }
            }
            if self.kill_ring.len() > KILL_CAP {
                let _ = self.kill_ring.pop();
                assert(self@.ring =~= grown.drop_last());
            }
        }
        self.kill_index = 0;
        self.last_action = Action::Kill;
        assert(self@ =~= before.recorded(added, backward));
    }

    /// Deletes or kills a range, atoms whole.
    fn delete_range(&mut self, start: usize, end: usize, kill: bool) -> (outcome: BufferOutcome)
        requires
            old(self).wf(),
            start <= end,
            boundary(old(self)@.bytes, start as int),
            boundary(old(self)@.bytes, end as int),
        ensures
            final(self).wf(),
            (final(self)@, outcome) == old(self)@.with_deleted(start as int, end as int, kill),
    {
        let ghost before = self@;
        if start == end {
            if !kill {
                self.break_sequence();
            }
            return BufferOutcome::Ignored;
        }
        proof {
            widened_facts(before.bytes, before.atoms, 0, start as int, end as int);
            reveal_strlit("");
            assert(utf8(""@) =~= Seq::<u8>::empty());
        }
        let (from, to): (usize, usize) = widen(&self.atoms, start, end);
        self.snapshot();
        let removed: String = slice_text(self.text.as_str(), from, to).to_owned();
        proof {
            cut_out_ok(before.bytes, before.atoms, from as int, to as int);
            assert forall|i: int| 0 <= i < atom_views(self.atoms).len() implies (
            #[trigger] atom_views(self.atoms)[i]).start <= atom_views(self.atoms)[i].end by {
                assert(before.atoms[i] == atom_views(self.atoms)[i]);
            }
        }
        let atoms: Vector<Atom> = cut_atoms(&self.atoms, from, to);
        let backward: bool = to == self.cursor;
        self.splice(from, to, "");
        self.cursor = from;
        self.anchor = None;
        self.desired = None;
        self.last_yank = None;
        if kill {
            self.record_kill(KillEntry { text: removed, atoms }, backward);
        } else {
            self.last_action = Action::Other;
        }
        assert(self@ =~= before.with_deleted(start as int, end as int, kill).0);
        BufferOutcome::Changed
    }

    /// Puts a kill in at `start`, which lies outside every atom.
    fn insert_kill_entry(&mut self, start: usize, value: &KillEntry)
        requires
            old(self)@.settled(),
            boundary(old(self)@.bytes, start as int),
            atoms_ok(value@.bytes, value@.atoms),
        ensures
            final(self)@.settled(),
            final(self)@ == old(self)@.with_entry(start as int, value@),
            final(self)@.bytes.len() <= usize::MAX,
            boundary(final(self)@.bytes, start as int),
            boundary(final(self)@.bytes, start + value@.bytes.len()),
    {
        let ghost before = self@;
        let ghost text = self.text@;
        self.splice(start, start, value.text.as_str());
        let ghost after = self@;
        let length: usize = byte_len(self.text.as_str());
        proof {
            assert forall|at: int| 0 <= at <= value@.bytes.len() && boundary(value@.bytes, at) implies
                #[trigger] boundary(after.bytes, at + start) by {
                crate::atoms::spliced_boundaries(
                    text,
                    self.text@,
                    value.text@,
                    start as int,
                    start as int,
                    at,
                );
            }
            moved_atoms_ok(after.bytes, value@.bytes, value@.atoms, start as int);
            appended_atoms_ok(
                after.bytes,
                after.atoms,
                all_moved_by(value@.atoms, start as int),
                start as int,
                start + value@.bytes.len(),
            );
            assert forall|i: int| 0 <= i < atom_views(value.atoms).len() implies (
            #[trigger] atom_views(value.atoms)[i]).start <= atom_views(value.atoms)[i].end
                && atom_views(value.atoms)[i].end + start <= usize::MAX by {
                assert(value@.atoms[i] == atom_views(value.atoms)[i]);
            }
        }
        append_atoms(&mut self.atoms, &value.atoms, start);
        assert(self@ =~= before.with_entry(start as int, value@));
    }

    /// Yanks the newest kill.
    pub fn yank(&mut self) -> (outcome: BufferOutcome)
        requires
            old(self).wf(),
        ensures
            final(self).wf(),
            (final(self)@, outcome) == old(self)@.yanked(),
    {
        let ghost before = self@;
        assert(before.ring.len() == self.kill_ring@.len());
        if self.kill_ring.len() == 0 {
            self.break_sequence();
            return BufferOutcome::Ignored;
        }
        let value: KillEntry = self.kill_ring[0].copy();
        assert(before.ring[0] == value@);
        proof {
            reveal_strlit("");
            assert(utf8(""@) =~= Seq::<u8>::empty());
        }
        self.snapshot();
        let (start, end): (usize, usize) = self.target();
        self.splice(start, end, "");
        self.insert_kill_entry(start, &value);
        self.cursor = start + byte_len(value.text.as_str());
        self.anchor = None;
        self.kill_index = 0;
        self.last_yank = Some((start, self.cursor));
        self.last_action = Action::Yank;
        self.desired = None;
        assert(self@ =~= before.yanked().0);
        BufferOutcome::Changed
    }

    /// Replaces the last yank by the next older kill.
    pub fn yank_pop(&mut self) -> (outcome: BufferOutcome)
        requires
            old(self).wf(),
        ensures
            final(self).wf(),
            (final(self)@, outcome) == old(self)@.yank_popped(),
    {
        let ghost before = self@;
        assert(before.ring.len() == self.kill_ring@.len());
        if !(self.last_action == Action::Yank || self.last_action == Action::YankPop)
            || self.kill_ring.len() < 2 {
            self.break_sequence();
            return BufferOutcome::Ignored;
        }
        match self.last_yank {
            None => BufferOutcome::Ignored,
            Some((start, end)) => {
                proof {
                    reveal_strlit("");
                    assert(utf8(""@) =~= Seq::<u8>::empty());
                }
                self.snapshot();
                let index: usize = (self.kill_index + 1) % self.kill_ring.len();
                let value: KillEntry = self.kill_ring[index].copy();
                assert(before.ring[index as int] == value@);
                self.kill_index = index;
                self.splice(start, end, "");
                self.insert_kill_entry(start, &value);
                self.cursor = start + byte_len(value.text.as_str());
                self.last_yank = Some((start, self.cursor));
                self.last_action = Action::YankPop;
                assert(self@ =~= before.yank_popped().0);
                BufferOutcome::Changed
            },
        }
    }

    /// Copies the selection.
    pub fn copy_selection(&mut self) -> (outcome: BufferOutcome)
        requires
            old(self).wf(),
        ensures
            final(self).wf(),
            (final(self)@, outcome) == old(self)@.selection_copied(),
    {
        let ghost before = self@;
        match self.selection() {
            None => BufferOutcome::Ignored,
            Some((start, end)) => {
                self.break_sequence();
                let copied: String = slice_text(self.text.as_str(), start, end).to_owned();
                self.copied = Some(copied);
                assert(self@ =~= before.selection_copied().0);
                BufferOutcome::Changed
            },
        }
    }

    /// Cuts the selection into the kill ring.
    pub fn cut_selection(&mut self) -> (outcome: BufferOutcome)
        requires
            old(self).wf(),
        ensures
            final(self).wf(),
            (final(self)@, outcome) == old(self)@.selection_cut(),
    {
        let ghost before = self@;
        match self.selection() {
            None => BufferOutcome::Ignored,
            Some((start, end)) => {
                let copied: String = slice_text(self.text.as_str(), start, end).to_owned();
                let ghost bytes = utf8(copied@);
                self.copied = Some(copied);
                assert(self@ =~= (BufferView { copied: Some(bytes), ..before }));
                self.delete_range(start, end, true)
            },
        }
    }

    /// Where a step to the left lands.
    pub fn step_left(&self, before: &Vec<Glyph>) -> (at: usize)
        requires
            self.wf(),
            tiles(before@, self@.bytes, 0, self@.cursor),
            before.len() > 0,
        ensures
            at == self@.step_left(before@),
            at < self.cursor,
            boundary(self@.bytes, at as int),
    {
        let last: usize = before[before.len() - 1].start;
        proof {
            crate::layout::tiles_order(
                before@,
                self@.bytes,
                0,
                self@.cursor,
                before.len() - 1,
                before.len() - 1,
            );
            holding_facts(self@.atoms, 0, last as int);
        }
        match find_holding(&self.atoms, last) {
            Some((start, _)) => start,
            None => last,
        }
    }

    /// Where a step to the right lands.
    pub fn step_right(&self, after: &Vec<Glyph>) -> (at: usize)
        requires
            self.wf(),
            tiles(after@, self@.bytes, self@.cursor, self@.bytes.len() as int),
            after.len() > 0,
        ensures
            at == self@.step_right(after@),
            self.cursor < at,
            boundary(self@.bytes, at as int),
    {
        proof {
            holding_facts(self@.atoms, 0, self@.cursor);
        }
        match find_holding(&self.atoms, self.cursor) {
            Some((_, end)) => end,
            None => after[0].end,
        }
    }

    /// Deletes the selection, or the grapheme or atom before the cursor.
    pub fn backspace(&mut self, before: &Vec<Glyph>) -> (outcome: BufferOutcome)
        requires
            old(self).wf(),
            tiles(before@, old(self)@.bytes, 0, old(self)@.cursor),
        ensures
            final(self).wf(),
            (final(self)@, outcome) == old(self)@.backspaced(before@),
    {
        match self.selection() {
            Some((start, end)) => self.delete_range(start, end, false),
            None => {
                if before.len() == 0 {
                    self.break_sequence();
                    return BufferOutcome::Ignored;
                }
                let start: usize = self.step_left(before);
                let end: usize = self.cursor;
                self.delete_range(start, end, false)
            },
        }
    }

    /// Deletes the selection, or the grapheme or atom behind the cursor.
    pub fn delete(&mut self, after: &Vec<Glyph>) -> (outcome: BufferOutcome)
        requires
            old(self).wf(),
            tiles(after@, old(self)@.bytes, old(self)@.cursor, old(self)@.bytes.len() as int),
        ensures
            final(self).wf(),
            (final(self)@, outcome) == old(self)@.deleted(after@),
    {
        match self.selection() {
            Some((start, end)) => self.delete_range(start, end, false),
            None => {
                if after.len() == 0 {
                    self.break_sequence();
                    return BufferOutcome::Ignored;
                }
                let start: usize = self.cursor;
                let end: usize = self.step_right(after);
                self.delete_range(start, end, false)
            },
        }
    }

    /// Kills the selection, or to the start of the line.
    pub fn kill_line_start(&mut self) -> (outcome: BufferOutcome)
        requires
            old(self).wf(),
        ensures
            final(self).wf(),
            (final(self)@, outcome) == old(self)@.line_start_killed(),
    {
        match self.selection() {
            Some((start, end)) => self.delete_range(start, end, true),
            None => {
                let end: usize = self.cursor;
                let start: usize = find_line_start(self.text.as_str(), end);
                proof {
                    line_start_is_boundary(self.text@, end as int);
                    crate::layout::line_start_facts(self@.bytes, end as int);
                    if start == end && start > 0 {
                        crate::layout::line_feed_boundaries(self.text@, start - 1);
                    }
                }
                if start == end && start > 0 {
                    self.delete_range(start - 1, end, true)
                } else {
                    self.delete_range(start, end, true)
                }
            },
        }
    }

    /// Kills the selection, or to the end of the line.
    pub fn kill_line_end(&mut self) -> (outcome: BufferOutcome)
        requires
            old(self).wf(),
        ensures
            final(self).wf(),
            (final(self)@, outcome) == old(self)@.line_end_killed(),
    {
        match self.selection() {
            Some((start, end)) => self.delete_range(start, end, true),
            None => {
                let start: usize = self.cursor;
                let end: usize = find_line_end(self.text.as_str(), start);
                proof {
                    line_end_is_boundary(self.text@, start as int);
                }
                if start < end {
                    self.delete_range(start, end, true)
                } else if end < byte_len(self.text.as_str()) {
                    self.delete_range(start, end + 1, true)
                } else {
                    self.delete_range(start, end, true)
                }
            },
        }
    }

    /// Where a word motion to the left lands.
    pub fn word_left(&self, before: &Vec<Glyph>) -> (at: usize)
        requires
            self.wf(),
            tiles(before@, self@.bytes, 0, self@.cursor),
        ensures
            at == self@.word_left(before@),
            at <= self.cursor,
            boundary(self@.bytes, at as int),
    {
        if self.cursor > 0 && self.text.as_str().as_bytes()[self.cursor - 1] == 10 {
            proof {
                crate::layout::line_feed_boundaries(self.text@, self.cursor - 1);
            }
            self.cursor - 1
        } else {
            word_left(self.text.as_str(), self.cursor, before)
        }
    }

    /// Where a word motion to the right lands.
    pub fn word_right(&self, after: &Vec<Glyph>) -> (at: usize)
        requires
            self.wf(),
            tiles(after@, self@.bytes, self@.cursor, self@.bytes.len() as int),
        ensures
            at == self@.word_right(after@),
            self.cursor <= at,
            boundary(self@.bytes, at as int),
    {
        let length: usize = byte_len(self.text.as_str());
        if self.cursor < length && self.text.as_str().as_bytes()[self.cursor] == 10 {
            proof {
                crate::layout::line_feed_boundaries(self.text@, self.cursor as int);
            }
            self.cursor + 1
        } else {
            word_right(self.text.as_str(), self.cursor, after)
        }
    }

    /// Kills the selection, or the word to the left.
    pub fn kill_word_backward(&mut self, before: &Vec<Glyph>) -> (outcome: BufferOutcome)
        requires
            old(self).wf(),
            tiles(before@, old(self)@.bytes, 0, old(self)@.cursor),
        ensures
            final(self).wf(),
            (final(self)@, outcome) == old(self)@.word_left_killed(before@),
    {
        match self.selection() {
            Some((start, end)) => self.delete_range(start, end, true),
            None => {
                let start: usize = self.word_left(before);
                let end: usize = self.cursor;
                self.delete_range(start, end, true)
            },
        }
    }

    /// Kills the selection, or the word to the right.
    pub fn kill_word_forward(&mut self, after: &Vec<Glyph>) -> (outcome: BufferOutcome)
        requires
            old(self).wf(),
            tiles(after@, old(self)@.bytes, old(self)@.cursor, old(self)@.bytes.len() as int),
        ensures
            final(self).wf(),
            (final(self)@, outcome) == old(self)@.word_right_killed(after@),
    {
        match self.selection() {
            Some((start, end)) => self.delete_range(start, end, true),
            None => {
                let start: usize = self.cursor;
                let end: usize = self.word_right(after);
                self.delete_range(start, end, true)
            },
        }
    }
}

} // verus!
