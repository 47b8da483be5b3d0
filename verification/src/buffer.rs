//! The flat text that the editors edit: its text, cursor, selection, atomic
//! references and undo states.

use im::Vector;
use vstd::prelude::*;
use vstd::string::*;

use crate::atoms::{
    atom_views, atoms_clone, atoms_new, atoms_ok, holding, splice_atoms, spliced_atoms,
    spliced_boundaries, spliced_bytes, splicing_keeps_atoms, survives, widen, widened,
    widened_facts, Atom, AtomView,
};
use crate::strings::{
    boundary, byte_len, ends_are_boundaries, same_text, slice_text, splice_text, utf8,
    utf8_is_injective,
};

verus! {

/// Most entries that the kill ring keeps.
pub const KILL_CAP: usize = 60;

/// Most states that undo goes back through.
pub const UNDO_CAP: usize = 100;

/// Whether an editing command changed the buffer.
#[derive(Clone, Copy, Debug, PartialEq, Eq, Structural)]
pub enum BufferOutcome {
    /// Text, cursor, or transient editing state changed.
    Changed,
    /// The key had no applicable effect.
    Ignored,
}

/// What the last command was, as far as the next one asks.
#[derive(Clone, Copy, Debug, PartialEq, Eq, Structural)]
pub enum Action {
    /// Text was killed.
    Kill,
    /// Text was yanked.
    Yank,
    /// A yank was replaced by an older kill.
    YankPop,
    /// A character of a word was typed.
    TypeWord,
    /// Anything else.
    Other,
}

/// Direction of a pending character jump.
#[derive(Clone, Copy, Debug, PartialEq, Eq, Structural)]
pub enum Jump {
    /// To a later character.
    Forward,
    /// To an earlier character.
    Backward,
}

/// Killed text and the atoms in it.
pub struct KillEntry {
    /// The text.
    pub text: String,
    /// Its atoms, with offsets into the text.
    pub atoms: Vector<Atom>,
}

/// Killed bytes and the atoms in them.
pub struct KillView {
    /// The bytes.
    pub bytes: Seq<u8>,
    /// The atoms.
    pub atoms: Seq<AtomView>,
}

impl View for KillEntry {
    type V = KillView;

    open spec fn view(&self) -> KillView {
        KillView { bytes: utf8(self.text@), atoms: atom_views(self.atoms) }
    }
}

/// A state that undo goes back to.
pub struct Saved {
    /// The text.
    pub text: String,
    /// The cursor.
    pub cursor: usize,
    /// The atoms.
    pub atoms: Vector<Atom>,
}

/// A state that undo goes back to.
pub struct SavedView {
    /// The bytes.
    pub bytes: Seq<u8>,
    /// The cursor.
    pub cursor: int,
    /// The atoms.
    pub atoms: Seq<AtomView>,
}

impl View for Saved {
    type V = SavedView;

    open spec fn view(&self) -> SavedView {
        SavedView {
            bytes: utf8(self.text@),
            cursor: self.cursor as int,
            atoms: atom_views(self.atoms),
        }
    }
}

/// Shared flat text editing model used by the widget and chat editors.
pub struct EditBuffer {
    /// The visible text.
    pub text: String,
    /// The byte cursor.
    pub cursor: usize,
    /// The fixed end of the selection.
    pub anchor: Option<usize>,
    /// Text captured by the last copy or cut.
    pub copied: Option<String>,
    /// The column that vertical motion aims for.
    pub desired: Option<u16>,
    /// Killed text, newest first.
    pub kill_ring: Vec<KillEntry>,
    /// The entry that the last yank inserted.
    pub kill_index: usize,
    /// The range that the last yank inserted.
    pub last_yank: Option<(usize, usize)>,
    /// What the last command was.
    pub last_action: Action,
    /// States that undo goes back to, oldest first.
    pub undo: Vec<Saved>,
    /// The atomic units of the text.
    pub atoms: Vector<Atom>,
    /// A pending character jump.
    pub jump: Option<Jump>,
    /// Columns of the last layout.
    pub layout_width: u16,
    /// Whether `</` completes the innermost open tag.
    pub xml: bool,
    /// First visible row.
    pub view_offset: usize,
    /// Whether the rows were scrolled away from the cursor.
    pub manual_scroll: bool,
}

/// An edited text.
#[verifier::ext_equal]
pub struct BufferView {
    /// The visible bytes.
    pub bytes: Seq<u8>,
    /// The byte cursor.
    pub cursor: int,
    /// The fixed end of the selection.
    pub anchor: Option<int>,
    /// Bytes captured by the last copy or cut.
    pub copied: Option<Seq<u8>>,
    /// The column that vertical motion aims for.
    pub desired: Option<u16>,
    /// Killed text, newest first.
    pub ring: Seq<KillView>,
    /// The entry that the last yank inserted.
    pub kill_index: int,
    /// The range that the last yank inserted.
    pub last_yank: Option<(int, int)>,
    /// What the last command was.
    pub last_action: Action,
    /// States that undo goes back to, oldest first.
    pub undo: Seq<SavedView>,
    /// The atomic units of the text.
    pub atoms: Seq<AtomView>,
    /// A pending character jump.
    pub jump: Option<Jump>,
    /// Columns of the last layout.
    pub layout_width: u16,
    /// Whether `</` completes the innermost open tag.
    pub xml: bool,
    /// First visible row.
    pub view_offset: int,
    /// Whether the rows were scrolled away from the cursor.
    pub manual_scroll: bool,
}

/// An offset, where there is one.
pub open spec fn offset_view(offset: Option<usize>) -> Option<int> {
    match offset {
        Some(at) => Some(at as int),
        None => None,
    }
}

/// A range, where there is one.
pub open spec fn range_view(range: Option<(usize, usize)>) -> Option<(int, int)> {
    match range {
        Some((start, end)) => Some((start as int, end as int)),
        None => None,
    }
}

/// The bytes of a text, where there is one.
pub open spec fn text_view(text: Option<String>) -> Option<Seq<u8>> {
    match text {
        Some(string) => Some(utf8(string@)),
        None => None,
    }
}

impl View for EditBuffer {
    type V = BufferView;

    open spec fn view(&self) -> BufferView {
        BufferView {
            bytes: utf8(self.text@),
            cursor: self.cursor as int,
            anchor: offset_view(self.anchor),
            copied: text_view(self.copied),
            desired: self.desired,
            ring: self.kill_ring@.map_values(|entry: KillEntry| entry@),
            kill_index: self.kill_index as int,
            last_yank: range_view(self.last_yank),
            last_action: self.last_action,
            undo: self.undo@.map_values(|saved: Saved| saved@),
            atoms: atom_views(self.atoms),
            jump: self.jump,
            layout_width: self.layout_width,
            xml: self.xml,
            view_offset: self.view_offset as int,
            manual_scroll: self.manual_scroll,
        }
    }
}

impl BufferView {
    /// What every command keeps: cursor, anchor and atoms are cut at character
    /// boundaries of the text, atoms are apart, and so it is in every state
    /// that undo or a yank brings back.
    pub open spec fn wf(self) -> bool {
        &&& boundary(self.bytes, self.cursor)
        &&& self.anchor matches Some(at) ==> boundary(self.bytes, at)
        &&& self.settled()
        &&& self.last_yank matches Some((start, end)) ==> start <= end && boundary(
            self.bytes,
            start,
        ) && boundary(self.bytes, end)
        &&& self.last_action == Action::Yank || self.last_action == Action::YankPop
            ==> self.anchor is None
    }

    /// What holds of everything but the offsets into the text.
    pub open spec fn settled(self) -> bool {
        &&& atoms_ok(self.bytes, self.atoms)
        &&& self.undo.len() <= UNDO_CAP
        &&& forall|i: int| 0 <= i < self.undo.len() ==> saved_ok(#[trigger] self.undo[i])
        &&& self.ring.len() <= KILL_CAP
        &&& forall|i: int|
            0 <= i < self.ring.len() ==> atoms_ok(
                (#[trigger] self.ring[i]).bytes,
                self.ring[i].atoms,
            )
        &&& 0 <= self.kill_index < KILL_CAP
        &&& 1 <= self.layout_width
    }

    /// The buffer after a command that ends typing, kill and yank sequences.
    pub open spec fn broken(self) -> Self {
        BufferView { last_action: Action::Other, last_yank: None, ..self }
    }

    /// The buffer after a range is replaced by `insert`.
    pub open spec fn spliced(self, start: int, end: int, insert: Seq<u8>) -> Self {
        BufferView {
            bytes: spliced_bytes(self.bytes, start, end, insert),
            atoms: spliced_atoms(self.atoms, start, end, insert.len() as int),
            ..self
        }
    }

    /// The range widened to the whole of every atom it touches.
    pub open spec fn widened(self, start: int, end: int) -> (int, int) {
        widened(self.atoms, 0, start, end)
    }

    /// The selected range: between anchor and cursor, atoms whole.
    pub open spec fn selection(self) -> Option<(int, int)> {
        match self.anchor {
            Some(anchor) => if anchor == self.cursor {
                None
            } else if anchor < self.cursor {
                Some(self.widened(anchor, self.cursor))
            } else {
                Some(self.widened(self.cursor, anchor))
            },
            None => None,
        }
    }

    /// The selected range, or the empty one at the cursor.
    pub open spec fn target(self) -> (int, int) {
        match self.selection() {
            Some(range) => range,
            None => (self.cursor, self.cursor),
        }
    }

    /// The buffer with its state saved for undo, unless that is the state
    /// saved last; the oldest state makes room.
    pub open spec fn saved(self) -> Self {
        if self.undo.len() > 0 && self.undo.last().bytes == self.bytes && self.undo.last().cursor
            == self.cursor {
            self
        } else {
            let now = SavedView { bytes: self.bytes, cursor: self.cursor, atoms: self.atoms };
            BufferView {
                undo: if self.undo.len() == UNDO_CAP {
                    self.undo.drop_first().push(now)
                } else {
                    self.undo.push(now)
                },
                ..self
            }
        }
    }

    /// The buffer after the last saved state is brought back.
    pub open spec fn undone(self) -> (Self, BufferOutcome) {
        if self.undo.len() == 0 {
            (self.broken(), BufferOutcome::Ignored)
        } else {
            let state = self.undo.last();
            (
                BufferView {
                    bytes: state.bytes,
                    cursor: state.cursor,
                    atoms: state.atoms,
                    undo: self.undo.drop_last(),
                    anchor: None,
                    desired: None,
                    ..self.broken()
                },
                BufferOutcome::Changed,
            )
        }
    }

    /// Where a position inside an atom moves to: the atom's end or start.
    pub open spec fn snapped(self, at: int, forward: bool) -> int {
        match holding(self.atoms, 0, at) {
            Some(atom) => if forward {
                atom.end
            } else {
                atom.start
            },
            None => at,
        }
    }

    /// The buffer with the cursor at `at`, or at the edge of the atom there.
    pub open spec fn moved_to(self, at: int) -> (Self, BufferOutcome) {
        let cursor = self.snapped(at, at >= self.cursor);
        (
            BufferView { cursor, desired: None, ..self.broken() },
            if cursor == self.cursor {
                BufferOutcome::Ignored
            } else {
                BufferOutcome::Changed
            },
        )
    }

    /// The buffer after `insert` replaces the selection, as one undoable edit.
    pub open spec fn with_inserted(self, insert: Seq<u8>) -> (Self, BufferOutcome) {
        if insert.len() == 0 {
            (self, BufferOutcome::Ignored)
        } else {
            let (start, end) = self.target();
            (
                BufferView {
                    cursor: start + insert.len(),
                    anchor: None,
                    desired: None,
                    ..self.saved().broken().spliced(start, end, insert)
                },
                BufferOutcome::Changed,
            )
        }
    }

    /// The buffer after a range, atoms whole, is replaced as one undoable edit.
    pub open spec fn with_replaced(self, start: int, end: int, insert: Seq<u8>) -> Self {
        let (from, to) = if start == end {
            (start, end)
        } else {
            self.widened(start, end)
        };
        BufferView {
            cursor: from + insert.len(),
            anchor: None,
            desired: None,
            ..self.saved().spliced(from, to, insert).broken()
        }
    }

    /// The buffer with an atom placed over the `length` bytes before the cursor.
    pub open spec fn with_atom(self, length: int, payload: Seq<char>) -> Self {
        BufferView {
            atoms: self.atoms.push(
                AtomView { start: self.cursor - length, end: self.cursor, payload },
            ),
            ..self
        }
    }
}

/// What holds of a saved state.
pub open spec fn saved_ok(state: SavedView) -> bool {
    &&& boundary(state.bytes, state.cursor)
    &&& atoms_ok(state.bytes, state.atoms)
}

impl EditBuffer {
    /// What every command keeps.
    pub open spec fn wf(self) -> bool {
        self@.wf()
    }

    /// Creates a buffer with the cursor at the end of `text`, which the host
    /// made safe.
    pub fn new(text: &str) -> (buffer: Self)
        ensures
            buffer.wf(),
            buffer@ == fresh_buffer(utf8(text@)),
    {
        let cursor: usize = byte_len(text);
        proof {
            ends_are_boundaries(text@);
        }
        let buffer = EditBuffer {
            text: text.to_owned(),
            cursor,
            anchor: None,
            copied: None,
            desired: None,
            kill_ring: Vec::new(),
            kill_index: 0,
            last_yank: None,
            last_action: Action::Other,
            undo: Vec::new(),
            atoms: atoms_new(),
            jump: None,
            layout_width: 80,
            xml: true,
            view_offset: 0,
            manual_scroll: false,
        };
        assert(buffer@ =~= fresh_buffer(utf8(text@)));
        buffer
    }

    /// Enables `</` close-tag completion (on by default).
    pub fn set_xml(&mut self, xml: bool)
        requires
            old(self).wf(),
        ensures
            final(self).wf(),
            final(self)@ == (BufferView { xml, ..old(self)@ }),
    {
        self.xml = xml;
    }

    /// Returns the visible marker text.
    pub fn text(&self) -> (text: &str)
        ensures
            text@ == self.text@,
            utf8(text@) == self@.bytes,
    {
        self.text.as_str()
    }

    /// Returns the UTF-8 byte cursor.
    pub fn cursor(&self) -> (at: usize)
        ensures
            at == self@.cursor,
    {
        self.cursor
    }

    /// Returns the normalized selected UTF-8 byte range, or `None` when
    /// collapsed.
    pub fn selection(&self) -> (range: Option<(usize, usize)>)
        requires
            self.wf(),
        ensures
            range_view(range) == self@.selection(),
            range matches Some((start, end)) ==> start < end && boundary(self@.bytes, start as int)
                && boundary(self@.bytes, end as int),
    {
        match self.anchor {
            None => None,
            Some(anchor) => {
                if anchor == self.cursor {
                    None
                } else {
                    let (start, end): (usize, usize) = if anchor < self.cursor {
                        (anchor, self.cursor)
                    } else {
                        (self.cursor, anchor)
                    };
                    proof {
                        widened_facts(self@.bytes, self@.atoms, 0, start as int, end as int);
                    }
                    Some(widen(&self.atoms, start, end))
                }
            },
        }
    }

    /// The selected range, or the empty one at the cursor.
    pub fn target(&self) -> (range: (usize, usize))
        requires
            self.wf(),
        ensures
            (range.0 as int, range.1 as int) == self@.target(),
            range.0 <= range.1,
            boundary(self@.bytes, range.0 as int),
            boundary(self@.bytes, range.1 as int),
    {
        match self.selection() {
            Some(range) => range,
            None => (self.cursor, self.cursor),
        }
    }

    /// Returns the selected visible text.
    pub fn selected_text(&self) -> (text: Option<&str>)
        requires
            self.wf(),
        ensures
            match (text, self@.selection()) {
                (Some(selected), Some((start, end))) => utf8(selected@) == self@.bytes.subrange(
                    start,
                    end,
                ),
                (None, None) => true,
                _ => false,
            },
    {
        match self.selection() {
            Some((start, end)) => Some(slice_text(self.text.as_str(), start, end)),
            None => None,
        }
    }

    /// Ends typing, kill and yank sequences.
    pub fn break_sequence(&mut self)
        requires
            old(self).wf(),
        ensures
            final(self).wf(),
            final(self)@ == old(self)@.broken(),
            final(self).text@ == old(self).text@,
    {
        self.last_action = Action::Other;
        self.last_yank = None;
    }

    /// Selects the complete buffer.
    pub fn select_all(&mut self)
        requires
            old(self).wf(),
        ensures
            final(self).wf(),
            final(self)@ == (BufferView {
                anchor: Some(0),
                cursor: old(self)@.bytes.len() as int,
                desired: None,
                ..old(self)@.broken()
            }),
    {
        proof {
            ends_are_boundaries(self.text@);
        }
        self.anchor = Some(0);
        self.cursor = byte_len(self.text.as_str());
        self.desired = None;
        self.last_action = Action::Other;
        self.last_yank = None;
    }

    /// Collapses the active selection at its cursor edge.
    pub fn clear_selection(&mut self)
        requires
            old(self).wf(),
        ensures
            final(self).wf(),
            final(self)@ == (BufferView { anchor: None, ..old(self)@ }),
    {
        self.anchor = None;
    }

    /// Takes the text captured by the last `Copy`/`Cut`, handing the
    /// clipboard write to the host (OSC 52 on terminals, a detached
    /// native write on the GPU host).
    pub fn take_copied(&mut self) -> (copied: Option<String>)
        requires
            old(self).wf(),
        ensures
            final(self).wf(),
            final(self)@ == (BufferView { copied: None, ..old(self)@ }),
            text_view(copied) == old(self)@.copied,
    {
        self.copied.take()
    }

    /// Saves the state for undo, unless that is the state saved last.
    pub fn snapshot(&mut self)
        requires
            old(self).wf(),
        ensures
            final(self).wf(),
            final(self)@ == old(self)@.saved(),
            final(self).text@ == old(self).text@,
            final(self).atoms == old(self).atoms,
    {
        let ghost before = self@;
        let count: usize = self.undo.len();
        assert(before.undo.len() == self.undo@.len());
        if count > 0 {
            let last: &Saved = &self.undo[count - 1];
            assert(before.undo.last() == last@);
            let same: bool = same_text(last.text.as_str(), self.text.as_str());
            proof {
                if !same && utf8(last.text@) == utf8(self.text@) {
                    utf8_is_injective(last.text@, self.text@);
                }
            }
            if same && last.cursor == self.cursor {
                return;
            }
        }
        if count == UNDO_CAP {
            let _ = self.undo.remove(0);
            assert(self@.undo =~= before.undo.drop_first());
        }
        let ghost shorter = self@.undo;
        let saved = Saved {
            text: self.text.clone(),
            cursor: self.cursor,
            atoms: atoms_clone(&self.atoms),
        };
        let ghost now = saved@;
        self.undo.push(saved);
        assert(self@.undo =~= shorter.push(now));
        assert(self@ =~= before.saved());
        assert forall|i: int| 0 <= i < self@.undo.len() implies saved_ok(
            #[trigger] self@.undo[i],
        ) by {
            if i < shorter.len() {
                assert(self@.undo[i] == shorter[i]);
                if count == UNDO_CAP {
                    assert(shorter[i] == before.undo[i + 1]);
                } else {
                    assert(shorter[i] == before.undo[i]);
                }
            }
        }
    }

    /// Brings the last saved state back.
    pub fn undo(&mut self) -> (outcome: BufferOutcome)
        requires
            old(self).wf(),
        ensures
            final(self).wf(),
            (final(self)@, outcome) == old(self)@.undone(),
    {
        let ghost before = self@;
        assert(before.undo.len() == self.undo@.len());
        match self.undo.pop() {
            None => {
                self.break_sequence();
                assert(self@ =~= before.broken());
                BufferOutcome::Ignored
            },
            Some(state) => {
                assert(before.undo.last() == state@);
                assert(self@.undo =~= before.undo.drop_last());
                assert(saved_ok(before.undo[before.undo.len() - 1]));
                self.text = state.text;
                self.cursor = state.cursor;
                self.atoms = state.atoms;
                self.anchor = None;
                self.desired = None;
                self.last_action = Action::Other;
                self.last_yank = None;
                assert(self@ =~= before.undone().0);
                assert forall|i: int| 0 <= i < self@.undo.len() implies saved_ok(
                    #[trigger] self@.undo[i],
                ) by {
                    assert(self@.undo[i] == before.undo[i]);
                }
                BufferOutcome::Changed
            },
        }
    }

    /// Replaces a range of the text, shifting the atoms behind the edit and
    /// dropping any atom the edit tears through. Offsets into the text are
    /// left to the caller.
    pub fn splice(&mut self, start: usize, end: usize, insert: &str)
        requires
            old(self)@.settled(),
            start <= end,
            boundary(old(self)@.bytes, start as int),
            boundary(old(self)@.bytes, end as int),
        ensures
            final(self)@.settled(),
            final(self)@ == old(self)@.spliced(start as int, end as int, utf8(insert@)),
            final(self)@.bytes.len() <= usize::MAX,
            boundary(final(self)@.bytes, start as int),
            boundary(final(self)@.bytes, start + utf8(insert@).len()),
            forall|at: int|
                at <= start ==> (#[trigger] boundary(final(self)@.bytes, at) <==> boundary(
                    old(self)@.bytes,
                    at,
                )),
            forall|at: int|
                at >= end ==> (#[trigger] boundary(old(self)@.bytes, at) <==> boundary(
                    final(self)@.bytes,
                    at - (end - start) + utf8(insert@).len(),
                )),
            forall|i: int|
                0 <= i < final(self)@.atoms.len() ==> survives(
                    #[trigger] final(self)@.atoms[i],
                    start as int,
                    start + utf8(insert@).len(),
                ),
    {
        let ghost before = self@;
        let ghost text = self.text@;
        let inserted: usize = byte_len(insert);
        let length: usize = byte_len(self.text.as_str());
        let result: String = splice_text(self.text.as_str(), start, end, insert);
        let after: usize = byte_len(result.as_str());
        proof {
            splicing_keeps_atoms(
                text,
                result@,
                insert@,
                start as int,
                end as int,
                before.atoms,
            );
            spliced_boundaries(text, result@, insert@, start as int, end as int, start as int);
            spliced_boundaries(text, result@, insert@, start as int, end as int, end as int);
            assert forall|at: int| at <= start implies (#[trigger] boundary(utf8(result@), at)
                <==> boundary(before.bytes, at)) by {
                spliced_boundaries(text, result@, insert@, start as int, end as int, at);
            }
            assert forall|at: int| at >= end implies (#[trigger] boundary(before.bytes, at)
                <==> boundary(utf8(result@), at - (end - start) + inserted)) by {
                spliced_boundaries(text, result@, insert@, start as int, end as int, at);
            }
            assert forall|i: int| 0 <= i < atom_views(self.atoms).len() implies (
            #[trigger] atom_views(self.atoms)[i]).start <= atom_views(self.atoms)[i].end
                && atom_views(self.atoms)[i].end - (end - start) + inserted <= usize::MAX by {
                assert(before.atoms[i] == atom_views(self.atoms)[i]);
            }
        }
        self.atoms = splice_atoms(&self.atoms, start, end, inserted);
        self.text = result;
        assert(self@ =~= before.spliced(start as int, end as int, utf8(insert@)));
    }

    /// Replaces a byte range as one undoable edit. A non-empty range that
    /// touches an atomic marker widens to the whole marker, so partial
    /// replacements can never tear a unit apart.
    pub fn replace_range(&mut self, start: usize, end: usize, replacement: &str)
        requires
            old(self).wf(),
            start <= end,
            boundary(old(self)@.bytes, start as int),
            boundary(old(self)@.bytes, end as int),
        ensures
            final(self).wf(),
            final(self)@ == old(self)@.with_replaced(start as int, end as int, utf8(replacement@)),
    {
        let ghost before = self@;
        self.snapshot();
        proof {
            widened_facts(before.bytes, before.atoms, 0, start as int, end as int);
        }
        let (from, to): (usize, usize) = if start == end {
            (start, end)
        } else {
            widen(&self.atoms, start, end)
        };
        self.splice(from, to, replacement);
        self.cursor = from + byte_len(replacement);
        self.anchor = None;
        self.desired = None;
        self.last_action = Action::Other;
        self.last_yank = None;
        assert(self@ =~= before.with_replaced(start as int, end as int, utf8(replacement@)));
    }

    /// Inserts text, made safe by the host, at the cursor in place of the
    /// selection.
    ///
    /// Text is inserted verbatim; hosts that collapse large pastes into
    /// compact chips stage them through [`EditBuffer::insert_reference`].
    pub fn insert_text(&mut self, text: &str) -> (outcome: BufferOutcome)
        requires
            old(self).wf(),
        ensures
            final(self).wf(),
            (final(self)@, outcome) == old(self)@.with_inserted(utf8(text@)),
    {
        let inserted: usize = byte_len(text);
        if inserted == 0 {
            return BufferOutcome::Ignored;
        }
        let ghost before = self@;
        self.snapshot();
        self.break_sequence();
        let (start, end): (usize, usize) = self.target();
        self.splice(start, end, text);
        self.cursor = start + inserted;
        self.anchor = None;
        self.desired = None;
        assert(self@ =~= before.with_inserted(utf8(text@)).0);
        BufferOutcome::Changed
    }
}

/// A buffer that holds nothing but its text.
pub open spec fn fresh_buffer(bytes: Seq<u8>) -> BufferView {
    BufferView {
        bytes,
        cursor: bytes.len() as int,
        anchor: None,
        copied: None,
        desired: None,
        ring: Seq::empty(),
        kill_index: 0,
        last_yank: None,
        last_action: Action::Other,
        undo: Seq::empty(),
        atoms: Seq::empty(),
        jump: None,
        layout_width: 80,
        xml: true,
        view_offset: 0,
        manual_scroll: false,
    }
}

} // verus!
