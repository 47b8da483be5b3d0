//! Edits of a text that leave no trace of their own: previews, history
//! browsing and undo past a trigger.

use vstd::prelude::*;
use vstd::slice::*;
use vstd::string::*;

use crate::atoms::atoms_new;
use crate::buffer::{Action, BufferOutcome, BufferView, EditBuffer, SavedView};
use crate::strings::{at_boundary, boundary, byte_len, ends_are_boundaries, utf8};

verus! {

/// Whether `bytes` is `before`, a start of `transient` and `after`.
pub open spec fn partly_typed(
    bytes: Seq<u8>,
    before: Seq<u8>,
    after: Seq<u8>,
    transient: Seq<u8>,
) -> bool {
    let typed = bytes.len() - before.len() - after.len();
    &&& typed >= 0
    &&& bytes.subrange(0, before.len() as int) == before
    &&& bytes.subrange(bytes.len() - after.len(), bytes.len() as int) == after
    &&& typed <= transient.len()
    &&& bytes.subrange(before.len() as int, before.len() + typed) == transient.subrange(0, typed)
}

/// The saved states without the last ones that only hold a partly typed
/// `transient` more.
pub open spec fn without_typed(
    undo: Seq<SavedView>,
    before: Seq<u8>,
    after: Seq<u8>,
    transient: Seq<u8>,
) -> Seq<SavedView>
    decreases undo.len(),
{
    if undo.len() > 0 && partly_typed(undo.last().bytes, before, after, transient) {
        without_typed(undo.drop_last(), before, after, transient)
    } else {
        undo
    }
}

impl BufferView {
    /// Whether a range may be cut from the text.
    pub open spec fn cuts(self, start: int, end: int) -> bool {
        &&& start <= end
        &&& boundary(self.bytes, start)
        &&& boundary(self.bytes, end)
    }

    /// The buffer with a volatile range replaced, and the new range. A caret
    /// outside the range keeps its place.
    pub open spec fn transiently_replaced(self, start: int, end: int, insert: Seq<u8>) -> (
        Self,
        (int, int),
    ) {
        let (from, to) = if self.cuts(start, end) {
            (start, end)
        } else {
            (self.cursor, self.cursor)
        };
        let behind = from + insert.len();
        let cursor = if from == to && self.cursor == from {
            behind
        } else if self.cursor <= from {
            self.cursor
        } else if self.cursor >= to {
            self.cursor - (to - from) + insert.len()
        } else {
            behind
        };
        (
            BufferView {
                cursor,
                anchor: None,
                desired: None,
                ..self.spliced(from, to, insert).broken()
            },
            (from, behind),
        )
    }

    /// The buffer with a volatile range replaced as one undoable edit.
    pub open spec fn committed(self, start: int, end: int, insert: Seq<u8>) -> Self {
        let cleared = self.transiently_replaced(start, end, Seq::empty()).0;
        if insert.len() == 0 {
            cleared
        } else {
            BufferView {
                cursor: if cleared.cursor >= start {
                    cleared.cursor + insert.len()
                } else {
                    cleared.cursor
                },
                anchor: None,
                desired: None,
                ..cleared.saved().spliced(start, start, insert).broken()
            }
        }
    }

    /// The buffer after an undo that passes over a partly typed `transient`.
    pub open spec fn undone_past(self, transient: Seq<u8>) -> (Self, BufferOutcome) {
        (BufferView {
            undo: without_typed(
                self.undo,
                self.bytes.subrange(0, self.cursor),
                self.bytes.subrange(self.cursor, self.bytes.len() as int),
                transient,
            ),
            ..self
        }).undone()
    }

    /// The buffer with other text, and nothing to undo.
    pub open spec fn externally_replaced(self, bytes: Seq<u8>, cursor_at_start: bool) -> Self {
        BufferView {
            bytes,
            atoms: Seq::empty(),
            cursor: if cursor_at_start {
                0
            } else {
                bytes.len() as int
            },
            undo: Seq::empty(),
            anchor: None,
            desired: None,
            view_offset: 0,
            manual_scroll: false,
            ..self.broken()
        }
    }
}

/// Whether the bytes of `a` from `from` up to `to` are those of `b` from
/// `other` on.
fn same_run(a: &[u8], from: usize, to: usize, b: &[u8], other: usize) -> (same: bool)
    requires
        from <= to <= a.len(),
        other + (to - from) <= b.len(),
    ensures
        same == (a@.subrange(from as int, to as int) == b@.subrange(
            other as int,
            other + (to - from),
        )),
{
    let mut at: usize = from;
    while at < to
        invariant
            from <= at <= to <= a.len(),
            other + (to - from) <= b.len(),
            forall|i: int| from <= i < at ==> a@[i] == b@[other + (i - from)],
        decreases to - at,
    {
        if a[at] != b[other + (at - from)] {
            proof {
                let left = a@.subrange(from as int, to as int);
                let right = b@.subrange(other as int, other + (to - from));
                assert(left[at - from] != right[at - from]);
            }
            return false;
        }
        at += 1;
    }
    assert(a@.subrange(from as int, to as int) =~= b@.subrange(other as int, other + (to - from)));
    true
}

/// Whether `saved` is the text with a start of `transient` typed at `cursor`.
fn is_partly_typed(saved: &str, text: &str, cursor: usize, transient: &str) -> (yes: bool)
    requires
        cursor <= utf8(text@).len(),
    ensures
        yes == partly_typed(
            utf8(saved@),
            utf8(text@).subrange(0, cursor as int),
            utf8(text@).subrange(cursor as int, utf8(text@).len() as int),
            utf8(transient@),
        ),
{
    let bytes: &[u8] = saved.as_bytes();
    let now: &[u8] = text.as_bytes();
    let trigger: &[u8] = transient.as_bytes();
    let length: usize = now.len();
    if bytes.len() < length {
        return false;
    }
    let typed: usize = bytes.len() - length;
    if typed > trigger.len() {
        return false;
    }
    same_run(bytes, 0, cursor, now, 0) && same_run(
        bytes,
        cursor + typed,
        bytes.len(),
        now,
        cursor,
    ) && same_run(bytes, cursor, cursor + typed, trigger, 0)
}

impl EditBuffer {
    /// Moves the cursor `offset` bytes on, where that is a character boundary.
    pub fn restore_cursor_offset(&mut self, offset: usize)
        requires
            old(self).wf(),
        ensures
            final(self).wf(),
            ({
                let at = crate::motion::clamped(
                    old(self)@.cursor + offset,
                    0,
                    old(self)@.bytes.len() as int,
                );
                final(self)@ == (BufferView {
                    cursor: if boundary(old(self)@.bytes, at) {
                        at
                    } else {
                        old(self)@.cursor
                    },
                    ..old(self)@
                })
            }),
    {
        let length: usize = byte_len(self.text.as_str());
        let cursor: usize = if offset > length - self.cursor {
            length
        } else {
            self.cursor + offset
        };
        if at_boundary(self.text.as_str(), cursor) {
            self.cursor = cursor;
        }
    }

    /// Replaces a transient range without recording an undo snapshot.
    ///
    /// Streaming speech previews use this to replace one volatile span while
    /// preserving a caret before or after that span.
    pub fn replace_transient_range(&mut self, start: usize, end: usize, replacement: &str) -> (range:
        (usize, usize))
        requires
            old(self).wf(),
        ensures
            final(self).wf(),
            (final(self)@, (range.0 as int, range.1 as int)) == old(self)@.transiently_replaced(
                start as int,
                end as int,
                utf8(replacement@),
            ),
            range.0 <= range.1,
            boundary(final(self)@.bytes, range.0 as int),
            boundary(final(self)@.bytes, range.1 as int),
    {
        let ghost before = self@;
        let valid: bool = start <= end && at_boundary(self.text.as_str(), start) && at_boundary(
            self.text.as_str(),
            end,
        );
        let (from, to): (usize, usize) = if valid {
            (start, end)
        } else {
            (self.cursor, self.cursor)
        };
        let prior: usize = self.cursor;
        let inserted: usize = byte_len(replacement);
        assert(boundary(before.bytes, prior as int));
        self.splice(from, to, replacement);
        let behind: usize = from + inserted;
        let length: usize = byte_len(self.text.as_str());
        self.cursor = if from == to && prior == from {
            behind
        } else if prior <= from {
            assert(boundary(self@.bytes, prior as int));
            prior
        } else if prior >= to {
            assert(boundary(self@.bytes, prior - (to - from) + inserted));
            (prior - (to - from)) + inserted
        } else {
            behind
        };
        self.anchor = None;
        self.desired = None;
        self.last_action = Action::Other;
        self.last_yank = None;
        assert(self@ =~= before.transiently_replaced(
            start as int,
            end as int,
            utf8(replacement@),
        ).0);
        (from, behind)
    }

    /// Replaces a volatile range with one undoable committed edit.
    pub fn commit_transient_range(&mut self, start: usize, end: usize, replacement: &str)
        requires
            old(self).wf(),
            boundary(old(self)@.bytes, start as int),
        ensures
            final(self).wf(),
            final(self)@ == old(self)@.committed(start as int, end as int, utf8(replacement@)),
    {
        let ghost before = self@;
        proof {
            reveal_strlit("");
            assert(utf8(""@) =~= Seq::<u8>::empty());
        }
        let ghost text = self.text@;
        let _ = self.replace_transient_range(start, end, "");
        proof {
            let (from, to) = if before.cuts(start as int, end as int) {
                (start as int, end as int)
            } else {
                (before.cursor, before.cursor)
            };
            crate::atoms::spliced_boundaries(text, self.text@, ""@, from, to, start as int);
            crate::atoms::spliced_boundaries(text, self.text@, ""@, from, to, from);
        }
        let inserted: usize = byte_len(replacement);
        if inserted == 0 {
            return;
        }
        let prior: usize = self.cursor;
        self.snapshot();
        let ghost saved = self@;
        assert(boundary(saved.bytes, prior as int));
        self.splice(start, start, replacement);
        let length: usize = byte_len(self.text.as_str());
        if prior >= start {
            assert(boundary(self@.bytes, prior + inserted));
            self.cursor = prior + inserted;
        } else {
            assert(boundary(self@.bytes, prior as int));
        }
        self.anchor = None;
        self.desired = None;
        self.last_action = Action::Other;
        self.last_yank = None;
        assert(self@ =~= before.committed(start as int, end as int, utf8(replacement@)));
    }

    /// Undoes the last meaningful edit while ignoring `transient` text that
    /// was just removed at the cursor: every undo snapshot that only differs
    /// from the current text by a partially typed `transient` is discarded
    /// first, so a `#undo` trigger never counts as the edit being undone.
    pub fn undo_past_transient(&mut self, transient: &str) -> (outcome: BufferOutcome)
        requires
            old(self).wf(),
        ensures
            final(self).wf(),
            (final(self)@, outcome) == old(self)@.undone_past(utf8(transient@)),
    {
        let ghost before = self@;
        let ghost head = before.bytes.subrange(0, before.cursor);
        let ghost tail = before.bytes.subrange(before.cursor, before.bytes.len() as int);
        loop
            invariant
                self.wf(),
                self@ == (BufferView { undo: self@.undo, ..before }),
                head == before.bytes.subrange(0, before.cursor),
                tail == before.bytes.subrange(before.cursor, before.bytes.len() as int),
                without_typed(before.undo, head, tail, utf8(transient@)) == without_typed(
                    self@.undo,
                    head,
                    tail,
                    utf8(transient@),
                ),
            ensures
                self@.undo == without_typed(before.undo, head, tail, utf8(transient@)),
            decreases self.undo.len(),
        {
            let count: usize = self.undo.len();
            assert(self@.undo.len() == count);
            if count == 0 {
                break;
            }
            assert(self@.undo.last() == self.undo@[count - 1]@);
            if !is_partly_typed(
                self.undo[count - 1].text.as_str(),
                self.text.as_str(),
                self.cursor,
                transient,
            ) {
                break;
            }
            let ghost longer = self@.undo;
            let _ = self.undo.pop();
            assert(self@.undo =~= longer.drop_last());
            assert(self@ =~= (BufferView { undo: self@.undo, ..before }));
        }
        self.undo()
    }

    /// Replaces text without creating an undo entry, for history browsing. The
    /// host made the text safe.
    pub fn replace_external(&mut self, text: &str, cursor_at_start: bool)
        requires
            old(self).wf(),
        ensures
            final(self).wf(),
            final(self)@ == old(self)@.externally_replaced(utf8(text@), cursor_at_start),
    {
        let ghost before = self@;
        proof {
            ends_are_boundaries(text@);
        }
        self.text = text.to_owned();
        self.atoms = atoms_new();
        self.cursor = if cursor_at_start {
            0
        } else {
            byte_len(text)
        };
        self.undo = Vec::new();
        self.anchor = None;
        self.desired = None;
        self.view_offset = 0;
        self.manual_scroll = false;
        self.last_action = Action::Other;
        self.last_yank = None;
        assert(self@ =~= before.externally_replaced(utf8(text@), cursor_at_start));
    }
}

} // verus!
