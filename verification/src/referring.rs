//! What holds of references in a text: what they stand for, how edits move and
//! take them, and what is left of volatile text.

use vstd::prelude::*;

use crate::atoms::{
    apart, atoms_ok, filter_keeps, shifted, spliced_atoms, spliced_bytes, survives, widened,
    AtomView,
};
use crate::buffer::{BufferView, SavedView};
use crate::references::{expanded, starting};
use crate::strings::utf8;
use crate::transient::{partly_typed, without_typed};

verus! {

/// What is found starting at a byte.
proof fn starts_are_found(bytes: Seq<u8>, atoms: Seq<AtomView>, index: int, at: int)
    requires
        atoms_ok(bytes, atoms),
        0 <= index <= atoms.len(),
    ensures
        match starting(atoms, index, at) {
            Some(atom) => exists|k: int|
                index <= k < atoms.len() && #[trigger] atoms[k] == atom && atom.start == at,
            None => forall|k: int|
                index <= k < atoms.len() ==> (#[trigger] atoms[k]).start != at,
        },
    decreases atoms.len() - index,
{
    if index < atoms.len() && atoms[index].start != at {
        starts_are_found(bytes, atoms, index + 1, at);
    }
}

/// Text outside the references is kept as it is.
pub proof fn text_outside_references_is_kept(
    bytes: Seq<u8>,
    atoms: Seq<AtomView>,
    from: int,
    to: int,
)
    requires
        atoms_ok(bytes, atoms),
        0 <= from <= to <= bytes.len(),
        forall|k: int|
            #![trigger atoms[k]]
            0 <= k < atoms.len() ==> atoms[k].end <= from || to <= atoms[k].start,
    ensures
        expanded(bytes, atoms, from) == bytes.subrange(from, to) + expanded(bytes, atoms, to),
    decreases to - from,
{
    if from < to {
        starts_are_found(bytes, atoms, 0, from);
        text_outside_references_is_kept(bytes, atoms, from + 1, to);
        assert(bytes.subrange(from, to) =~= seq![bytes[from]] + bytes.subrange(from + 1, to));
        assert(expanded(bytes, atoms, from) =~= bytes.subrange(from, to) + expanded(
            bytes,
            atoms,
            to,
        ));
    } else {
        assert(bytes.subrange(from, to) =~= Seq::empty());
        assert(expanded(bytes, atoms, from) =~= Seq::<u8>::empty() + expanded(bytes, atoms, to));
    }
}

/// A reference gives way to its payload, and nothing is left of its marker.
pub proof fn references_give_way_to_their_payloads(bytes: Seq<u8>, atoms: Seq<AtomView>, k: int)
    requires
        atoms_ok(bytes, atoms),
        0 <= k < atoms.len(),
    ensures
        expanded(bytes, atoms, atoms[k].start) == utf8(atoms[k].payload) + expanded(
            bytes,
            atoms,
            atoms[k].end,
        ),
{
    starts_are_found(bytes, atoms, 0, atoms[k].start);
    let atom = starting(atoms, 0, atoms[k].start)->0;
    let found = choose|i: int| 0 <= i < atoms.len() && #[trigger] atoms[i] == atom;
    if found != k {
        assert(atoms[found].start < atoms[found].end);
        assert(atoms[k].start < atoms[k].end);
    }
}

/// A text with one reference expands to what stands before it, its payload, and
/// what stands behind; a text with none to itself.
pub proof fn single_references_expand_in_place(bytes: Seq<u8>, atom: AtomView)
    requires
        atoms_ok(bytes, seq![atom]),
    ensures
        expanded(bytes, seq![atom], 0) == bytes.subrange(0, atom.start) + utf8(atom.payload)
            + bytes.subrange(atom.end, bytes.len() as int),
        expanded(bytes, Seq::empty(), 0) == bytes,
{
    let atoms = seq![atom];
    assert(atoms[0] == atom);
    text_outside_references_is_kept(bytes, atoms, 0, atom.start);
    references_give_way_to_their_payloads(bytes, atoms, 0);
    text_outside_references_is_kept(bytes, atoms, atom.end, bytes.len() as int);
    let none = Seq::<AtomView>::empty();
    assert(atoms_ok(bytes, none));
    text_outside_references_is_kept(bytes, none, 0, bytes.len() as int);
    assert(bytes.subrange(0, bytes.len() as int) =~= bytes);
    assert(expanded(bytes, none, 0) =~= bytes);
    assert(expanded(bytes, atoms, 0) =~= bytes.subrange(0, atom.start) + utf8(atom.payload)
        + bytes.subrange(atom.end, bytes.len() as int));
}

/// An edit keeps every reference it does not tear, over the same text as
/// before: those in front stay, those behind move along with their text. No
/// other reference is left.
pub proof fn edits_keep_references_over_their_text(
    bytes: Seq<u8>,
    atoms: Seq<AtomView>,
    start: int,
    end: int,
    insert: Seq<u8>,
    k: int,
)
    requires
        atoms_ok(bytes, atoms),
        0 <= start <= end <= bytes.len(),
        0 <= k < atoms.len(),
    ensures
        ({
            let after = spliced_atoms(atoms, start, end, insert.len() as int);
            let text = spliced_bytes(bytes, start, end, insert);
            let atom = atoms[k];
            &&& atom.end <= start ==> after.contains(atom) && text.subrange(atom.start, atom.end)
                == bytes.subrange(atom.start, atom.end)
            &&& atom.start >= end ==> {
                let distance = insert.len() - (end - start);
                let moved = AtomView {
                    start: atom.start + distance,
                    end: atom.end + distance,
                    payload: atom.payload,
                };
                after.contains(moved) && text.subrange(moved.start, moved.end) == bytes.subrange(
                    atom.start,
                    atom.end,
                )
            }
            &&& after.len() <= atoms.len()
            &&& forall|i: int|
                #![trigger after[i]]
                0 <= i < after.len() ==> exists|j: int|
                    0 <= j < atoms.len() && (#[trigger] atoms[j]).payload == after[i].payload && (
                    atoms[j].end <= start && after[i] == atoms[j] || atoms[j].start >= end
                        && after[i].start == atoms[j].start + insert.len() - (end - start)
                        && after[i].end == atoms[j].end + insert.len() - (end - start))
        }),
{
    let after = spliced_atoms(atoms, start, end, insert.len() as int);
    let keep = |atom: AtomView| survives(atom, start, end);
    let shift = |atom: AtomView| shifted(atom, start, end, insert.len() as int);
    let kept = atoms.filter(keep);
    let there = |atom: AtomView| atoms.contains(atom);
    atoms.lemma_filter_len(keep);
    filter_keeps(atoms, keep, there);
    assert(after == kept.map_values(shift));
    let text = spliced_bytes(bytes, start, end, insert);
    let atom = atoms[k];
    if atom.end <= start || atom.start >= end {
        atoms.lemma_filter_contains(keep, k);
        assert(kept.contains(atom));
        let i = choose|i: int| 0 <= i < kept.len() && kept[i] == atom;
        assert(after[i] == shift(atom));
        if atom.end <= start {
            assert(atom.start < atom.end);
            assert(after[i] == atom);
            assert(text.subrange(atom.start, atom.end) =~= bytes.subrange(atom.start, atom.end));
        } else {
            let distance = insert.len() - (end - start);
            assert(text.subrange(atom.start + distance, atom.end + distance) =~= bytes.subrange(
                atom.start,
                atom.end,
            ));
        }
    }
    assert forall|i: int| #![trigger after[i]] 0 <= i < after.len() implies exists|j: int|
        0 <= j < atoms.len() && (#[trigger] atoms[j]).payload == after[i].payload && (atoms[j].end
            <= start && after[i] == atoms[j] || atoms[j].start >= end && after[i].start
            == atoms[j].start + insert.len() - (end - start) && after[i].end == atoms[j].end
            + insert.len() - (end - start)) by {
        assert(keep(kept[i]));
        assert(there(kept[i]));
        let j = choose|j: int| 0 <= j < atoms.len() && atoms[j] == kept[i];
        assert(after[i] == shift(atoms[j]));
    }
}

/// A range grows to the whole of every reference it touches, tears none, and
/// grows no further: every range around it that tears none holds it.
pub proof fn ranges_grow_to_whole_references(
    bytes: Seq<u8>,
    atoms: Seq<AtomView>,
    at: int,
    start: int,
    end: int,
    from: int,
    to: int,
)
    requires
        atoms_ok(bytes, atoms),
        0 <= at <= atoms.len(),
        from <= start <= end <= to,
        forall|k: int|
            #![trigger atoms[k]]
            0 <= k < at ==> atoms[k].end <= start || end <= atoms[k].start || start
                <= atoms[k].start && atoms[k].end <= end,
        forall|k: int|
            #![trigger atoms[k]]
            0 <= k < atoms.len() ==> atoms[k].end <= from || to <= atoms[k].start || from
                <= atoms[k].start && atoms[k].end <= to,
    ensures
        ({
            let (low, high) = widened(atoms, at, start, end);
            &&& from <= low <= start
            &&& end <= high <= to
            &&& forall|k: int|
                #![trigger atoms[k]]
                0 <= k < atoms.len() ==> atoms[k].end <= low || high <= atoms[k].start || low
                    <= atoms[k].start && atoms[k].end <= high
        }),
    decreases atoms.len() - at,
{
    if at < atoms.len() {
        let atom = atoms[at];
        let low = if atom.start < start {
            atom.start
        } else {
            start
        };
        let high = if atom.end > end {
            atom.end
        } else {
            end
        };
        if start < atom.end && end > atom.start {
            assert forall|k: int| #![trigger atoms[k]] 0 <= k < at + 1 implies atoms[k].end <= low
                || high <= atoms[k].start || low <= atoms[k].start && atoms[k].end <= high by {
                if k < at {
                    assert(apart(atoms[k], atoms[at]));
                }
            }
            ranges_grow_to_whole_references(bytes, atoms, at + 1, low, high, from, to);
        } else {
            ranges_grow_to_whole_references(bytes, atoms, at + 1, start, end, from, to);
        }
    }
}

/// Whether a text is another with a start of `typed` put in at `at`.
pub open spec fn holds_start_of(text: Seq<u8>, plain: Seq<u8>, at: int, typed: Seq<u8>) -> bool {
    exists|count: int|
        0 <= count <= typed.len() && text == plain.subrange(0, at) + #[trigger] typed.subrange(
            0,
            count,
        ) + plain.subrange(at, plain.len() as int)
}

/// Where a saved state holds a partly typed trigger.
proof fn partly_typed_is_a_start(text: Seq<u8>, plain: Seq<u8>, at: int, typed: Seq<u8>)
    requires
        0 <= at <= plain.len(),
    ensures
        partly_typed(
            text,
            plain.subrange(0, at),
            plain.subrange(at, plain.len() as int),
            typed,
        ) <==> holds_start_of(text, plain, at, typed),
{
    let before = plain.subrange(0, at);
    let after = plain.subrange(at, plain.len() as int);
    if partly_typed(text, before, after, typed) {
        let count = text.len() - before.len() - after.len();
        assert(text =~= text.subrange(0, before.len() as int) + text.subrange(
            before.len() as int,
            before.len() + count,
        ) + text.subrange(text.len() - after.len(), text.len() as int));
        assert(text == before + typed.subrange(0, count) + after);
    }
    if holds_start_of(text, plain, at, typed) {
        let count = choose|count: int|
            0 <= count <= typed.len() && text == plain.subrange(0, at) + #[trigger] typed.subrange(
                0,
                count,
            ) + plain.subrange(at, plain.len() as int);
        assert(text.subrange(0, before.len() as int) =~= before);
        assert(text.subrange(text.len() - after.len(), text.len() as int) =~= after);
        assert(text.subrange(before.len() as int, before.len() + count) =~= typed.subrange(
            0,
            count,
        ));
    }
}

/// The saved states that stay, and those that go.
proof fn typed_states_go(undo: Seq<SavedView>, plain: Seq<u8>, at: int, typed: Seq<u8>)
    requires
        0 <= at <= plain.len(),
    ensures
        ({
            let left = without_typed(
                undo,
                plain.subrange(0, at),
                plain.subrange(at, plain.len() as int),
                typed,
            );
            &&& left.len() <= undo.len()
            &&& left == undo.subrange(0, left.len() as int)
            &&& left.len() > 0 ==> !holds_start_of(left.last().bytes, plain, at, typed)
            &&& forall|i: int|
                #![trigger undo[i]]
                left.len() <= i < undo.len() ==> holds_start_of(undo[i].bytes, plain, at, typed)
        }),
    decreases undo.len(),
{
    if undo.len() > 0 {
        partly_typed_is_a_start(undo.last().bytes, plain, at, typed);
        if holds_start_of(undo.last().bytes, plain, at, typed) {
            typed_states_go(undo.drop_last(), plain, at, typed);
            let left = without_typed(
                undo,
                plain.subrange(0, at),
                plain.subrange(at, plain.len() as int),
                typed,
            );
            assert(left =~= undo.subrange(0, left.len() as int));
            assert forall|i: int| #![trigger undo[i]] left.len() <= i < undo.len() implies
                holds_start_of(undo[i].bytes, plain, at, typed) by {
                if i < undo.len() - 1 {
                    assert(undo.drop_last()[i] == undo[i]);
                }
            }
        } else {
            assert(undo.subrange(0, undo.len() as int) =~= undo);
        }
    } else {
        assert(undo.subrange(0, 0) =~= undo);
    }
}

/// An undo past a trigger brings back the last state that holds none of it at
/// the cursor: every later one held a start of it there and is gone too.
pub proof fn undoing_passes_over_the_trigger(buffer: BufferView, trigger: Seq<u8>) -> (count: int)
    requires
        0 <= buffer.cursor <= buffer.bytes.len(),
    ensures
        0 <= count <= buffer.undo.len(),
        forall|i: int|
            #![trigger buffer.undo[i]]
            count <= i < buffer.undo.len() ==> holds_start_of(
                buffer.undo[i].bytes,
                buffer.bytes,
                buffer.cursor,
                trigger,
            ),
        count > 0 ==> !holds_start_of(
            buffer.undo[count - 1].bytes,
            buffer.bytes,
            buffer.cursor,
            trigger,
        ) && buffer.undone_past(trigger).0.bytes == buffer.undo[count - 1].bytes
            && buffer.undone_past(trigger).0.cursor == buffer.undo[count - 1].cursor
            && buffer.undone_past(trigger).0.undo == buffer.undo.subrange(0, count - 1),
        count == 0 ==> buffer.undone_past(trigger).0.bytes == buffer.bytes && buffer.undone_past(
            trigger,
        ).0.undo.len() == 0,
{
    typed_states_go(buffer.undo, buffer.bytes, buffer.cursor, trigger);
    let left = without_typed(
        buffer.undo,
        buffer.bytes.subrange(0, buffer.cursor),
        buffer.bytes.subrange(buffer.cursor, buffer.bytes.len() as int),
        trigger,
    );
    if left.len() > 0 {
        assert(left.last() == buffer.undo[left.len() - 1]);
        assert(left.drop_last() =~= buffer.undo.subrange(0, left.len() - 1));
    }
    left.len() as int
}

/// Volatile text replaces its range and nothing else; a caret in front of it
/// stays, and one behind keeps its distance from the end of the text.
pub proof fn volatile_text_replaces_its_range(
    buffer: BufferView,
    start: int,
    end: int,
    insert: Seq<u8>,
)
    requires
        buffer.cuts(start, end),
        0 <= start <= end <= buffer.bytes.len(),
        0 <= buffer.cursor <= buffer.bytes.len(),
    ensures
        ({
            let (after, range) = buffer.transiently_replaced(start, end, insert);
            &&& after.bytes == buffer.bytes.subrange(0, start) + insert + buffer.bytes.subrange(
                end,
                buffer.bytes.len() as int,
            )
            &&& after.bytes.subrange(range.0, range.1) == insert
            &&& range.0 == start
            &&& after.undo == buffer.undo
            &&& buffer.cursor < start ==> after.cursor == buffer.cursor
            &&& buffer.cursor > end ==> after.bytes.len() - after.cursor == buffer.bytes.len()
                - buffer.cursor
            &&& start < buffer.cursor < end ==> after.cursor == range.1
        }),
{
    let (after, range) = buffer.transiently_replaced(start, end, insert);
    assert(after.bytes =~= buffer.bytes.subrange(0, start) + insert + buffer.bytes.subrange(
        end,
        buffer.bytes.len() as int,
    ));
    assert(after.bytes.subrange(range.0, range.1) =~= insert);
}

} // verus!
