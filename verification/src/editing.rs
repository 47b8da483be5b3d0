//! What holds of editing as a whole: what undo and yank bring back, what
//! motions leave alone, and where references expand.

use vstd::prelude::*;

use crate::atoms::{
    all_moved_by, apart, atoms_inside, atoms_ok, holding, holding_facts, moved_by, shifted,
    spliced_atoms, spliced_boundaries, spliced_bytes, splicing_keeps_atoms, survives, touched,
    widened, widened_facts, AtomView,
};
use crate::buffer::{Action, BufferView, KillView};
use crate::input::Key;
use crate::kills::joined;
use crate::layout::{part, part_bytes, Measured};
use crate::references::{expanded, pushed_atom_ok, starting, usable_marker};
use crate::strings::{boundary, utf8};
use crate::typing::{key_extension, key_motion, Motion};

verus! {

/// Whether the state saved last, where it stands for the present text and
/// cursor, holds the present atoms too.
pub open spec fn saved_atoms_agree(buffer: BufferView) -> bool {
    buffer.undo.len() > 0 && buffer.undo.last().bytes == buffer.bytes && buffer.undo.last().cursor
        == buffer.cursor ==> buffer.undo.last().atoms == buffer.atoms
}

/// Undo takes an insertion back: text and cursor are as before, and the atoms
/// where the state saved last agrees on them.
pub proof fn undo_takes_back_insertions(buffer: BufferView, insert: Seq<u8>)
    requires
        insert.len() > 0,
    ensures
        ({
            let after = buffer.with_inserted(insert).0.undone().0;
            &&& after.bytes == buffer.bytes
            &&& after.cursor == buffer.cursor
            &&& saved_atoms_agree(buffer) ==> after.atoms == buffer.atoms
        }),
{
}

/// Undo takes a replacement back: text and cursor are as before, and the atoms
/// where the state saved last agrees on them.
pub proof fn undo_takes_back_replacements(buffer: BufferView, start: int, end: int, insert: Seq<u8>)
    ensures
        ({
            let after = buffer.with_replaced(start, end, insert).undone().0;
            &&& after.bytes == buffer.bytes
            &&& after.cursor == buffer.cursor
            &&& saved_atoms_agree(buffer) ==> after.atoms == buffer.atoms
        }),
{
}

/// Undo takes a deletion or a kill back: text and cursor are as before, and the
/// atoms where the state saved last agrees on them.
pub proof fn undo_takes_back_deletions(buffer: BufferView, start: int, end: int, kill: bool)
    requires
        start != end,
    ensures
        ({
            let after = buffer.with_deleted(start, end, kill).0.undone().0;
            &&& after.bytes == buffer.bytes
            &&& after.cursor == buffer.cursor
            &&& saved_atoms_agree(buffer) ==> after.atoms == buffer.atoms
        }),
{
}

/// Motions change neither text nor atoms, nor what undo and yank bring back.
pub proof fn motions_keep_the_text(buffer: BufferView, motion: Motion, measured: Measured)
    ensures
        ({
            let after = buffer.moved_by(motion, measured).0;
            &&& after.bytes == buffer.bytes
            &&& after.atoms == buffer.atoms
            &&& after.undo == buffer.undo
            &&& after.ring == buffer.ring
        }),
{
}

/// Whether a position lies inside no reference.
pub open spec fn clear_of_references(atoms: Seq<AtomView>, at: int) -> bool {
    forall|i: int|
        0 <= i < atoms.len() ==> at <= (#[trigger] atoms[i]).start || at >= atoms[i].end
}

/// Where no atom holds a position, it lies inside none.
proof fn unheld_positions_are_clear(atoms: Seq<AtomView>, at: int, index: int)
    requires
        0 <= at <= atoms.len(),
        holding(atoms, at, index) is None,
    ensures
        forall|i: int|
            at <= i < atoms.len() ==> index < (#[trigger] atoms[i]).start || index >= atoms[i].end,
    decreases atoms.len() - at,
{
    if at < atoms.len() {
        unheld_positions_are_clear(atoms, at + 1, index);
    }
}

/// A snapped position lies inside no reference.
pub proof fn snapped_positions_are_clear(buffer: BufferView, at: int, forward: bool)
    requires
        atoms_ok(buffer.bytes, buffer.atoms),
    ensures
        clear_of_references(buffer.atoms, buffer.snapped(at, forward)),
{
    let atoms = buffer.atoms;
    holding_facts(atoms, 0, at);
    match holding(atoms, 0, at) {
        Some(atom) => {
            let k = choose|i: int| 0 <= i < atoms.len() && #[trigger] atoms[i] == atom;
            let snapped = buffer.snapped(at, forward);
            assert forall|i: int| 0 <= i < atoms.len() implies snapped <= (
            #[trigger] atoms[i]).start || snapped >= atoms[i].end by {
                if i != k {
                    assert(apart(atoms[i], atoms[k]));
                }
            }
        },
        None => {
            unheld_positions_are_clear(atoms, 0, at);
        },
    }
}

/// References are crossed as one unit: a motion that starts outside of every
/// reference ends outside of every reference.
pub proof fn motions_cross_references_whole(
    buffer: BufferView,
    motion: Motion,
    measured: Measured,
)
    requires
        buffer.wf(),
        clear_of_references(buffer.atoms, buffer.cursor),
    ensures
        clear_of_references(buffer.atoms, buffer.moved_by(motion, measured).0.cursor),
{
    assert forall|at: int, forward: bool| clear_of_references(
        buffer.atoms,
        #[trigger] buffer.snapped(at, forward),
    ) by {
        snapped_positions_are_clear(buffer, at, forward);
    }
}

/// The copy stash lives exactly one key: after any key but Copy and Cut it is
/// empty.
pub proof fn copies_live_one_key(
    buffer: BufferView,
    key: Key,
    width: u16,
    page_rows: usize,
    measured: Measured,
)
    requires
        key != Key::Copy,
        key != Key::Cut,
    ensures
        buffer.handled(key, width, page_rows, measured).0.copied is None,
{
    let fresh = BufferView {
        layout_width: crate::motion::at_least_one(width),
        copied: None,
        manual_scroll: false,
        jump: None,
        ..buffer
    };
    match key_motion(key, page_rows) {
        Some(motion) => {
            motions_keep_copies(fresh, motion, measured);
            motions_keep_copies(BufferView { anchor: None, ..fresh }, motion, measured);
        },
        None => match key_extension(key) {
            Some(motion) => {
                motions_keep_copies(fresh.anchored(), motion, measured);
            },
            None => {
                commands_keep_copies(fresh, key, measured);
            },
        },
    }
}

proof fn motions_keep_copies(buffer: BufferView, motion: Motion, measured: Measured)
    ensures
        buffer.moved_by(motion, measured).0.copied == buffer.copied,
{
}

proof fn deletions_keep_copies(buffer: BufferView, start: int, end: int, kill: bool)
    ensures
        buffer.with_deleted(start, end, kill).0.copied == buffer.copied,
{
}

proof fn typing_keeps_copies(buffer: BufferView, c: char)
    ensures
        buffer.char_typed(c).0.copied == buffer.copied,
{
}

proof fn yanks_keep_copies(buffer: BufferView)
    ensures
        buffer.yanked().0.copied == buffer.copied,
        buffer.yank_popped().0.copied == buffer.copied,
{
}

proof fn line_kills_keep_copies(buffer: BufferView)
    ensures
        buffer.line_start_killed().0.copied == buffer.copied,
        buffer.line_end_killed().0.copied == buffer.copied,
{
    let start = crate::layout::line_start(buffer.bytes, buffer.cursor);
    let end = crate::layout::line_end(buffer.bytes, buffer.cursor);
    match buffer.selection() {
        Some((from, to)) => {
            deletions_keep_copies(buffer, from, to, true);
        },
        None => {
            deletions_keep_copies(buffer, start, buffer.cursor, true);
            deletions_keep_copies(buffer, start - 1, buffer.cursor, true);
            deletions_keep_copies(buffer, buffer.cursor, end, true);
            deletions_keep_copies(buffer, buffer.cursor, end + 1, true);
        },
    }
}

proof fn small_deletions_keep_copies(buffer: BufferView, measured: Measured)
    ensures
        buffer.backspaced(measured.before@).0.copied == buffer.copied,
        buffer.deleted(measured.after@).0.copied == buffer.copied,
        buffer.word_left_killed(measured.before@).0.copied == buffer.copied,
        buffer.word_right_killed(measured.after@).0.copied == buffer.copied,
{
    let at = buffer.cursor;
    match buffer.selection() {
        Some((from, to)) => {
            deletions_keep_copies(buffer, from, to, true);
            deletions_keep_copies(buffer, from, to, false);
        },
        None => {
            deletions_keep_copies(buffer, buffer.step_left(measured.before@), at, false);
            deletions_keep_copies(buffer, at, buffer.step_right(measured.after@), false);
            deletions_keep_copies(buffer, buffer.word_left(measured.before@), at, true);
            deletions_keep_copies(buffer, at, buffer.word_right(measured.after@), true);
        },
    }
}

proof fn commands_keep_copies(buffer: BufferView, key: Key, measured: Measured)
    requires
        key != Key::Copy,
        key != Key::Cut,
    ensures
        buffer.commanded(key, measured).0.copied == buffer.copied,
{
    yanks_keep_copies(buffer);
    line_kills_keep_copies(buffer);
    small_deletions_keep_copies(buffer, measured);
    typing_keeps_copies(buffer, '\n');
    typing_keeps_copies(buffer, ' ');
    if let Key::Char(c) = key {
        typing_keeps_copies(buffer, c);
    }
}

/// Widening from the atom at `at` on leaves no atom torn, where none before it
/// is.
proof fn widening_tears_nothing(
    bytes: Seq<u8>,
    atoms: Seq<AtomView>,
    at: int,
    start: int,
    end: int,
    k: int,
)
    requires
        atoms_ok(bytes, atoms),
        0 <= at <= atoms.len(),
        0 <= k < atoms.len(),
        0 <= start < end <= bytes.len(),
        boundary(bytes, start),
        boundary(bytes, end),
        k < at ==> survives(atoms[k], start, end) || start <= atoms[k].start && atoms[k].end <= end,
    ensures
        ({
            let (from, to) = widened(atoms, at, start, end);
            survives(atoms[k], from, to) || from <= atoms[k].start && atoms[k].end <= to
        }),
    decreases atoms.len() - at,
{
    if at < atoms.len() {
        let atom = atoms[at];
        if touched(atom, start, end) {
            let low = if atom.start < start {
                atom.start
            } else {
                start
            };
            let high = if atom.end > end {
                atom.end
            } else {
                end
            };
            if k != at {
                assert(apart(atoms[k], atom));
            }
            widening_tears_nothing(bytes, atoms, at + 1, low, high, k);
        } else {
            widening_tears_nothing(bytes, atoms, at + 1, start, end, k);
        }
    }
}

/// Replacements never tear a reference apart: widened, a range holds each
/// reference whole or lies clear of it.
pub proof fn widened_ranges_tear_nothing(buffer: BufferView, start: int, end: int, k: int)
    requires
        buffer.wf(),
        0 <= k < buffer.atoms.len(),
        0 <= start < end <= buffer.bytes.len(),
        boundary(buffer.bytes, start),
        boundary(buffer.bytes, end),
    ensures
        ({
            let (from, to) = buffer.widened(start, end);
            survives(buffer.atoms[k], from, to) || from <= buffer.atoms[k].start
                && buffer.atoms[k].end <= to
        }),
{
    widening_tears_nothing(buffer.bytes, buffer.atoms, 0, start, end, k);
}

/// Edits carry references along: one that the edit does not touch keeps its
/// payload and marks the same bytes, wherever they now stand.
pub proof fn edits_carry_references_along(
    buffer: BufferView,
    start: int,
    end: int,
    insert: Seq<u8>,
    k: int,
)
    requires
        buffer.wf(),
        0 <= start <= end <= buffer.bytes.len(),
        0 <= k < buffer.atoms.len(),
        survives(buffer.atoms[k], start, end),
    ensures
        ({
            let after = buffer.spliced(start, end, insert);
            let atom = buffer.atoms[k];
            let moved = shifted(atom, start, end, insert.len() as int);
            &&& after.atoms.contains(moved)
            &&& moved.payload == atom.payload
            &&& after.bytes.subrange(moved.start, moved.end) == buffer.bytes.subrange(
                atom.start,
                atom.end,
            )
        }),
{
    let after = buffer.spliced(start, end, insert);
    let atom = buffer.atoms[k];
    let size = insert.len() as int;
    let moved = shifted(atom, start, end, size);
    let keep = |other: AtomView| survives(other, start, end);
    let kept = buffer.atoms.filter(keep);
    buffer.atoms.lemma_filter_contains(keep, k);
    assert(kept.contains(atom));
    let i = choose|i: int| 0 <= i < kept.len() && kept[i] == atom;
    assert(after.atoms[i] == moved);
    assert(after.bytes.subrange(moved.start, moved.end) =~= buffer.bytes.subrange(
        atom.start,
        atom.end,
    ));
}

/// Text that merely looks like a reference is never treated as one: whatever is
/// typed, each reference comes of one that was there, with its payload.
pub proof fn typed_text_is_no_reference(
    buffer: BufferView,
    start: int,
    end: int,
    insert: Seq<u8>,
    i: int,
) -> (k: int)
    requires
        0 <= i < buffer.spliced(start, end, insert).atoms.len(),
    ensures
        0 <= k < buffer.atoms.len(),
        survives(buffer.atoms[k], start, end),
        buffer.spliced(start, end, insert).atoms[i] == shifted(
            buffer.atoms[k],
            start,
            end,
            insert.len() as int,
        ),
{
    let keep = |other: AtomView| survives(other, start, end);
    let kept = buffer.atoms.filter(keep);
    buffer.atoms.lemma_filter_pred(keep, i);
    assert(kept.contains(kept[i]));
    buffer.atoms.lemma_filter_contains_rev(keep, kept[i]);
    choose|k: int| 0 <= k < buffer.atoms.len() && buffer.atoms[k] == kept[i]
}

/// An atom that a filter keeps is one of the filtered.
proof fn filter_holds<T>(items: Seq<T>, keep: spec_fn(T) -> bool, item: T)
    ensures
        items.filter(keep).contains(item) <==> items.contains(item) && keep(item),
    decreases items.len(),
{
    reveal(Seq::filter);
    if items.len() > 0 {
        let shorter = items.drop_last();
        filter_holds(shorter, keep, item);
        let kept = shorter.filter(keep);
        let last = items.last();
        if items.contains(item) {
            let i = choose|i: int| 0 <= i < items.len() && items[i] == item;
            if i < shorter.len() {
                assert(shorter[i] == item);
            }
        }
        if shorter.contains(item) {
            let i = choose|i: int| 0 <= i < shorter.len() && shorter[i] == item;
            assert(items[i] == item);
        }
        assert(items[items.len() - 1] == last);
        if keep(last) {
            let all = kept.push(last);
            assert(all[all.len() - 1] == last);
            if kept.contains(item) {
                let i = choose|i: int| 0 <= i < kept.len() && kept[i] == item;
                assert(all[i] == item);
            }
            if all.contains(item) {
                let i = choose|i: int| 0 <= i < all.len() && all[i] == item;
                if i < kept.len() {
                    assert(kept[i] == item);
                }
            }
        }
    }
}

/// A mapped sequence holds what the map makes of its items.
proof fn mapped_holds(items: Seq<AtomView>, f: spec_fn(AtomView) -> AtomView, item: AtomView)
    ensures
        items.contains(item) ==> items.map_values(f).contains(f(item)),
        items.map_values(f).contains(item) ==> exists|source: AtomView| #[trigger]
            items.contains(source) && f(source) == item,
{
    let mapped = items.map_values(f);
    if items.contains(item) {
        let i = choose|i: int| 0 <= i < items.len() && items[i] == item;
        assert(mapped[i] == f(item));
    }
    if mapped.contains(item) {
        let i = choose|i: int| 0 <= i < mapped.len() && mapped[i] == item;
        assert(items.contains(items[i]));
    }
}

/// Atoms after a splice: those that survive, moved.
proof fn spliced_atoms_hold(
    atoms: Seq<AtomView>,
    start: int,
    end: int,
    inserted: int,
    item: AtomView,
)
    ensures
        atoms.contains(item) && survives(item, start, end) ==> spliced_atoms(
            atoms,
            start,
            end,
            inserted,
        ).contains(shifted(item, start, end, inserted)),
        spliced_atoms(atoms, start, end, inserted).contains(item) ==> exists|source: AtomView|
            #[trigger]
            atoms.contains(source) && survives(source, start, end) && shifted(
                source,
                start,
                end,
                inserted,
            ) == item,
{
    let keep = |atom: AtomView| survives(atom, start, end);
    let shift = |atom: AtomView| shifted(atom, start, end, inserted);
    let kept = atoms.filter(keep);
    filter_holds(atoms, keep, item);
    mapped_holds(kept, shift, item);
    if kept.map_values(shift).contains(item) {
        let source = choose|source: AtomView| #[trigger]
            kept.contains(source) && shift(source) == item;
        filter_holds(atoms, keep, source);
        assert(atoms.contains(source));
    }
}

/// Atoms that were cut out and put back in are the atoms from before.
proof fn cut_atoms_come_back(
    bytes: Seq<u8>,
    atoms: Seq<AtomView>,
    start: int,
    end: int,
    atom: AtomView,
)
    requires
        atoms_ok(bytes, atoms),
        0 <= start < end <= bytes.len(),
        boundary(bytes, start),
        boundary(bytes, end),
    ensures
        ({
            let (from, to) = widened(atoms, 0, start, end);
            let settled = spliced_atoms(spliced_atoms(atoms, from, to, 0), from, from, 0);
            (spliced_atoms(settled, from, from, to - from) + all_moved_by(
                atoms_inside(atoms, from, to),
                from,
            )).contains(atom) <==> atoms.contains(atom)
        }),
{
    let (from, to) = widened(atoms, 0, start, end);
    widened_facts(bytes, atoms, 0, start, end);
    let outside = spliced_atoms(atoms, from, to, 0);
    let settled = spliced_atoms(outside, from, from, 0);
    let moved = spliced_atoms(settled, from, from, to - from);
    let inside = all_moved_by(atoms_inside(atoms, from, to), from);
    let all = moved + inside;
    let within = |atom: AtomView| atom.start >= from && atom.end <= to;
    let back = |atom: AtomView| moved_by(atom, -from);
    let forth = |atom: AtomView| moved_by(atom, from);
    let kept = atoms.filter(within);
    if atoms.contains(atom) {
        let k = choose|k: int| 0 <= k < atoms.len() && atoms[k] == atom;
        widening_tears_nothing(bytes, atoms, 0, start, end, k);
        if survives(atom, from, to) {
            let first = shifted(atom, from, to, 0);
            spliced_atoms_hold(atoms, from, to, 0, atom);
            assert(outside.contains(first));
            spliced_atoms_hold(outside, from, from, 0, first);
            assert(shifted(first, from, from, 0) == first);
            spliced_atoms_hold(settled, from, from, to - from, first);
            assert(shifted(first, from, from, to - from) == atom);
            let i = choose|i: int| 0 <= i < moved.len() && moved[i] == atom;
            assert(all[i] == atom);
        } else {
            filter_holds(atoms, within, atom);
            mapped_holds(kept, back, atom);
            mapped_holds(kept.map_values(back), forth, back(atom));
            assert(forth(back(atom)) == atom);
            assert(inside.contains(atom));
            let i = choose|i: int| 0 <= i < inside.len() && inside[i] == atom;
            assert(all[moved.len() + i] == atom);
        }
    }
    if all.contains(atom) {
        let i = choose|i: int| 0 <= i < all.len() && all[i] == atom;
        if i < moved.len() {
            assert(moved[i] == atom);
            spliced_atoms_hold(settled, from, from, to - from, atom);
            let second = choose|source: AtomView| #[trigger]
                settled.contains(source) && survives(source, from, from) && shifted(
                    source,
                    from,
                    from,
                    to - from,
                ) == atom;
            spliced_atoms_hold(outside, from, from, 0, second);
            let first = choose|source: AtomView| #[trigger]
                outside.contains(source) && survives(source, from, from) && shifted(
                    source,
                    from,
                    from,
                    0,
                ) == second;
            spliced_atoms_hold(atoms, from, to, 0, first);
            let source = choose|source: AtomView| #[trigger]
                atoms.contains(source) && survives(source, from, to) && shifted(source, from, to, 0)
                    == first;
            let k = choose|k: int| 0 <= k < atoms.len() && atoms[k] == source;
            assert(atoms[k].start < atoms[k].end);
            assert(source == atom);
        } else {
            assert(inside[i - moved.len()] == atom);
            mapped_holds(kept.map_values(back), forth, atom);
            let middle = choose|source: AtomView| #[trigger]
                kept.map_values(back).contains(source) && forth(source) == atom;
            mapped_holds(kept, back, middle);
            let source = choose|source: AtomView| #[trigger]
                kept.contains(source) && back(source) == middle;
            filter_holds(atoms, within, source);
            assert(source == atom);
        }
    }
}

/// What a kill and a yank make of a buffer.
proof fn kill_then_yank(buffer: BufferView, start: int, end: int)
    requires
        buffer.last_action != Action::Kill,
        start != end,
    ensures
        ({
            let (from, to) = buffer.widened(start, end);
            let after = buffer.with_deleted(start, end, true).0.yanked().0;
            let none = Seq::<u8>::empty();
            let cut = spliced_bytes(buffer.bytes, from, to, none);
            let settled = spliced_atoms(
                spliced_atoms(buffer.atoms, from, to, 0),
                from,
                from,
                0,
            );
            &&& after.bytes == spliced_bytes(
                spliced_bytes(cut, from, from, none),
                from,
                from,
                buffer.bytes.subrange(from, to),
            )
            &&& after.atoms == spliced_atoms(
                settled,
                from,
                from,
                buffer.bytes.subrange(from, to).len() as int,
            ) + all_moved_by(atoms_inside(buffer.atoms, from, to), from)
        }),
{
    let (from, to) = buffer.widened(start, end);
    let cut = buffer.with_deleted(start, end, true).0;
    assert(cut.ring.len() > 0);
    assert(cut.ring[0] == buffer.cut_out(from, to));
    assert(cut.target() == (from, from));
}

/// Yanking brings a killed range back: the text is as before, and so are the
/// atoms in it.
pub proof fn yank_brings_kills_back(buffer: BufferView, start: int, end: int)
    requires
        buffer.wf(),
        buffer.last_action != Action::Kill,
        0 <= start < end <= buffer.bytes.len(),
        boundary(buffer.bytes, start),
        boundary(buffer.bytes, end),
    ensures
        ({
            let after = buffer.with_deleted(start, end, true).0.yanked().0;
            &&& after.bytes == buffer.bytes
            &&& forall|atom: AtomView|
                #![trigger after.atoms.contains(atom)]
                #![trigger buffer.atoms.contains(atom)]
                after.atoms.contains(atom) <==> buffer.atoms.contains(atom)
        }),
{
    let (from, to) = buffer.widened(start, end);
    widened_facts(buffer.bytes, buffer.atoms, 0, start, end);
    kill_then_yank(buffer, start, end);
    let after = buffer.with_deleted(start, end, true).0.yanked().0;
    let none = Seq::<u8>::empty();
    let cut = spliced_bytes(buffer.bytes, from, to, none);
    assert(spliced_bytes(cut, from, from, none) =~= cut);
    assert(after.bytes =~= buffer.bytes);
    assert forall|atom: AtomView|
        #![trigger after.atoms.contains(atom)]
        #![trigger buffer.atoms.contains(atom)]
        after.atoms.contains(atom) <==> buffer.atoms.contains(atom) by {
        cut_atoms_come_back(buffer.bytes, buffer.atoms, start, end, atom);
    }
}

/// Atoms after bytes were put in between them: those in front stay, those
/// behind move along.
proof fn put_in_holds(atoms: Seq<AtomView>, at: int, size: int, atom: AtomView)
    requires
        0 <= size,
        forall|a: AtomView| #[trigger]
            atoms.contains(a) ==> a.start < a.end && survives(a, at, at),
    ensures
        spliced_atoms(spliced_atoms(atoms, at, at, 0), at, at, size).contains(atom) <==> (atom.end
            <= at && atoms.contains(atom)) || (atom.start >= at + size && atoms.contains(
            moved_by(atom, -size),
        )),
{
    let settled = spliced_atoms(atoms, at, at, 0);
    let all = spliced_atoms(settled, at, at, size);
    if all.contains(atom) {
        spliced_atoms_hold(settled, at, at, size, atom);
        let second = choose|source: AtomView| #[trigger]
            settled.contains(source) && survives(source, at, at) && shifted(source, at, at, size)
                == atom;
        spliced_atoms_hold(atoms, at, at, 0, second);
        let first = choose|source: AtomView| #[trigger]
            atoms.contains(source) && survives(source, at, at) && shifted(source, at, at, 0)
                == second;
        assert(first == second);
        assert(moved_by(moved_by(first, size), -size) == first);
    }
    if atom.end <= at && atoms.contains(atom) {
        spliced_atoms_hold(atoms, at, at, 0, atom);
        assert(shifted(atom, at, at, 0) == atom);
        spliced_atoms_hold(settled, at, at, size, atom);
        assert(shifted(atom, at, at, size) == atom);
    }
    let back = moved_by(atom, -size);
    if atom.start >= at + size && atoms.contains(back) {
        spliced_atoms_hold(atoms, at, at, 0, back);
        assert(shifted(back, at, at, 0) == back);
        spliced_atoms_hold(settled, at, at, size, back);
        assert(shifted(back, at, at, size) == atom);
    }
}

/// Atoms after bytes were taken out.
proof fn taken_out_holds(atoms: Seq<AtomView>, from: int, to: int, atom: AtomView)
    requires
        from <= to,
        forall|a: AtomView| #[trigger] atoms.contains(a) ==> a.start < a.end,
    ensures
        spliced_atoms(atoms, from, to, 0).contains(atom) <==> (atom.end <= from && atoms.contains(
            atom,
        )) || (atom.start >= from && atoms.contains(moved_by(atom, to - from))),
{
    let all = spliced_atoms(atoms, from, to, 0);
    if all.contains(atom) {
        spliced_atoms_hold(atoms, from, to, 0, atom);
        let source = choose|source: AtomView| #[trigger]
            atoms.contains(source) && survives(source, from, to) && shifted(source, from, to, 0)
                == atom;
        if source.start >= to {
            assert(moved_by(atom, to - from) == source);
        } else {
            assert(atom == source);
        }
    }
    if atom.end <= from && atoms.contains(atom) {
        spliced_atoms_hold(atoms, from, to, 0, atom);
        assert(shifted(atom, from, to, 0) == atom);
    }
    let ahead = moved_by(atom, to - from);
    if atom.start >= from && atoms.contains(ahead) {
        spliced_atoms_hold(atoms, from, to, 0, ahead);
        assert(shifted(ahead, from, to, 0) == atom);
    }
}

/// Atoms counted from elsewhere.
proof fn moved_holds(atoms: Seq<AtomView>, distance: int, atom: AtomView)
    ensures
        all_moved_by(atoms, distance).contains(atom) <==> atoms.contains(
            moved_by(atom, -distance),
        ),
{
    let shift = |a: AtomView| moved_by(a, distance);
    mapped_holds(atoms, shift, atom);
    mapped_holds(atoms, shift, moved_by(atom, -distance));
    assert(moved_by(moved_by(atom, -distance), distance) == atom);
    if all_moved_by(atoms, distance).contains(atom) {
        let source = choose|source: AtomView| #[trigger]
            atoms.contains(source) && shift(source) == atom;
        assert(moved_by(atom, -distance) == source);
    }
}

/// Atoms inside a range.
proof fn inside_holds(atoms: Seq<AtomView>, from: int, to: int, atom: AtomView)
    ensures
        atoms_inside(atoms, from, to).contains(atom) <==> atoms.contains(moved_by(atom, from))
            && atom.start >= 0 && atom.end <= to - from,
{
    let within = |a: AtomView| a.start >= from && a.end <= to;
    filter_holds(atoms, within, moved_by(atom, from));
    moved_holds(atoms.filter(within), -from, atom);
    assert(atoms_inside(atoms, from, to) =~= all_moved_by(atoms.filter(within), -from));
}

/// Two lists in a row hold what either holds.
proof fn both_hold(front: Seq<AtomView>, back: Seq<AtomView>, atom: AtomView)
    ensures
        (front + back).contains(atom) <==> front.contains(atom) || back.contains(atom),
{
    let all = front + back;
    if front.contains(atom) {
        let i = choose|i: int| 0 <= i < front.len() && front[i] == atom;
        assert(all[i] == atom);
    }
    if back.contains(atom) {
        let i = choose|i: int| 0 <= i < back.len() && back[i] == atom;
        assert(all[front.len() + i] == atom);
    }
    if all.contains(atom) {
        let i = choose|i: int| 0 <= i < all.len() && all[i] == atom;
        if i < front.len() {
            assert(front[i] == atom);
        } else {
            assert(back[i - front.len()] == atom);
        }
    }
}

/// The atoms after a kill is put in at `at`.
proof fn entry_atoms_hold(atoms: Seq<AtomView>, at: int, entry: Seq<AtomView>, size: int, atom: AtomView)
    requires
        0 <= size,
        forall|a: AtomView| #[trigger]
            atoms.contains(a) ==> a.start < a.end && survives(a, at, at),
    ensures
        (spliced_atoms(spliced_atoms(atoms, at, at, 0), at, at, size) + all_moved_by(
            entry,
            at,
        )).contains(atom) <==> (atom.end <= at && atoms.contains(atom)) || (atom.start >= at + size
            && atoms.contains(moved_by(atom, -size))) || entry.contains(moved_by(atom, -at)),
{
    put_in_holds(atoms, at, size, atom);
    moved_holds(entry, at, atom);
    both_hold(
        spliced_atoms(spliced_atoms(atoms, at, at, 0), at, at, size),
        all_moved_by(entry, at),
        atom,
    );
}

/// The atoms of two kills in a row.
proof fn joined_holds(front: KillView, back: KillView, atom: AtomView)
    ensures
        joined(front, back).atoms.contains(atom) <==> front.atoms.contains(atom)
            || back.atoms.contains(moved_by(atom, -(front.bytes.len() as int))),
{
    moved_holds(back.atoms, front.bytes.len() as int, atom);
    both_hold(front.atoms, all_moved_by(back.atoms, front.bytes.len() as int), atom);
}

/// Atoms of a text are not empty, and those clear of a position survive an
/// insertion there.
proof fn clear_atoms_survive(bytes: Seq<u8>, atoms: Seq<AtomView>, at: int)
    requires
        atoms_ok(bytes, atoms),
        clear_of_references(atoms, at),
    ensures
        forall|a: AtomView| #[trigger]
            atoms.contains(a) ==> 0 <= a.start < a.end && survives(a, at, at),
{
    assert forall|a: AtomView| #[trigger] atoms.contains(a) implies 0 <= a.start < a.end && survives(
        a,
        at,
        at,
    ) by {
        let i = choose|i: int| 0 <= i < atoms.len() && atoms[i] == a;
        assert(0 <= atoms[i].start < atoms[i].end);
    }
}

/// A range that starts or ends where no atom stands around is not widened
/// there.
proof fn clear_edges_stay(
    bytes: Seq<u8>,
    atoms: Seq<AtomView>,
    at: int,
    start: int,
    end: int,
    edge: int,
)
    requires
        atoms_ok(bytes, atoms),
        clear_of_references(atoms, edge),
        0 <= at <= atoms.len(),
        start < end,
    ensures
        edge == start ==> widened(atoms, at, start, end).0 == start,
        edge == end ==> widened(atoms, at, start, end).1 == end,
    decreases atoms.len() - at,
{
    if at < atoms.len() {
        let atom = atoms[at];
        if touched(atom, start, end) {
            clear_edges_stay(
                bytes,
                atoms,
                at + 1,
                if atom.start < start {
                    atom.start
                } else {
                    start
                },
                if atom.end > end {
                    atom.end
                } else {
                    end
                },
                edge,
            );
        } else {
            clear_edges_stay(bytes, atoms, at + 1, start, end, edge);
        }
    }
}

/// In a run of kills, text is gathered in the order it stood in: a further kill
/// up to or from the cursor leaves the text that a yank brings back as it was,
/// and so the atoms in it.
pub proof fn runs_of_kills_come_back_whole(buffer: BufferView, start: int, end: int)
    requires
        buffer.wf(),
        buffer.selection() is None,
        buffer.last_action == Action::Kill,
        buffer.ring.len() > 0,
        clear_of_references(buffer.atoms, buffer.cursor),
        0 <= start < end <= buffer.bytes.len(),
        start == buffer.cursor || end == buffer.cursor,
        boundary(buffer.bytes, start),
        boundary(buffer.bytes, end),
    ensures
        ({
            let at_once = buffer.yanked().0;
            let later = buffer.with_deleted(start, end, true).0.yanked().0;
            &&& later.bytes == at_once.bytes
            &&& forall|atom: AtomView|
                #![trigger later.atoms.contains(atom)]
                #![trigger at_once.atoms.contains(atom)]
                later.atoms.contains(atom) <==> at_once.atoms.contains(atom)
        }),
{
    let c = buffer.cursor;
    let (from, to) = buffer.widened(start, end);
    let none = Seq::<u8>::empty();
    widened_facts(buffer.bytes, buffer.atoms, 0, start, end);
    clear_edges_stay(buffer.bytes, buffer.atoms, 0, start, end, c);
    let entry = buffer.ring[0];
    let killed = buffer.cut_out(from, to);
    let both = if to == c {
        joined(killed, entry)
    } else {
        joined(entry, killed)
    };
    let at_once = buffer.yanked().0;
    let cut = buffer.with_deleted(start, end, true).0;
    let later = cut.yanked().0;
    assert(cut.ring[0] == both);
    assert(cut.cursor == from);
    assert(buffer.target() == (c, c));
    assert(cut.target() == (from, from));
    let size = entry.bytes.len() as int;
    let total = both.bytes.len() as int;
    assert(total == size + to - from);
    assert(spliced_bytes(buffer.bytes, c, c, none) =~= buffer.bytes);
    assert(at_once.bytes == spliced_bytes(buffer.bytes, c, c, entry.bytes));
    assert(cut.bytes == spliced_bytes(buffer.bytes, from, to, none));
    assert(spliced_bytes(cut.bytes, from, from, none) =~= cut.bytes);
    assert(later.bytes == spliced_bytes(cut.bytes, from, from, both.bytes));
    assert(later.bytes =~= at_once.bytes);
    let atoms = buffer.atoms;
    let outside = spliced_atoms(atoms, from, to, 0);
    clear_atoms_survive(buffer.bytes, atoms, c);
    assert forall|a: AtomView| #[trigger] outside.contains(a) implies a.start < a.end && survives(
        a,
        from,
        from,
    ) by {
        taken_out_holds(atoms, from, to, a);
        assert(atoms.contains(a) || atoms.contains(moved_by(a, to - from)));
    }
    assert forall|atom: AtomView|
        #![trigger later.atoms.contains(atom)]
        #![trigger at_once.atoms.contains(atom)]
        later.atoms.contains(atom) <==> at_once.atoms.contains(atom) by {
        entry_atoms_hold(atoms, c, entry.atoms, size, atom);
        entry_atoms_hold(outside, from, both.atoms, total, atom);
        taken_out_holds(atoms, from, to, atom);
        taken_out_holds(atoms, from, to, moved_by(atom, -total));
        assert(moved_by(moved_by(atom, -total), to - from) == moved_by(atom, -size));
        let inner = moved_by(atom, -from);
        if to == c {
            joined_holds(killed, entry, inner);
            inside_holds(atoms, from, to, inner);
            assert(moved_by(inner, from) == atom);
            assert(moved_by(inner, -(to - from)) == moved_by(atom, -c));
            entry_atoms_inside(buffer, moved_by(atom, -c));
            torn_by_nothing(buffer, start, end, atom);
        } else {
            joined_holds(entry, killed, inner);
            inside_holds(atoms, from, to, moved_by(inner, -size));
            assert(moved_by(moved_by(inner, -size), from) == moved_by(atom, -size));
            torn_by_nothing(buffer, start, end, moved_by(atom, -size));
        }
    }
}

/// Two kills in a row, the second up to or from where the first left the cursor,
/// come back with one yank: the text is the one from before both, and so are the
/// atoms in it.
pub proof fn two_kills_come_back_with_one_yank(
    buffer: BufferView,
    start: int,
    end: int,
    next_start: int,
    next_end: int,
)
    requires
        buffer.wf(),
        buffer.last_action != Action::Kill,
        0 <= start < end <= buffer.bytes.len(),
        boundary(buffer.bytes, start),
        boundary(buffer.bytes, end),
        ({
            let cut = buffer.with_deleted(start, end, true).0;
            &&& cut.wf()
            &&& 0 <= next_start < next_end <= cut.bytes.len()
            &&& next_start == cut.cursor || next_end == cut.cursor
            &&& boundary(cut.bytes, next_start)
            &&& boundary(cut.bytes, next_end)
        }),
    ensures
        ({
            let after = buffer.with_deleted(start, end, true).0.with_deleted(
                next_start,
                next_end,
                true,
            ).0.yanked().0;
            &&& after.bytes == buffer.bytes
            &&& forall|atom: AtomView|
                #![trigger after.atoms.contains(atom)]
                #![trigger buffer.atoms.contains(atom)]
                after.atoms.contains(atom) <==> buffer.atoms.contains(atom)
        }),
{
    let cut = buffer.with_deleted(start, end, true).0;
    let (from, to) = buffer.widened(start, end);
    widened_facts(buffer.bytes, buffer.atoms, 0, start, end);
    assert(cut.atoms == spliced_atoms(buffer.atoms, from, to, 0));
    assert forall|i: int| 0 <= i < cut.atoms.len() implies from <= (#[trigger] cut.atoms[i]).start
        || from >= cut.atoms[i].end by {
        let atom = cut.atoms[i];
        assert forall|a: AtomView| #[trigger] buffer.atoms.contains(a) implies a.start < a.end by {
            let k = choose|k: int| 0 <= k < buffer.atoms.len() && buffer.atoms[k] == a;
            assert(buffer.atoms[k].start < buffer.atoms[k].end);
        }
        assert(cut.atoms.contains(atom));
        taken_out_holds(buffer.atoms, from, to, atom);
    }
    yank_brings_kills_back(buffer, start, end);
    runs_of_kills_come_back_whole(cut, next_start, next_end);
    let once = cut.yanked().0;
    let after = cut.with_deleted(next_start, next_end, true).0.yanked().0;
    assert forall|atom: AtomView|
        #![trigger after.atoms.contains(atom)]
        #![trigger buffer.atoms.contains(atom)]
        after.atoms.contains(atom) <==> buffer.atoms.contains(atom) by {
        assert(once.atoms.contains(atom) <==> buffer.atoms.contains(atom));
    }
}

proof fn entry_atoms_inside(buffer: BufferView, atom: AtomView)
    requires
        buffer.wf(),
        buffer.ring.len() > 0,
    ensures
        buffer.ring[0].atoms.contains(atom) ==> 0 <= atom.start < atom.end
            <= buffer.ring[0].bytes.len(),
{
    if buffer.ring[0].atoms.contains(atom) {
        let i = choose|i: int|
            0 <= i < buffer.ring[0].atoms.len() && buffer.ring[0].atoms[i] == atom;
        assert(buffer.ring[0].atoms[i].start < buffer.ring[0].atoms[i].end);
    }
}

proof fn torn_by_nothing(buffer: BufferView, start: int, end: int, atom: AtomView)
    requires
        buffer.wf(),
        0 <= start < end <= buffer.bytes.len(),
        boundary(buffer.bytes, start),
        boundary(buffer.bytes, end),
    ensures
        buffer.atoms.contains(atom) ==> ({
            let (from, to) = buffer.widened(start, end);
            survives(atom, from, to) || from <= atom.start && atom.end <= to
        }),
{
    if buffer.atoms.contains(atom) {
        let k = choose|k: int| 0 <= k < buffer.atoms.len() && buffer.atoms[k] == atom;
        widened_ranges_tear_nothing(buffer, start, end, k);
    }
}

/// The killed text stands in front of what a run of kills gathered, where the
/// kill went up to the cursor, and behind it otherwise; a kill outside of a run
/// starts an entry of its own, and the older ones stay behind it while there is
/// room.
pub proof fn kills_gather_in_the_ring(buffer: BufferView, start: int, end: int, k: int)
    requires
        buffer.wf(),
        0 <= start < end <= buffer.bytes.len(),
        boundary(buffer.bytes, start),
        boundary(buffer.bytes, end),
        buffer.ring.len() > 0 ==> 0 <= k < buffer.ring.len(),
    ensures
        ({
            let (from, to) = buffer.widened(start, end);
            let killed = buffer.bytes.subrange(from, to);
            let ring = buffer.with_deleted(start, end, true).0.ring;
            let run = buffer.last_action == Action::Kill && buffer.ring.len() > 0;
            &&& ring.len() > 0
            &&& run && to == buffer.cursor ==> ring[0].bytes == killed + buffer.ring[0].bytes
            &&& run && to != buffer.cursor ==> ring[0].bytes == buffer.ring[0].bytes + killed
            &&& run ==> ring.len() == buffer.ring.len() && (k > 0 ==> ring[k] == buffer.ring[k])
            &&& !run ==> ring[0].bytes == killed
            &&& !run && buffer.ring.len() > 0 && k < 59 ==> ring[k + 1] == buffer.ring[k]
        }),
{
    widened_facts(buffer.bytes, buffer.atoms, 0, start, end);
}

/// Taking a range out and putting a text in at its start replaces it.
proof fn splicing_twice_replaces(bytes: Seq<u8>, start: int, end: int, insert: Seq<u8>)
    requires
        0 <= start <= end <= bytes.len(),
    ensures
        spliced_bytes(spliced_bytes(bytes, start, end, Seq::empty()), start, start, insert)
            == bytes.subrange(0, start) + insert + bytes.subrange(end, bytes.len() as int),
{
    let head = bytes.subrange(0, start);
    let tail = bytes.subrange(end, bytes.len() as int);
    let cut = spliced_bytes(bytes, start, end, Seq::empty());
    assert(cut =~= head + tail);
    assert(spliced_bytes(cut, start, start, insert) =~= head + insert + tail);
}

/// A replaced text can be replaced again.
proof fn replacing_again_replaces(
    bytes: Seq<u8>,
    start: int,
    end: int,
    first: Seq<u8>,
    second: Seq<u8>,
)
    requires
        0 <= start <= end <= bytes.len(),
    ensures
        ({
            let head = bytes.subrange(0, start);
            let tail = bytes.subrange(end, bytes.len() as int);
            let once = head + first + tail;
            once.subrange(0, start) + second + once.subrange(
                start + first.len(),
                once.len() as int,
            ) == head + second + tail
        }),
{
    let head = bytes.subrange(0, start);
    let tail = bytes.subrange(end, bytes.len() as int);
    let once = head + first + tail;
    assert(once.subrange(0, start) =~= head);
    assert(once.subrange(start + first.len(), once.len() as int) =~= tail);
}

/// What is replaced lies in the text.
proof fn targets_lie_in_the_text(buffer: BufferView)
    requires
        buffer.wf(),
    ensures
        0 <= buffer.target().0 <= buffer.target().1 <= buffer.bytes.len(),
{
    if let Some(anchor) = buffer.anchor {
        if anchor < buffer.cursor {
            widened_facts(buffer.bytes, buffer.atoms, 0, anchor, buffer.cursor);
        } else if anchor > buffer.cursor {
            widened_facts(buffer.bytes, buffer.atoms, 0, buffer.cursor, anchor);
        }
    }
}

/// Going to an older kill right after a yank leaves the text as if that kill had
/// been yanked in the first place.
pub proof fn popping_replaces_the_yank(buffer: BufferView)
    requires
        buffer.wf(),
        buffer.ring.len() > 1,
    ensures
        ({
            let (start, end) = buffer.target();
            let popped = buffer.yanked().0.yank_popped().0;
            &&& 0 <= start <= end <= buffer.bytes.len()
            &&& popped.bytes == buffer.bytes.subrange(0, start) + buffer.ring[1].bytes
                + buffer.bytes.subrange(end, buffer.bytes.len() as int)
            &&& popped.cursor == start + buffer.ring[1].bytes.len()
            &&& popped.ring == buffer.ring
        }),
{
    let (start, end) = buffer.target();
    targets_lie_in_the_text(buffer);
    let first = buffer.ring[0].bytes;
    let second = buffer.ring[1].bytes;
    let yanked = buffer.yanked().0;
    splicing_twice_replaces(buffer.bytes, start, end, first);
    assert(yanked.last_yank == Some((start, start + first.len())));
    assert(yanked.ring == buffer.ring);
    splicing_twice_replaces(yanked.bytes, start, start + first.len(), second);
    replacing_again_replaces(buffer.bytes, start, end, first, second);
    vstd::arithmetic::div_mod::lemma_small_mod(1, buffer.ring.len());
}

/// A kill to the end of the line takes the rest of the line; where that is
/// empty, the line break alone. A kill to the start of the line does the same to
/// the left.
pub proof fn line_kills_stop_at_the_line(buffer: BufferView)
    requires
        buffer.wf(),
        buffer.selection() is None,
        buffer.atoms.len() == 0,
    ensures
        ({
            let c = buffer.cursor;
            let all = buffer.bytes;
            let ahead = buffer.line_end_killed().0;
            let back = buffer.line_start_killed().0;
            let cut = all.len() - ahead.bytes.len();
            let lost = all.len() - back.bytes.len();
            &&& ahead.cursor == c
            &&& 0 <= cut && c + cut <= all.len()
            &&& ahead.bytes == all.subrange(0, c) + all.subrange(c + cut, all.len() as int)
            &&& c < all.len() ==> cut > 0
            &&& c < all.len() && all[c] == 10 ==> cut == 1
            &&& c < all.len() && all[c] != 10 ==> forall|i: int|
                c <= i < c + cut ==> #[trigger] all[i] != 10
            &&& c < all.len() && all[c] != 10 ==> c + cut == all.len() || all[c + cut] == 10
            &&& back.cursor == c - lost
            &&& 0 <= lost <= c
            &&& back.bytes == all.subrange(0, c - lost) + all.subrange(c, all.len() as int)
            &&& c > 0 ==> lost > 0
            &&& c > 0 && all[c - 1] == 10 ==> lost == 1
            &&& c > 0 && all[c - 1] != 10 ==> forall|i: int|
                c - lost <= i < c ==> #[trigger] all[i] != 10
            &&& c > 0 && all[c - 1] != 10 ==> c - lost == 0 || all[c - lost - 1] == 10
        }),
{
    let c = buffer.cursor;
    let all = buffer.bytes;
    crate::layout::line_end_facts(all, c);
    crate::layout::line_start_facts(all, c);
    let ahead = buffer.line_end_killed().0;
    let back = buffer.line_start_killed().0;
    let none = Seq::<u8>::empty();
    let end = crate::layout::line_end(all, c);
    let to = if c < end {
        end
    } else if end < all.len() {
        end + 1
    } else {
        end
    };
    assert(buffer.widened(c, to) == (c, to));
    if to == c {
        assert(ahead.bytes =~= all.subrange(0, c) + all.subrange(c, all.len() as int));
    } else {
        assert(ahead.bytes == spliced_bytes(all, c, to, none));
        assert(ahead.bytes =~= all.subrange(0, c) + all.subrange(to, all.len() as int));
    }
    let start = crate::layout::line_start(all, c);
    let from = if start == c && start > 0 {
        start - 1
    } else {
        start
    };
    assert(buffer.widened(from, c) == (from, c));
    if from == c {
        assert(back.bytes =~= all.subrange(0, c) + all.subrange(c, all.len() as int));
    } else {
        assert(back.bytes == spliced_bytes(all, from, c, none));
        assert(back.bytes =~= all.subrange(0, from) + all.subrange(c, all.len() as int));
    }
}

/// Bytes in front of a splice that ends no atom expand as before.
proof fn expansion_in_front(
    bytes: Seq<u8>,
    atoms: Seq<AtomView>,
    other: Seq<u8>,
    others: Seq<AtomView>,
    at: int,
    to: int,
) -> (head: Seq<u8>)
    requires
        0 <= at <= to <= bytes.len(),
        to <= other.len(),
        forall|i: int| 0 <= i < to ==> bytes[i] == other[i],
        forall|i: int| at <= i < to ==> #[trigger] starting(atoms, 0, i) == starting(others, 0, i),
        forall|i: int|
            at <= i < to ==> ((#[trigger] starting(atoms, 0, i)) matches Some(atom) ==> i < atom.end
                <= to),
    ensures
        expanded(bytes, atoms, at) == head + expanded(bytes, atoms, to),
        expanded(other, others, at) == head + expanded(other, others, to),
    decreases to - at,
{
    if at == to {
        let head = Seq::<u8>::empty();
        assert(head + expanded(bytes, atoms, to) =~= expanded(bytes, atoms, at));
        assert(head + expanded(other, others, to) =~= expanded(other, others, at));
        head
    } else {
        assert(starting(atoms, 0, at) == starting(others, 0, at));
        match starting(atoms, 0, at) {
            Some(atom) => {
                let rest = expansion_in_front(bytes, atoms, other, others, atom.end, to);
                let head = utf8(atom.payload) + rest;
                assert(utf8(atom.payload) + (rest + expanded(bytes, atoms, to)) =~= head
                    + expanded(bytes, atoms, to));
                assert(utf8(atom.payload) + (rest + expanded(other, others, to)) =~= head
                    + expanded(other, others, to));
                head
            },
            None => {
                let rest = expansion_in_front(bytes, atoms, other, others, at + 1, to);
                let head = seq![bytes[at]] + rest;
                assert(seq![bytes[at]] + (rest + expanded(bytes, atoms, to)) =~= head + expanded(
                    bytes,
                    atoms,
                    to,
                ));
                assert(seq![bytes[at]] + (rest + expanded(other, others, to)) =~= head + expanded(
                    other,
                    others,
                    to,
                ));
                head
            },
        }
    }
}

/// The same atom, further on, where there is one.
pub open spec fn further_on(atom: Option<AtomView>, distance: int) -> Option<AtomView> {
    match atom {
        Some(atom) => Some(moved_by(atom, distance)),
        None => None,
    }
}

/// Bytes behind a splice expand as before.
proof fn expansion_behind(
    bytes: Seq<u8>,
    atoms: Seq<AtomView>,
    other: Seq<u8>,
    others: Seq<AtomView>,
    at: int,
    distance: int,
)
    requires
        0 <= at <= bytes.len(),
        0 <= distance,
        other.len() == bytes.len() + distance,
        forall|i: int| at <= i < bytes.len() ==> bytes[i] == other[i + distance],
        forall|i: int|
            at <= i < bytes.len() ==> further_on(#[trigger] starting(atoms, 0, i), distance)
                == starting(others, 0, i + distance),
    ensures
        expanded(bytes, atoms, at) == expanded(other, others, at + distance),
    decreases bytes.len() - at,
{
    if at < bytes.len() {
        assert(further_on(starting(atoms, 0, at), distance) == starting(others, 0, at + distance));
        match starting(atoms, 0, at) {
            Some(atom) => {
                if at < atom.end <= bytes.len() {
                    expansion_behind(bytes, atoms, other, others, atom.end, distance);
                }
            },
            None => {
                expansion_behind(bytes, atoms, other, others, at + 1, distance);
            },
        }
    }
}

/// The atom that starts at a byte is one of the atoms and starts there; where
/// one does, it is found.
proof fn starting_facts(atoms: Seq<AtomView>, index: int, at: int)
    requires
        0 <= index <= atoms.len(),
    ensures
        starting(atoms, index, at) matches Some(atom) ==> atom.start == at && exists|k: int|
            index <= k < atoms.len() && #[trigger] atoms[k] == atom,
        starting(atoms, index, at) is None ==> forall|k: int|
            index <= k < atoms.len() ==> (#[trigger] atoms[k]).start != at,
    decreases atoms.len() - index,
{
    if index < atoms.len() && atoms[index].start != at {
        starting_facts(atoms, index + 1, at);
    }
}

/// Of atoms that are apart, the one that starts at a byte is the only one.
proof fn starting_is_unique(bytes: Seq<u8>, atoms: Seq<AtomView>, at: int, atom: AtomView)
    requires
        atoms_ok(bytes, atoms),
        atoms.contains(atom),
        atom.start == at,
    ensures
        starting(atoms, 0, at) == Some(atom),
{
    starting_facts(atoms, 0, at);
    let k = choose|k: int| 0 <= k < atoms.len() && atoms[k] == atom;
    match starting(atoms, 0, at) {
        Some(found) => {
            let j = choose|j: int| 0 <= j < atoms.len() && atoms[j] == found;
            if j != k {
                assert(apart(atoms[j], atoms[k]));
            }
        },
        None => {
            assert(atoms[k].start != at);
        },
    }
}

/// A reference put in at the cursor submits as its payload there, and the
/// rest of the text submits as before.
pub proof fn references_expand_in_place(
    buffer: BufferView,
    text: Seq<char>,
    marker: Seq<char>,
    payload: Seq<char>,
) -> (head: Seq<u8>)
    requires
        buffer.wf(),
        buffer.bytes == utf8(text),
        buffer.selection() is None,
        usable_marker(marker),
        forall|i: int|
            0 <= i < buffer.atoms.len() ==> survives(
                #[trigger] buffer.atoms[i],
                buffer.cursor,
                buffer.cursor,
            ),
    ensures
        ({
            let after = buffer.with_reference(marker, payload).0;
            let rest = expanded(buffer.bytes, buffer.atoms, buffer.cursor);
            &&& expanded(buffer.bytes, buffer.atoms, 0) == head + rest
            &&& expanded(after.bytes, after.atoms, 0) == head + utf8(payload) + rest
        }),
{
    crate::strings::first_byte_leads(marker);
    let after = buffer.with_reference(marker, payload).0;
    let at = buffer.cursor;
    let size = utf8(marker).len() as int;
    let new_atom = AtomView { start: at, end: at + size, payload };
    let moved = spliced_atoms(buffer.atoms, at, at, size);
    assert(after.bytes == spliced_bytes(buffer.bytes, at, at, utf8(marker)));
    assert(after.atoms == moved.push(new_atom));
    let all = after.atoms;
    assert(atoms_ok(after.bytes, all)) by {
        let front = part(buffer.bytes, 0, at);
        let back = part(buffer.bytes, at, buffer.bytes.len() as int);
        crate::strings::ends_are_boundaries(text);
        crate::strings::ends_are_boundaries(marker);
        part_bytes(text, 0, at);
        part_bytes(text, at, buffer.bytes.len() as int);
        crate::strings::utf8_of_concat(front, marker);
        crate::strings::utf8_of_concat(front + marker, back);
        let spelled = front + marker + back;
        assert(utf8(spelled) =~= after.bytes);
        splicing_keeps_atoms(text, spelled, marker, at, at, buffer.atoms);
        spliced_boundaries(text, spelled, marker, at, at, 0);
        spliced_boundaries(text, spelled, marker, at, at, size);
        pushed_atom_ok(after.bytes, moved, new_atom);
    }
    // Which atom starts where, before and after.
    assert forall|i: int| 0 <= i < at implies #[trigger] starting(buffer.atoms, 0, i) == starting(
        all,
        0,
        i,
    ) by {
        same_start(buffer, after, moved, new_atom, i, i, false);
    }
    assert forall|i: int| 0 <= i < at implies ((#[trigger] starting(buffer.atoms, 0, i)) matches Some(
        atom,
    ) ==> i < atom.end <= at) by {
        starting_facts(buffer.atoms, 0, i);
    }
    let head = expansion_in_front(buffer.bytes, buffer.atoms, after.bytes, all, 0, at);
    assert forall|i: int| at <= i < buffer.bytes.len() implies further_on(
        #[trigger] starting(buffer.atoms, 0, i),
        size,
    ) == starting(all, 0, i + size) by {
        same_start(buffer, after, moved, new_atom, i, i + size, true);
    }
    expansion_behind(buffer.bytes, buffer.atoms, after.bytes, all, at, size);
    assert(all[all.len() - 1] == new_atom);
    assert(all.contains(new_atom));
    starting_is_unique(after.bytes, all, at, new_atom);
    assert(expanded(after.bytes, all, at) == utf8(payload) + expanded(after.bytes, all, at + size));
    let rest = expanded(buffer.bytes, buffer.atoms, at);
    assert(head + (utf8(payload) + rest) =~= head + utf8(payload) + rest);
    head
}

/// Which atom starts at a byte before and after a reference was put in.
proof fn same_start(
    buffer: BufferView,
    after: BufferView,
    moved: Seq<AtomView>,
    new_atom: AtomView,
    i: int,
    j: int,
    behind: bool,
)
    requires
        atoms_ok(buffer.bytes, buffer.atoms),
        atoms_ok(after.bytes, after.atoms),
        0 <= new_atom.start < new_atom.end,
        moved == spliced_atoms(
            buffer.atoms,
            new_atom.start,
            new_atom.start,
            new_atom.end - new_atom.start,
        ),
        after.atoms == moved.push(new_atom),
        forall|k: int|
            0 <= k < buffer.atoms.len() ==> survives(
                #[trigger] buffer.atoms[k],
                new_atom.start,
                new_atom.start,
            ),
        behind ==> new_atom.start <= i && j == i + (new_atom.end - new_atom.start),
        !behind ==> i < new_atom.start && j == i,
    ensures
        further_on(starting(buffer.atoms, 0, i), j - i) == starting(after.atoms, 0, j),
{
    let at = new_atom.start;
    let size = new_atom.end - new_atom.start;
    starting_facts(buffer.atoms, 0, i);
    starting_facts(after.atoms, 0, j);
    match starting(buffer.atoms, 0, i) {
        Some(atom) => {
            let k = choose|k: int| 0 <= k < buffer.atoms.len() && buffer.atoms[k] == atom;
            assert(survives(buffer.atoms[k], at, at));
            assert(buffer.atoms.contains(atom));
            spliced_atoms_hold(buffer.atoms, at, at, size, atom);
            let next = shifted(atom, at, at, size);
            let m = choose|m: int| 0 <= m < moved.len() && moved[m] == next;
            assert(after.atoms[m] == next);
            assert(next == moved_by(atom, j - i));
            assert(after.atoms.contains(next));
            starting_is_unique(after.bytes, after.atoms, j, next);
            assert(further_on(Some(atom), j - i) == Some(next));
        },
        None => {
            match starting(after.atoms, 0, j) {
                Some(found) => {
                    let m = choose|m: int| 0 <= m < after.atoms.len() && after.atoms[m] == found;
                    if m < moved.len() {
                        assert(moved[m] == found);
                        assert(moved.contains(found));
                        spliced_atoms_hold(buffer.atoms, at, at, size, found);
                        let source = choose|source: AtomView| #[trigger]
                            buffer.atoms.contains(source) && survives(source, at, at) && shifted(
                                source,
                                at,
                                at,
                                size,
                            ) == found;
                        let k = choose|k: int|
                            0 <= k < buffer.atoms.len() && buffer.atoms[k] == source;
                        assert(buffer.atoms[k].start < buffer.atoms[k].end);
                        assert(buffer.atoms[k].start == i);
                    }
                },
                None => {},
            }
        },
    }
}

} // verus!
