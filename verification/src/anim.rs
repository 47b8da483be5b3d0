//! Glyph animations on the shared clock, in milliseconds.

use vstd::prelude::*;

verus! {

/// A cycle of glyphs, each shown for the same time.
pub struct Frames {
    /// The glyphs in order.
    pub glyphs: Vec<&'static str>,
    /// Milliseconds each glyph is shown.
    pub step: u64,
}

/// The characters of glyphs.
pub open spec fn glyph_views(glyphs: Seq<&'static str>) -> Seq<Seq<char>> {
    glyphs.map_values(|glyph: &'static str| glyph@)
}

/// The glyph shown at `now`: pure phase arithmetic on the shared clock.
pub open spec fn glyph_at(glyphs: Seq<Seq<char>>, step: u64, now: u64) -> Seq<char> {
    glyphs[(now / step) as int % glyphs.len() as int]
}

/// When the glyph shown at `now` gives way to the next.
pub open spec fn change_after(step: u64, now: u64) -> int {
    ((now / step) + 1) * step
}

impl Frames {
    /// The cycle has glyphs and moves.
    pub open spec fn wf(self) -> bool {
        self.glyphs@.len() > 0 && self.step > 0
    }

    /// The glyph shown at `now`.
    pub fn at(&self, now: u64) -> (glyph: &'static str)
        requires
            self.wf(),
        ensures
            glyph@ == glyph_at(glyph_views(self.glyphs@), self.step, now),
    {
        let index: u64 = (now / self.step) % (self.glyphs.len() as u64);
        self.glyphs[index as usize]
    }

    /// When the glyph shown at `now` gives way to the next, held at the largest
    /// time.
    pub fn next_change(&self, now: u64) -> (deadline: u64)
        requires
            self.wf(),
        ensures
            deadline == (if change_after(self.step, now) <= u64::MAX {
                change_after(self.step, now)
            } else {
                u64::MAX as int
            }),
    {
        let elapsed: u64 = now / self.step;
        proof {
            assert(elapsed * self.step <= now) by (nonlinear_arith)
                requires
                    elapsed == now / self.step,
                    self.step > 0,
            ;
            assert((elapsed + 1) * self.step == elapsed * self.step + self.step)
                by (nonlinear_arith);
        }
        (elapsed * self.step).saturating_add(self.step)
    }
}

/// Two readers of the clock see the same glyph at the same instant, and the
/// next change comes later, by one step at most.
pub proof fn changes_come_within_a_step(step: u64, now: u64)
    requires
        step > 0,
    ensures
        now < change_after(step, now) <= now + step,
        forall|later: u64|
            now <= later < change_after(step, now) ==> #[trigger] (later / step) == now / step,
{
    let elapsed = (now / step) as int;
    assert(elapsed * step <= now < (elapsed + 1) * step) by (nonlinear_arith)
        requires
            elapsed == now / step,
            step > 0,
    ;
    assert((elapsed + 1) * step == elapsed * step + step) by (nonlinear_arith);
    assert forall|later: u64| now <= later < change_after(step, now) implies #[trigger] (later
        / step) == now / step by {
        assert(later / step == elapsed) by (nonlinear_arith)
            requires
                elapsed * step <= later < (elapsed + 1) * step,
                step > 0,
        ;
    }
}

} // verus!
