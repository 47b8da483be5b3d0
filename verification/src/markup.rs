//! Vocabulary shared by the widgets' declarative attributes.

use vstd::prelude::*;

verus! {

/// Line families of boxes and guides.
#[derive(Clone, Copy, Debug, PartialEq, Eq, Structural)]
pub enum Border {
    /// Straight light lines.
    Square,
    /// Dashed light lines.
    Dash,
    /// Light lines with rounded corners.
    Round,
    /// Heavy lines.
    Heavy,
    /// Double lines.
    Double,
}

/// Horizontal placement of content in its room.
#[derive(Clone, Copy, Debug, PartialEq, Eq, Structural)]
pub enum Align {
    /// At the leading edge.
    Start,
    /// In the middle.
    Center,
    /// At the trailing edge.
    End,
}

/// Which end of a text too long for its room gives way.
#[derive(Clone, Copy, Debug, PartialEq, Eq, Structural)]
pub enum Truncate {
    /// The end.
    End,
    /// The start.
    Start,
}

} // verus!
