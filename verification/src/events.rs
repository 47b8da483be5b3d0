//! What widgets say to their host: events, and the screen areas they own.

use vstd::prelude::*;

use crate::geometry::Rect;

verus! {

/// Number that tells a component from every other one.
#[derive(Clone, Copy, Debug, PartialEq, Eq, Structural)]
pub struct Slot(pub u64);

/// What part of a component an area belongs to.
#[derive(Clone, Copy, Debug, PartialEq, Eq, Structural)]
pub enum HitTag {
    /// A pressable face.
    Press,
    /// The row of an item.
    Row(u16),
    /// One chip of a strip.
    Chip(u16),
    /// A scrollbar track.
    Scrollbar,
    /// An area that only takes the wheel.
    Wheel,
    /// An area that takes what nothing else does.
    Zone,
    /// The row of a tree node.
    TreeRow(u32),
    /// An action button of a tree node.
    TreeAction(u32),
}

/// An area of the screen that takes pointer input for a component.
#[derive(Clone, Copy, Debug, PartialEq, Eq, Structural)]
pub struct Hit {
    /// The area.
    pub rect: Rect,
    /// The component.
    pub slot: Slot,
    /// What part of it.
    pub tag: HitTag,
}

/// Something a widget reports to its host.
pub enum UiEvent {
    /// The user backed out.
    Cancel,
    /// The user confirmed the whole form.
    Submit,
    /// A button was pressed.
    Pressed {
        /// The component.
        id: String,
    },
    /// A component took on another value.
    Changed {
        /// The component.
        id: String,
        /// The value.
        value: String,
    },
    /// The cursor moved to another item.
    Highlighted {
        /// The component.
        id: String,
        /// The item's value.
        value: String,
    },
    /// The filter query changed.
    Filtered {
        /// The component.
        id: String,
        /// The query.
        query: String,
        /// Value of the item under the cursor, if any matches.
        value: Option<String>,
    },
    /// A tree node was activated.
    TreeActivated {
        /// The tree.
        id: String,
        /// The node.
        key: String,
    },
    /// A tree branch was opened, shut, or asked to change.
    TreeToggled {
        /// The tree.
        id: String,
        /// The node.
        key: String,
        /// Whether it is open now; nothing while that is up to the host.
        expanded: Option<bool>,
    },
    /// An action of a tree node was chosen.
    TreeAction {
        /// The tree.
        id: String,
        /// The node.
        key: String,
        /// The action.
        action: String,
    },
}

/// An event, its texts as characters.
pub enum EventView {
    /// The user backed out.
    Cancel,
    /// The user confirmed the whole form.
    Submit,
    /// A button was pressed.
    Pressed {
        /// The component.
        id: Seq<char>,
    },
    /// A component took on another value.
    Changed {
        /// The component.
        id: Seq<char>,
        /// The value.
        value: Seq<char>,
    },
    /// The cursor moved to another item.
    Highlighted {
        /// The component.
        id: Seq<char>,
        /// The item's value.
        value: Seq<char>,
    },
    /// The filter query changed.
    Filtered {
        /// The component.
        id: Seq<char>,
        /// The query.
        query: Seq<char>,
        /// Value of the item under the cursor.
        value: Option<Seq<char>>,
    },
    /// A tree node was activated.
    TreeActivated {
        /// The tree.
        id: Seq<char>,
        /// The node.
        key: Seq<char>,
    },
    /// A tree branch was opened, shut, or asked to change.
    TreeToggled {
        /// The tree.
        id: Seq<char>,
        /// The node.
        key: Seq<char>,
        /// Whether it is open now.
        expanded: Option<bool>,
    },
    /// An action of a tree node was chosen.
    TreeAction {
        /// The tree.
        id: Seq<char>,
        /// The node.
        key: Seq<char>,
        /// The action.
        action: Seq<char>,
    },
}

/// A text, where there is one.
pub open spec fn text_option(text: Option<String>) -> Option<Seq<char>> {
    match text {
        Some(shown) => Some(shown@),
        None => None,
    }
}

impl View for UiEvent {
    type V = EventView;

    open spec fn view(&self) -> EventView {
        match *self {
            UiEvent::Cancel => EventView::Cancel,
            UiEvent::Submit => EventView::Submit,
            UiEvent::Pressed { id } => EventView::Pressed { id: id@ },
            UiEvent::Changed { id, value } => EventView::Changed { id: id@, value: value@ },
            UiEvent::Highlighted { id, value } => EventView::Highlighted {
                id: id@,
                value: value@,
            },
            UiEvent::Filtered { id, query, value } => EventView::Filtered {
                id: id@,
                query: query@,
                value: text_option(value),
            },
            UiEvent::TreeActivated { id, key } => EventView::TreeActivated { id: id@, key: key@ },
            UiEvent::TreeToggled { id, key, expanded } => EventView::TreeToggled {
                id: id@,
                key: key@,
                expanded,
            },
            UiEvent::TreeAction { id, key, action } => EventView::TreeAction {
                id: id@,
                key: key@,
                action: action@,
            },
        }
    }
}

/// What became of an input.
pub enum Flow {
    /// The widget has no use for it; it bubbles on.
    Skip,
    /// The widget took it.
    Consumed,
    /// The widget took it, and reports an event.
    Event(UiEvent),
}

/// What became of an input.
pub enum FlowView {
    /// It bubbles on.
    Skip,
    /// The widget took it.
    Consumed,
    /// The widget reports an event.
    Event(EventView),
}

impl View for Flow {
    type V = FlowView;

    open spec fn view(&self) -> FlowView {
        match *self {
            Flow::Skip => FlowView::Skip,
            Flow::Consumed => FlowView::Consumed,
            Flow::Event(event) => FlowView::Event(event@),
        }
    }
}

} // verus!
