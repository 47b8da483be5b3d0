//! Verified core of a terminal user interface: cell frames, text editing,
//! widgets and the rules that decide what they show.

use vstd::prelude::*;

pub mod aiming;
pub mod anim;
pub mod answering;
pub mod assisting;
pub mod atoms;
pub mod bits;
pub mod buffer;
pub mod cell;
pub mod chars;
pub mod charset;
pub mod choosing;
pub mod clipping;
pub mod codes;
pub mod color;
pub mod commands;
pub mod completion;
pub mod composing;
pub mod context;
pub mod editing;
pub mod editor;
pub mod emoji;
pub mod escape;
pub mod events;
pub mod frame;
pub mod gauge;
pub mod geometry;
pub mod input;
pub mod keying;
pub mod keyspec;
pub mod kills;
pub mod layout;
pub mod lines;
pub mod markup;
pub mod motion;
pub mod moving;
pub mod numbers;
pub mod offering;
pub mod painting;
pub mod paths;
pub mod pattern;
pub mod placing;
pub mod prompting;
pub mod queries;
pub mod ranges;
pub mod references;
pub mod referring;
pub mod requests;
pub mod row;
pub mod runs;
pub mod scanning;
pub mod scoring;
pub mod screen;
pub mod scroll;
pub mod segmented;
pub mod select;
pub mod select_layout;
pub mod select_paint;
pub mod selecting;
pub mod serving;
pub mod showing;
pub mod spinner;
pub mod state;
pub mod status;
pub mod strike;
pub mod strings;
pub mod style;
pub mod table;
pub mod tabs;
pub mod telling;
pub mod text;
pub mod theme;
pub mod time;
pub mod tool_card;
pub mod transient;
pub mod tree;
pub mod tree_paint;
pub mod typing;
pub mod wizard;
pub mod words;
pub mod wrap;

verus! {

} // verus!
