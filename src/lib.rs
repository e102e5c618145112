//! The core of a document editor: a grid of text rows with a cursor, a selection, style
//! buffers and a scrolling viewport, every moving element gliding on tweens, all proved
//! against their contracts.

use vstd::prelude::*;

pub mod camera;
pub mod commands;
pub mod cursor;
pub mod editor;
pub mod events;
pub mod line;
pub mod menu_actions;
pub mod range;
pub mod selection;
pub mod storage;
pub mod style;
pub mod symbols;
pub mod tesl;
pub mod text;
pub mod tween;

verus! {

} // verus!
