//! Core of a modal, selection-based terminal text editor.
//!
//! The editing logic operates on a UTF-8 text buffer stored in a rope
//! (the `crop` crate), addressed by byte offsets that are kept on grapheme
//! cluster boundaries.  A selection is a pair of offsets (anchor, head);
//! vertical movement preserves a cached display column; a finite-state
//! input mode machine routes events to the editing operations; a mapping
//! layer translates between byte offsets and terminal cell rectangles.

pub mod model;
pub mod text;
pub mod graphemes;
pub mod columns;
pub mod editor;
pub mod command;
pub mod screen;
pub mod dispatch;
pub mod defer;
