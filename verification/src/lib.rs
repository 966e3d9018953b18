//! Text entry for mnemonic seed words on a device with a handful of keys.
//!
//! The crate has two layers. The lower one is a small retained-mode substrate:
//! components that handle events and describe what they show (`component`),
//! a few components to build with (`button`, `maybe`, `dialog`, `title`,
//! `text`), and a textual trace of a component tree (`trace`). The upper one
//! is the entry of words: a bounded text buffer (`textbox`), multi-tap key
//! disambiguation (`multi_tap`), and the two keyboards that bind them to a
//! dictionary (`bip39`, `slip39`).
//!
//! The dictionary, the renderer and the scheduler of timers belong to the
//! host. The dictionary is handed to a keyboard as a pair of functions; what
//! is to be drawn is handed out as plain values; timers and repaints are
//! requested through the event context.

// `component` stands first: the modules after it implement its trait.
pub mod component;
pub mod button;
pub mod maybe;
pub mod dialog;
pub mod title;
pub mod geometry;
pub mod text;
pub mod trace;
pub mod textbox;
pub mod multi_tap;
pub mod common;
pub mod paint;
pub mod bip39;
pub mod slip39;
