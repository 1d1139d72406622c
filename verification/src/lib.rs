//! Codec for a 16-step hardware sequencer pattern.
//!
//! A pattern travels in three shapes: the raw SysEx payload exchanged with
//! the device, the structured [`pattern::Pattern`] model, and a
//! human-editable text document.  The binary codec maps payload bytes to
//! the model and back bit-exactly; the text codec renders the model to
//! text and parses edited text back, losslessly.

pub mod binary;
pub mod chars;
pub mod config;
pub mod errors;
pub mod pattern;
pub mod step;
pub mod text;
