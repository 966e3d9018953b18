//! What an input area hands to the renderer.

use crate::button::Button;
use vstd::prelude::*;

verus! {

/// What an input area shows: the entered text, the rest of a suggested word,
/// whether the last unit carries the pending marker, and the button that the
/// area doubles as.
pub struct InputPaint {
    /// The text to draw at the start of the area.
    pub text: Vec<u8>,
    /// The text to draw behind it, greyed.
    pub completion: Vec<u8>,
    /// Whether to underline the last unit of `text`.
    pub pending_marker: bool,
    /// Background, style and icon of the area.
    pub button: Button,
}

} // verus!
