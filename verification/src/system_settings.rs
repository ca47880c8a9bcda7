//! Per-system settings that hold no floating point: the overscan crop and
//! the keyboard pass-through default and its resolution.
use vstd::prelude::*;
use crate::text::str_eq;

verus! {

/// Pixels cropped from each edge of the frame.
#[derive(Clone, Copy, Debug, PartialEq, Eq, Structural)]
pub struct OverscanCropPrefs {
    pub top: u32,
    pub bottom: u32,
    pub left: u32,
    pub right: u32,
}

impl OverscanCropPrefs {
    /// Whether every edge is zero.
    pub fn is_zero(self) -> (r: bool)
        ensures
            r == (self.top == 0 && self.bottom == 0 && self.left == 0 && self.right == 0),
    {
        self.top == 0 && self.bottom == 0 && self.left == 0 && self.right == 0
    }
}

/// Systems with meaningful keyboard input: MAME, MSX and MSX2.
pub open spec fn keyboard_system(system_id: Seq<char>) -> bool {
    system_id == "mame"@ || system_id == "msx"@ || system_id == "msx2"@
}

/// Compiled-in default for keyboard pass-through: on for the systems with
/// keyboard input, off everywhere else.
pub fn default_keyboard_passthrough(system_id: &str) -> (r: bool)
    ensures
        r == keyboard_system(system_id@),
{
    str_eq(system_id, "mame") || str_eq(system_id, "msx") || str_eq(system_id, "msx2")
}

/// Keyboard pass-through for a system: its setting when one is stored,
/// else the compiled-in default.
pub fn effective_keyboard_passthrough(system_id: &str, setting: Option<bool>) -> (r: bool)
    ensures
        r == match setting {
            Some(b) => b,
            None => keyboard_system(system_id@),
        },
{
    match setting {
        Some(b) => b,
        None => default_keyboard_passthrough(system_id),
    }
}

} // verus!
