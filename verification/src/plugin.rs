//! What the actions of a macro and the triggers say about the plugins.

use vstd::prelude::*;

verus! {

/// A delay in milliseconds.
pub type Delay = u64;

/// What a key action does with its key.
#[derive(Debug, Clone, Copy, PartialEq, Eq, Structural)]
pub enum KeyType {
    Down,
    Up,
    DownUp,
}

/// A key action: the HID code of the key, how long a full press lasts, and what to do.
#[derive(Debug, Clone, Copy, PartialEq, Eq, Structural)]
pub struct KeyPress {
    pub keypress: u32,
    pub press_duration: Delay,
    pub keytype: KeyType,
}

/// A mouse button, by its number in the code space that it shares with the HID codes of the keys.
#[derive(Debug, Clone, Copy, PartialEq, Eq, Structural)]
pub struct MouseButton {
    pub code: u32,
}

/// A mouse action, by the handle under which the mouse plugin keeps it.
#[derive(Debug, Clone, Copy, PartialEq, Eq, Structural)]
pub struct MouseAction {
    pub handle: u64,
}

/// A system action, by the handle under which the system plugin keeps it.
#[derive(Debug, Clone, Copy, PartialEq, Eq, Structural)]
pub struct SystemAction {
    pub handle: u64,
}

/// A light status, by the handle under which the Hue plugin keeps it.
#[derive(Debug, Clone, Copy, PartialEq, Eq, Structural)]
pub struct PhillipsHueStatus {
    pub handle: u64,
}

} // verus!
