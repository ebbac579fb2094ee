//! Plain key descriptions handed to the layout host by whatever decodes the
//! terminal's input events.  The layout core itself never reads keys; these
//! types only give the host a backend-free vocabulary.

use vstd::prelude::*;

verus! {

/// A key with no modifier applied.
#[derive(Clone, Copy, Debug, PartialEq, Eq, Structural)]
pub enum RawKey {
    Char(char),
    Up,
    Down,
    Left,
    Right,
    Enter,
    Backspace,
}

/// A key together with the modifier held down with it.
#[derive(Clone, Copy, Debug, PartialEq, Eq, Structural)]
pub enum KeyBinding {
    Ctrl(RawKey),
    Alt(RawKey),
    Shift(RawKey),
    F(u8),
    Unsupported,
}

} // verus!
