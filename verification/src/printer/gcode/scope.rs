//! Where a command takes effect (bit flags).
use vstd::prelude::*;

verus! {

/// The command changes the settings while the program is read.
pub const CONFIG: u8 = 0b0001;

/// The command runs on this board when the controller completes the command before it.
pub const PI: u8 = 0b0010;

/// The command is sent to the motor controller.
pub const ARDUINO: u8 = 0b0100;

} // verus!
