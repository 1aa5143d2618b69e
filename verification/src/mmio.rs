//! Memory-mapped I/O addresses.

use vstd::prelude::*;

verus! {

/// Keyboard Status Register - bit 15 set when a key is available.
pub const KBSR: u16 = 0xFE00;

/// Keyboard Data Register - holds the key pressed.
pub const KBDR: u16 = 0xFE02;

/// Display Status Register - bit 15 set when ready to display.
pub const DSR: u16 = 0xFE04;

/// Display Data Register - write a character here to display it.
pub const DDR: u16 = 0xFE06;

/// Machine Control Register - bit 15 is the clock enable (0 = halt).
pub const MCR: u16 = 0xFFFE;

} // verus!
