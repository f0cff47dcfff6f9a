//! Port I/O as data: the library says what to write, the caller writes it.

use vstd::prelude::*;

verus! {

/// One write to an I/O port.
#[derive(Debug, Clone, Copy, PartialEq, Eq, Structural)]
#[allow(inconsistent_fields)]
pub enum PortWrite {
    /// Write the byte `value` to `port`.
    Byte { port: u16, value: u8 },
    /// Write the four bytes of `value` to `port`.
    Dword { port: u16, value: u32 },
}

} // verus!
