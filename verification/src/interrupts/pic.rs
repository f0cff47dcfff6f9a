//! The two chained interrupt controllers: how they are set up and how an
//! interrupt is acknowledged.

use vstd::prelude::*;
use crate::interrupts::{PIC_1_OFFSET, PIC_2_OFFSET};
use crate::port::PortWrite;

verus! {

/// Command port of the primary interrupt controller.
pub const PRIMARY_COMMAND_PORT: u16 = 0x20;

/// Data port of the primary interrupt controller.
pub const PRIMARY_DATA_PORT: u16 = 0x21;

/// Command port of the secondary interrupt controller.
pub const SECONDARY_COMMAND_PORT: u16 = 0xa0;

/// Data port of the secondary interrupt controller.
pub const SECONDARY_DATA_PORT: u16 = 0xa1;

/// A port that nothing listens on; a write to it gives a controller time to
/// take up the command before.
pub const WAIT_PORT: u16 = 0x80;

/// Command that starts the initialization sequence of a controller.
pub const CMD_INIT: u8 = 0x11;

/// Command that signals the end of an interrupt.
pub const CMD_END_OF_INTERRUPT: u8 = 0x20;

/// Mode word: 8086 mode.
pub const MODE_8086: u8 = 0x01;

/// Line of the primary controller that the secondary is chained to, as the
/// bit mask the primary is told.
pub const CASCADE_LINE_MASK: u8 = 4;

/// Number of that line, as the secondary is told.
pub const CASCADE_IDENTITY: u8 = 2;

/// A byte written to `port`.
pub open spec fn byte_write(port: u16, value: u8) -> PortWrite {
    PortWrite::Byte { port, value }
}

/// The write that lets a controller catch up.
pub open spec fn wait_write() -> PortWrite {
    PortWrite::Byte { port: WAIT_PORT, value: 0 }
}

/// The pair of interrupt controllers, the secondary chained to the primary.
/// Each maps its eight lines to the eight vectors from its offset on.
#[derive(Debug, Clone, Copy, PartialEq, Eq, Structural)]
pub struct ChainedPics {
    pub primary_offset: u8,
    pub secondary_offset: u8,
}

impl ChainedPics {
    pub open spec fn spec_standard() -> ChainedPics {
        ChainedPics { primary_offset: PIC_1_OFFSET, secondary_offset: PIC_2_OFFSET }
    }

    /// The controllers as the kernel uses them: vectors 32 to 39 for the
    /// primary and 40 to 47 for the secondary, clear of the 32 vectors the
    /// processor keeps for exceptions.
    #[verifier::when_used_as_spec(spec_standard)]
    pub fn standard() -> (pics: ChainedPics)
        ensures
            pics == ChainedPics::spec_standard(),
    {
        ChainedPics { primary_offset: PIC_1_OFFSET, secondary_offset: PIC_2_OFFSET }
    }

    /// Whether `vector` belongs to a line of the primary controller.
    pub open spec fn primary_handles(self, vector: u8) -> bool {
        self.primary_offset <= vector < self.primary_offset + 8
    }

    /// Whether `vector` belongs to a line of the secondary controller.
    pub open spec fn secondary_handles(self, vector: u8) -> bool {
        self.secondary_offset <= vector < self.secondary_offset + 8
    }

    pub open spec fn spec_handles_interrupt(self, vector: u8) -> bool {
        self.primary_handles(vector) || self.secondary_handles(vector)
    }

    /// Whether `vector` belongs to a line of either controller.
    #[verifier::when_used_as_spec(spec_handles_interrupt)]
    pub fn handles_interrupt(self, vector: u8) -> (handled: bool)
        ensures
            handled == self.spec_handles_interrupt(vector),
    {
        let v = vector as u16;
        let p = self.primary_offset as u16;
        let s = self.secondary_offset as u16;
        (p <= v && v < p + 8) || (s <= v && v < s + 8)
    }

    /// The vector that line `line` (0 to 15) of the pair raises.
    pub open spec fn vector_of_line(self, line: int) -> int {
        if line < 8 {
            self.primary_offset + line
        } else {
            self.secondary_offset + line - 8
        }
    }

    /// The writes that set both controllers up: the start command to each,
    /// then each one's vector offset, then how they are chained, then the
    /// mode, each followed by a write to the wait port; at last the masks
    /// that were in force before.
    pub open spec fn spec_initialize(self, saved_masks: (u8, u8)) -> Seq<PortWrite> {
        seq![
            byte_write(PRIMARY_COMMAND_PORT, CMD_INIT),
            wait_write(),
            byte_write(SECONDARY_COMMAND_PORT, CMD_INIT),
            wait_write(),
            byte_write(PRIMARY_DATA_PORT, self.primary_offset),
            wait_write(),
            byte_write(SECONDARY_DATA_PORT, self.secondary_offset),
            wait_write(),
            byte_write(PRIMARY_DATA_PORT, CASCADE_LINE_MASK),
            wait_write(),
            byte_write(SECONDARY_DATA_PORT, CASCADE_IDENTITY),
            wait_write(),
            byte_write(PRIMARY_DATA_PORT, MODE_8086),
            wait_write(),
            byte_write(SECONDARY_DATA_PORT, MODE_8086),
            wait_write(),
            byte_write(PRIMARY_DATA_PORT, saved_masks.0),
            byte_write(SECONDARY_DATA_PORT, saved_masks.1),
        ]
    }

    /// The writes that set both controllers up, in order. `saved_masks` are
    /// the interrupt masks read from the two data ports beforehand.
    pub fn initialize(self, saved_masks: (u8, u8)) -> (writes: Vec<PortWrite>)
        ensures
            writes@ == self.spec_initialize(saved_masks),
    {
        let wait = PortWrite::Byte { port: WAIT_PORT, value: 0 };
        let mut writes: Vec<PortWrite> = Vec::new();
        writes.push(PortWrite::Byte { port: PRIMARY_COMMAND_PORT, value: CMD_INIT });
        writes.push(wait);
        writes.push(PortWrite::Byte { port: SECONDARY_COMMAND_PORT, value: CMD_INIT });
        writes.push(wait);
        writes.push(PortWrite::Byte { port: PRIMARY_DATA_PORT, value: self.primary_offset });
        writes.push(wait);
        writes.push(PortWrite::Byte { port: SECONDARY_DATA_PORT, value: self.secondary_offset });
        writes.push(wait);
        writes.push(PortWrite::Byte { port: PRIMARY_DATA_PORT, value: CASCADE_LINE_MASK });
        writes.push(wait);
        writes.push(PortWrite::Byte { port: SECONDARY_DATA_PORT, value: CASCADE_IDENTITY });
        writes.push(wait);
        writes.push(PortWrite::Byte { port: PRIMARY_DATA_PORT, value: MODE_8086 });
        writes.push(wait);
        writes.push(PortWrite::Byte { port: SECONDARY_DATA_PORT, value: MODE_8086 });
        writes.push(wait);
        writes.push(PortWrite::Byte { port: PRIMARY_DATA_PORT, value: saved_masks.0 });
        writes.push(PortWrite::Byte { port: SECONDARY_DATA_PORT, value: saved_masks.1 });
        assert(writes@ =~= self.spec_initialize(saved_masks));
        writes
    }

    /// The writes that acknowledge the interrupt of `vector`: for a line of
    /// the secondary controller, the end-of-interrupt command to the
    /// secondary and then to the primary; for a line of the primary, to the
    /// primary alone; for any other vector, none.
    pub open spec fn spec_end_of_interrupt(self, vector: u8) -> Seq<PortWrite> {
        if self.secondary_handles(vector) {
            seq![
                byte_write(SECONDARY_COMMAND_PORT, CMD_END_OF_INTERRUPT),
                byte_write(PRIMARY_COMMAND_PORT, CMD_END_OF_INTERRUPT),
            ]
        } else if self.primary_handles(vector) {
            seq![byte_write(PRIMARY_COMMAND_PORT, CMD_END_OF_INTERRUPT)]
        } else {
            Seq::empty()
        }
    }

    /// The writes that acknowledge the interrupt of `vector`, in order.
    pub fn notify_end_of_interrupt(self, vector: u8) -> (writes: Vec<PortWrite>)
        ensures
            writes@ == self.spec_end_of_interrupt(vector),
    {
        let v = vector as u16;
        let p = self.primary_offset as u16;
        let s = self.secondary_offset as u16;
        let mut writes: Vec<PortWrite> = Vec::new();
        if s <= v && v < s + 8 {
            writes.push(
                PortWrite::Byte { port: SECONDARY_COMMAND_PORT, value: CMD_END_OF_INTERRUPT },
            );
            writes.push(PortWrite::Byte { port: PRIMARY_COMMAND_PORT, value: CMD_END_OF_INTERRUPT });
        } else if p <= v && v < p + 8 {
            writes.push(PortWrite::Byte { port: PRIMARY_COMMAND_PORT, value: CMD_END_OF_INTERRUPT });
        }
        assert(writes@ =~= self.spec_end_of_interrupt(vector));
        writes
    }
}

/// With the standard offsets the sixteen lines raise the vectors 32 to 47,
/// each line a vector of its own, and the controllers answer for exactly
/// those vectors.
pub proof fn lemma_standard_vectors(line: int, other: int, vector: u8)
    requires
        0 <= line < 16,
        0 <= other < 16,
    ensures
        32 <= ChainedPics::standard().vector_of_line(line) < 48,
        ChainedPics::standard().vector_of_line(line) == 32 + line,
        line != other ==> ChainedPics::standard().vector_of_line(line)
            != ChainedPics::standard().vector_of_line(other),
        ChainedPics::standard().spec_handles_interrupt(vector) <==> 32 <= vector < 48,
{
}

/// Whenever the secondary controller is acknowledged, it is acknowledged
/// first and the primary right after it; the primary is acknowledged for
/// every vector of either controller.
pub proof fn lemma_acknowledge_order(pics: ChainedPics, vector: u8)
    ensures
        pics.spec_handles_interrupt(vector) ==> pics.spec_end_of_interrupt(vector).last()
            == byte_write(PRIMARY_COMMAND_PORT, CMD_END_OF_INTERRUPT),
        forall|i: int|
            0 <= i < pics.spec_end_of_interrupt(vector).len() && pics.spec_end_of_interrupt(
                vector,
            )[i] == byte_write(SECONDARY_COMMAND_PORT, CMD_END_OF_INTERRUPT) ==> i == 0
                && pics.spec_end_of_interrupt(vector).len() == 2,
        !pics.spec_handles_interrupt(vector) ==> pics.spec_end_of_interrupt(vector).len() == 0,
{
}

} // verus!
