//! The flag bits of a monolithic datagram.

use vstd::prelude::*;

verus! {

/// The five independent flags of a datagram. Every combination is allowed.
#[derive(Debug, PartialEq, Eq, Structural)]
pub struct Flags {
    /// This packet is destined for a device if this bit is set.
    pub downlink: bool,
    /// The receiver of this packet should acknowledge receipt.
    pub should_ack: bool,
    /// On uplink the device is ready to receive; on downlink further
    /// information follows.
    pub cts_rts: bool,
    /// The sender deems the packet urgent.
    pub priority: bool,
    /// The packet, beyond the tag field, is encoded with a low density
    /// parity code.
    pub ldpc: bool,
}

/// The value of one flag at its place in the flag byte.
pub open spec fn bit(set: bool, weight: int) -> int {
    if set {
        weight
    } else {
        0
    }
}

impl Flags {
    /// The flag byte of the wire format: `downlink` is the lowest bit, then
    /// `should_ack`, `cts_rts`, `priority` and `ldpc`; the three highest bits
    /// are zero.
    pub open spec fn bits(self) -> int {
        bit(self.downlink, 1) + bit(self.should_ack, 2) + bit(self.cts_rts, 4) + bit(
            self.priority,
            8,
        ) + bit(self.ldpc, 16)
    }

    /// The flags that a flag byte stands for. Its three highest bits are not
    /// looked at.
    pub open spec fn from_bits(b: int) -> Flags {
        Flags {
            downlink: b % 2 == 1,
            should_ack: (b / 2) % 2 == 1,
            cts_rts: (b / 4) % 2 == 1,
            priority: (b / 8) % 2 == 1,
            ldpc: (b / 16) % 2 == 1,
        }
    }

    /// Every combination of the five flags is recovered from its flag byte.
    pub proof fn lemma_bits_inverse(self)
        ensures
            0 <= self.bits() < 32,
            Flags::from_bits(self.bits()) == self,
    {
    }

    /// A flag byte below 32 is the flag byte of the flags it stands for.
    pub proof fn lemma_from_bits_inverse(b: int)
        requires
            0 <= b < 32,
        ensures
            Flags::from_bits(b).bits() == b,
    {
    }

    /// Packs the flags into the flag byte.
    pub fn pack(&self) -> (b: u8)
        ensures
            b == self.bits(),
    {
        let mut b: u8 = 0;
        if self.downlink {
            b = b + 1;
        }
        if self.should_ack {
            b = b + 2;
        }
        if self.cts_rts {
            b = b + 4;
        }
        if self.priority {
            b = b + 8;
        }
        if self.ldpc {
            b = b + 16;
        }
        b
    }

    /// Reads the flags out of a flag byte.
    pub fn unpack(b: u8) -> (flags: Flags)
        ensures
            flags == Flags::from_bits(b as int),
    {
        Flags {
            downlink: b % 2 == 1,
            should_ack: (b / 2) % 2 == 1,
            cts_rts: (b / 4) % 2 == 1,
            priority: (b / 8) % 2 == 1,
            ldpc: (b / 16) % 2 == 1,
        }
    }
}

impl Default for Flags {
    /// No flag is set.
    fn default() -> (flags: Flags)
        ensures
            flags == (Flags {
                downlink: false,
                should_ack: false,
                cts_rts: false,
                priority: false,
                ldpc: false,
            }),
    {
        Flags { downlink: false, should_ack: false, cts_rts: false, priority: false, ldpc: false }
    }
}

impl Clone for Flags {
    /// The copy has the same flags set.
    fn clone(&self) -> (copy: Flags)
        ensures
            copy == *self,
    {
        Flags {
            downlink: self.downlink,
            should_ack: self.should_ack,
            cts_rts: self.cts_rts,
            priority: self.priority,
            ldpc: self.ldpc,
        }
    }
}

} // verus!
