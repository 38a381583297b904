//! A 128-bit IPv6 address held as two 64-bit halves.

use vstd::prelude::*;

verus! {

/// An IPv6 address: `high` holds the most significant 64 bits, `low` the
/// least significant 64 bits.
#[derive(Clone, Copy, Debug, PartialEq, Eq, Ord, Structural)]
pub struct IPv6Addr {
    pub high: u64,
    pub low: u64,
}

impl View for IPv6Addr {
    type V = nat;

    /// The address as a number below 2^128.
    open spec fn view(&self) -> nat {
        (self.high * 0x1_0000_0000_0000_0000 + self.low) as nat
    }
}

impl IPv6Addr {
    /// Four groups as one 64-bit word, the first group in the most
    /// significant 16 bits.
    pub open spec fn word(g: Seq<u16>, at: int) -> u64 {
        (g[at] * 0x1_0000_0000_0000 + g[at + 1] * 0x1_0000_0000 + g[at + 2] * 0x1_0000 + g[at
            + 3]) as u64
    }

    /// The address with the eight groups `g`: the first four make `high`, the
    /// last four make `low`.
    pub open spec fn packed(g: Seq<u16>) -> IPv6Addr {
        IPv6Addr { high: Self::word(g, 0), low: Self::word(g, 4) }
    }

    /// The address with the eight groups `groups`, the first of them in the
    /// most significant bits.
    pub fn from_groups(groups: [u16; 8]) -> (r: IPv6Addr)
        ensures
            r == Self::packed(groups@),
    {
        IPv6Addr {
            high: pack_word(groups[0], groups[1], groups[2], groups[3]),
            low: pack_word(groups[4], groups[5], groups[6], groups[7]),
        }
    }
}

/// Four groups as one 64-bit word, `a` in the most significant 16 bits.
fn pack_word(a: u16, b: u16, c: u16, d: u16) -> (w: u64)
    ensures
        w == a * 0x1_0000_0000_0000 + b * 0x1_0000_0000 + c * 0x1_0000 + d,
{
    let w = ((a as u64) << 48) | ((b as u64) << 32) | ((c as u64) << 16) | (d as u64);
    assert(w == a * 0x1_0000_0000_0000 + b * 0x1_0000_0000 + c * 0x1_0000 + d) by (bit_vector)
        requires
            w == ((a as u64) << 48) | ((b as u64) << 32) | ((c as u64) << 16) | (d as u64),
    ;
    w
}

impl core::ops::BitAnd for IPv6Addr {
    type Output = IPv6Addr;

    /// The bits set in both addresses; `bitand_spec` says which.
    fn bitand(self, rhs: IPv6Addr) -> (r: IPv6Addr) {
        IPv6Addr { high: self.high & rhs.high, low: self.low & rhs.low }
    }
}

impl vstd::std_specs::ops::BitAndSpecImpl for IPv6Addr {
    open spec fn obeys_bitand_spec() -> bool {
        true
    }

    open spec fn bitand_req(self, rhs: IPv6Addr) -> bool {
        true
    }

    /// The bitwise AND of the two addresses, half by half.
    open spec fn bitand_spec(self, rhs: IPv6Addr) -> IPv6Addr {
        IPv6Addr { high: self.high & rhs.high, low: self.low & rhs.low }
    }
}

impl core::ops::BitOr for IPv6Addr {
    type Output = IPv6Addr;

    /// The bits set in either address; `bitor_spec` says which.
    fn bitor(self, rhs: IPv6Addr) -> (r: IPv6Addr) {
        IPv6Addr { high: self.high | rhs.high, low: self.low | rhs.low }
    }
}

impl vstd::std_specs::ops::BitOrSpecImpl for IPv6Addr {
    open spec fn obeys_bitor_spec() -> bool {
        true
    }

    open spec fn bitor_req(self, rhs: IPv6Addr) -> bool {
        true
    }

    /// The bitwise OR of the two addresses, half by half.
    open spec fn bitor_spec(self, rhs: IPv6Addr) -> IPv6Addr {
        IPv6Addr { high: self.high | rhs.high, low: self.low | rhs.low }
    }
}

impl core::ops::Not for IPv6Addr {
    type Output = IPv6Addr;

    /// The bits that are clear in the address; `not_spec` says which.
    fn not(self) -> (r: IPv6Addr) {
        IPv6Addr { high: !self.high, low: !self.low }
    }
}

impl vstd::std_specs::ops::NotSpecImpl for IPv6Addr {
    open spec fn obeys_not_spec() -> bool {
        true
    }

    open spec fn not_req(self) -> bool {
        true
    }

    /// The complement of the address, half by half.
    open spec fn not_spec(self) -> IPv6Addr {
        IPv6Addr { high: !self.high, low: !self.low }
    }
}

impl PartialOrd for IPv6Addr {
    /// How the two addresses compare as numbers: by their high halves, and
    /// by their low halves where those agree. `partial_cmp_spec` says the
    /// same of their views.
    fn partial_cmp(&self, other: &IPv6Addr) -> (r: Option<core::cmp::Ordering>) {
        if self.high < other.high {
            Some(core::cmp::Ordering::Less)
        } else if self.high > other.high {
            Some(core::cmp::Ordering::Greater)
        } else if self.low < other.low {
            Some(core::cmp::Ordering::Less)
        } else if self.low > other.low {
            Some(core::cmp::Ordering::Greater)
        } else {
            Some(core::cmp::Ordering::Equal)
        }
    }
}

impl vstd::std_specs::cmp::PartialOrdSpecImpl for IPv6Addr {
    open spec fn obeys_partial_cmp_spec() -> bool {
        true
    }

    /// The order of the two addresses as numbers; it is total.
    open spec fn partial_cmp_spec(&self, other: &IPv6Addr) -> Option<core::cmp::Ordering> {
        if self@ < other@ {
            Some(core::cmp::Ordering::Less)
        } else if self@ > other@ {
            Some(core::cmp::Ordering::Greater)
        } else {
            Some(core::cmp::Ordering::Equal)
        }
    }
}

} // verus!
