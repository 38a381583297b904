//! A network prefix: an address and the number of its leading bits that are fixed.

use crate::addr::IPv6Addr;
use crate::bits::{
    leading_ones, lemma_and_leading_ones, lemma_or_trailing_ones, lemma_shifted_ones,
};
use crate::error::ParseError;
use crate::grammar::{prefix_of, SLASH};
use crate::parse::{find_byte, parse_address, parse_length};
use core::ops::Not;
use vstd::arithmetic::div_mod::{lemma_fundamental_div_mod, lemma_fundamental_div_mod_converse};
use vstd::arithmetic::power2::{
    lemma2_to64, lemma2_to64_rest, lemma_pow2_adds, lemma_pow2_pos, pow2,
};
use vstd::prelude::*;
use vstd::std_specs::ops::{BitAndSpec, BitOrSpec, NotSpec};
use vstd::string::StringSliceAdditionalSpecFns;

verus! {

/// An IPv6 network: the `length()` most significant bits of `address()` name
/// the network, the other bits range over its hosts. The length is at most 128.
#[derive(Clone, Copy, Debug, PartialEq, Eq, Structural)]
pub struct IPv6Prefix {
    addr: IPv6Addr,
    len: u8,
}

impl IPv6Prefix {
    /// The address the prefix was made with, host bits included.
    pub closed spec fn address(self) -> IPv6Addr {
        self.addr
    }

    /// The number of leading bits that are fixed.
    pub closed spec fn length(self) -> nat {
        self.len as nat
    }

    /// Every prefix that executable code can hold has a length of at most 128.
    #[verifier::type_invariant]
    pub open spec fn wf(self) -> bool {
        self.length() <= 128
    }

    /// The number of addresses in the network: two to the power
    /// `128 - length()`.
    pub open spec fn size(self) -> nat {
        pow2((128 - self.length()) as nat)
    }

    /// The lowest address of the network: `address()` with its host bits
    /// clear.
    pub open spec fn first(self) -> nat {
        (self.address()@ - self.address()@ % self.size()) as nat
    }

    /// The highest address of the network: `address()` with its host bits
    /// set.
    pub open spec fn last(self) -> nat {
        (self.first() + self.size() - 1) as nat
    }

    /// The address `x` lies in the range of the network.
    pub open spec fn contains(self, x: nat) -> bool {
        self.first() <= x <= self.last()
    }

    /// The two networks share an address: neither ends before the other
    /// begins.
    pub open spec fn intersects(self, other: IPv6Prefix) -> bool {
        self.first() <= other.last() && other.first() <= self.last()
    }

    /// The mask of a network of `n` leading bits, `n` at most 128: the
    /// leading bits set, half by half, and the others clear.
    pub open spec fn mask_of(n: nat) -> IPv6Addr {
        IPv6Addr {
            high: leading_ones(if n <= 64 { n } else { 64 }) as u64,
            low: leading_ones(if n <= 64 { 0 } else { (n - 64) as nat }) as u64,
        }
    }

    /// A prefix of `len` leading bits of `addr`, if `len` is at most 128.
    pub fn new(addr: IPv6Addr, len: u8) -> (r: Option<IPv6Prefix>)
        ensures
            r is Some <==> len <= 128,
            r matches Some(p) ==> p.address() == addr && p.length() == len && p.wf(),
    {
        if len <= 128 {
            Some(IPv6Prefix { addr, len })
        } else {
            None
        }
    }

    /// Reads a prefix from the bytes of its text, `<address>/<length>`.
    ///
    /// The result is what `prefix_of` says of the text: the prefix that it
    /// stands for, with the host bits of the address as they were written, or
    /// the first reason why it stands for none.
    pub fn parse_bytes(text: &[u8]) -> (r: Result<IPv6Prefix, ParseError>)
        ensures
            match r {
                Ok(p) => prefix_of(text@) == Ok::<(IPv6Addr, nat), ParseError>(
                    (p.address(), p.length()),
                ),
                Err(e) => prefix_of(text@) == Err::<(IPv6Addr, nat), ParseError>(e),
            },
    {
        let slash = match find_byte(text, SLASH) {
            Some(i) => i,
            None => {
                return Err(ParseError::MissingSeparator);
            },
        };
        let len = match parse_length(&text[slash + 1..text.len()]) {
            Ok(len) => len,
            Err(e) => {
                return Err(e);
            },
        };
        let groups = match parse_address(&text[0..slash]) {
            Ok(groups) => groups,
            Err(e) => {
                return Err(e);
            },
        };
        Ok(IPv6Prefix { addr: IPv6Addr::from_groups(groups), len })
    }

    /// The mask of the network: the `length()` leading bits set, the others
    /// clear.
    pub fn mask(&self) -> (m: IPv6Addr)
        ensures
            m == Self::mask_of(self.length()),
            m@ == pow2(128) - self.size(),
    {
        proof {
            use_type_invariant(self);
            lemma_network(self.addr, self.len as nat);
            lemma2_to64();
            lemma2_to64_rest();
        }
        let m = self.len;
        if m == 0 {
            return IPv6Addr { high: 0, low: 0 };
        }
        let high = if m >= 64 {
            u64::MAX
        } else {
            proof {
                lemma_shifted_ones((64 - m) as u64);
            }
            (!0u64) << (64 - m)
        };
        let low = if m <= 64 {
            0
        } else {
            proof {
                lemma_shifted_ones((128 - m) as u64);
            }
            (!0u64) << (128 - m)
        };
        IPv6Addr { high, low }
    }

    /// The lowest and the highest address of the network, whatever host bits
    /// `address()` has: the address under the mask, and that with every bit
    /// outside the mask set.
    pub fn range(&self) -> (r: (IPv6Addr, IPv6Addr))
        ensures
            r.0 == self.address().bitand_spec(Self::mask_of(self.length())),
            r.1 == r.0.bitor_spec(Self::mask_of(self.length()).not_spec()),
            r.0@ == self.first(),
            r.1@ == self.last(),
    {
        proof {
            use_type_invariant(self);
            lemma_network(self.addr, self.len as nat);
        }
        let m = self.mask();
        let net = self.addr & m;
        let bcast = net | m.not();
        (net, bcast)
    }

    /// Whether the two networks share an address.
    pub fn overlaps(&self, other: &IPv6Prefix) -> (r: bool)
        ensures
            r == self.intersects(*other),
    {
        let (s1, e1) = self.range();
        let (s2, e2) = other.range();
        s1 <= e2 && s2 <= e1
    }

    /// The address the prefix was made with, host bits included.
    pub fn addr(&self) -> (r: IPv6Addr)
        ensures
            r == self.address(),
    {
        self.addr
    }

    /// The number of leading bits that are fixed.
    pub fn len(&self) -> (r: u8)
        ensures
            r == self.length(),
            r <= 128,
    {
        proof {
            use_type_invariant(self);
        }
        self.len
    }
}

impl core::str::FromStr for IPv6Prefix {
    type Err = ParseError;

    /// Reads a prefix from its text, `<address>/<length>`, as `parse_bytes`
    /// reads it from the bytes of the text.
    fn from_str(s: &str) -> (r: Result<IPv6Prefix, ParseError>)
        ensures
            match r {
                Ok(p) => prefix_of(s.spec_bytes()) == Ok::<(IPv6Addr, nat), ParseError>(
                    (p.address(), p.length()),
                ),
                Err(e) => prefix_of(s.spec_bytes()) == Err::<(IPv6Addr, nat), ParseError>(e),
            },
    {
        IPv6Prefix::parse_bytes(s.as_bytes())
    }
}

/// What the mask of `n` leading bits is as a number, and what it makes of an
/// address `a`: under the mask `a` falls to the next multiple of the
/// network's size, and with every bit outside the mask set it rises to the
/// last address before the multiple after that.
proof fn lemma_network(a: IPv6Addr, n: nat)
    requires
        n <= 128,
    ensures
        ({
            let m = IPv6Prefix::mask_of(n);
            let low = a.bitand_spec(m);
            let top = low.bitor_spec(m.not_spec());
            let size = pow2((128 - n) as nat);
            &&& m@ == pow2(128) - size
            &&& low@ == a@ - a@ % size
            &&& top@ == low@ + size - 1
        }),
{
    let nh: nat = if n <= 64 { n } else { 64 };
    let nl: nat = if n <= 64 { 0 } else { (n - 64) as nat };
    let ph = pow2((64 - nh) as nat) as int;
    let pl = pow2((64 - nl) as nat) as int;
    let size = pow2((128 - n) as nat) as int;
    let w: int = 0x1_0000_0000_0000_0000;
    lemma2_to64();
    lemma2_to64_rest();
    lemma_pow2_pos((64 - nh) as nat);
    lemma_pow2_pos((64 - nl) as nat);
    lemma_pow2_adds((64 - nh) as nat, (64 - nl) as nat);
    lemma_pow2_adds((64 - nh) as nat, nh);
    lemma_pow2_adds((64 - nl) as nat, nl);
    lemma_pow2_adds(64, 64);
    lemma_pow2_pos(nh);
    lemma_pow2_pos(nl);
    assert(size == ph * pl);
    assert(ph <= w) by (nonlinear_arith)
        requires
            ph * pow2(nh) == w,
            pow2(nh) > 0,
            ph > 0,
    ;
    assert(pl <= w) by (nonlinear_arith)
        requires
            pl * pow2(nl) == w,
            pow2(nl) > 0,
            pl > 0,
    ;
    let m = IPv6Prefix::mask_of(n);
    assert(m.high == w - ph);
    assert(m.low == w - pl);
    let low = a.bitand_spec(m);
    let top = low.bitor_spec(m.not_spec());
    lemma_and_leading_ones(a.high, m.high, nh);
    lemma_and_leading_ones(a.low, m.low, nl);
    lemma_or_trailing_ones(a.high, m.high, nh);
    lemma_or_trailing_ones(a.low, m.low, nl);
    let rh = (a.high as int) % ph;
    let rl = (a.low as int) % pl;
    lemma_fundamental_div_mod(a.high as int, ph);
    lemma_fundamental_div_mod(a.low as int, pl);
    assert(low.high == a.high - rh);
    assert(low.low == a.low - rl);
    assert(top.high == low.high + ph - 1);
    assert(top.low == low.low + pl - 1);
    if n <= 64 {
        assert(pl == w);
        assert(rl == a.low);
        let q = (a.high as int) / ph;
        assert(a@ == q * size + (rh * w + a.low)) by (nonlinear_arith)
            requires
                a@ == a.high * w + a.low,
                a.high == ph * q + rh,
                size == ph * w,
        ;
        assert(0 <= rh * w + a.low < size) by (nonlinear_arith)
            requires
                0 <= rh < ph,
                0 <= a.low < w,
                size == ph * w,
        ;
        lemma_fundamental_div_mod_converse(a@ as int, size, q, rh * w + a.low);
        assert(m@ == w * w - size) by (nonlinear_arith)
            requires
                m@ == (w - ph) * w + 0,
                size == ph * w,
        ;
        assert(top@ == low@ + size - 1) by (nonlinear_arith)
            requires
                top@ == (low.high + ph - 1) * w + (w - 1),
                low@ == low.high * w + 0,
                size == ph * w,
        ;
    } else {
        assert(ph == 1);
        assert(rh == 0);
        let t = pow2(nl) as int;
        let q = (a.low as int) / pl;
        assert(a@ == (a.high * t + q) * size + rl) by (nonlinear_arith)
            requires
                a@ == a.high * w + a.low,
                a.low == pl * q + rl,
                w == pl * t,
                size == pl,
        ;
        lemma_fundamental_div_mod_converse(a@ as int, size, a.high * t + q, rl);
    }
}

} // verus!
