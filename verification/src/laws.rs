//! What holds of every prefix: how its range lies, and when two ranges meet.

use crate::addr::IPv6Addr;
use crate::prefix::IPv6Prefix;
use vstd::arithmetic::div_mod::{
    lemma_fundamental_div_mod, lemma_fundamental_div_mod_converse, lemma_mod_bound,
    lemma_mod_multiples_basic, lemma_small_mod,
};
use vstd::arithmetic::power2::{
    lemma2_to64, lemma2_to64_rest, lemma_pow2_adds, lemma_pow2_pos, pow2,
};
use vstd::prelude::*;

verus! {

/// The number whose digits in base 65536 are the eight groups `g`, the first
/// of them the most significant.
pub open spec fn groups_value(g: Seq<u16>) -> nat {
    (((((((g[0] * 0x1_0000 + g[1]) * 0x1_0000 + g[2]) * 0x1_0000 + g[3]) * 0x1_0000 + g[4])
        * 0x1_0000 + g[5]) * 0x1_0000 + g[6]) * 0x1_0000 + g[7]) as nat
}

/// An address is the number that its two halves write in base 2^64, and is
/// below 2^128. Two addresses that are the same number are the same address.
pub proof fn lemma_address_value(a: IPv6Addr, b: IPv6Addr)
    ensures
        a@ < pow2(128),
        a@ == b@ <==> a == b,
{
    lemma2_to64_rest();
    lemma_pow2_adds(64, 64);
}

/// Eight groups packed into an address are the digits of that address in
/// base 65536.
pub proof fn lemma_packed_value(g: Seq<u16>)
    requires
        g.len() == 8,
    ensures
        IPv6Addr::packed(g)@ == groups_value(g),
{
}

/// The range of a prefix starts at a multiple of the network's size, holds
/// as many addresses as the size says, holds the address that the prefix was
/// made with, and ends below 2^128.
pub proof fn lemma_range_bounds(p: IPv6Prefix)
    requires
        p.wf(),
    ensures
        p.size() >= 1,
        p.first() % p.size() == 0,
        p.first() == (p.address()@ / p.size()) * p.size(),
        p.last() == p.first() + p.size() - 1,
        p.first() <= p.address()@ <= p.last(),
        p.last() < pow2(128),
{
    let s = p.size() as int;
    let v = p.address()@ as int;
    lemma_pow2_pos((128 - p.length()) as nat);
    lemma_fundamental_div_mod(v, s);
    lemma_mod_bound(v, s);
    lemma_address_value(p.address(), p.address());
    lemma_pow2_adds((128 - p.length()) as nat, p.length());
    lemma_pow2_pos(p.length());
    let q = v / s;
    let t = pow2(p.length()) as int;
    assert(q * s == s * q) by (nonlinear_arith);
    assert((q * s) % s == 0) by {
        lemma_mod_multiples_basic(q, s);
    }
    // The range ends below 2^128: `q` is below `t`, and `s * t` is 2^128.
    assert(q < t) by (nonlinear_arith)
        requires
            s * q <= v,
            v < s * t,
            s > 0,
    ;
    assert(s * q + s <= s * t) by (nonlinear_arith)
        requires
            q + 1 <= t,
            s > 0,
    ;
}

/// Packing eight groups and taking the range of a prefix made with them
/// gives the bounds that the groups and the length name: the number that the
/// groups write, cut down to a multiple of the network's size, and the last
/// number before the next multiple.
pub proof fn lemma_range_of_groups(g: Seq<u16>, p: IPv6Prefix)
    requires
        g.len() == 8,
        p.wf(),
        p.address() == IPv6Addr::packed(g),
    ensures
        p.first() == (groups_value(g) / p.size()) * p.size(),
        p.last() == (groups_value(g) / p.size()) * p.size() + p.size() - 1,
        p.first() <= groups_value(g) <= p.last(),
{
    lemma_packed_value(g);
    lemma_range_bounds(p);
}

/// Whether two prefixes overlap does not depend on which of them is asked.
pub proof fn lemma_overlaps_symmetric(a: IPv6Prefix, b: IPv6Prefix)
    ensures
        a.intersects(b) == b.intersects(a),
{
}

/// Every prefix overlaps itself.
pub proof fn lemma_overlaps_reflexive(a: IPv6Prefix)
    requires
        a.wf(),
    ensures
        a.intersects(a),
{
    lemma_range_bounds(a);
}

/// A prefix of length 128 is one address, and overlaps another prefix just
/// when that address lies in the other's range.
pub proof fn lemma_single_address(a: IPv6Prefix, b: IPv6Prefix)
    requires
        a.wf(),
        b.wf(),
        a.length() == 128,
    ensures
        a.first() == a.address()@,
        a.last() == a.address()@,
        a.intersects(b) <==> b.first() <= a.address()@ <= b.last(),
{
    lemma2_to64();
    lemma_range_bounds(a);
}

/// Two prefixes of length 128 overlap just when their addresses are equal.
pub proof fn lemma_single_addresses(a: IPv6Prefix, b: IPv6Prefix)
    requires
        a.wf(),
        b.wf(),
        a.length() == 128,
        b.length() == 128,
    ensures
        a.intersects(b) <==> a.address() == b.address(),
{
    lemma_single_address(a, b);
    lemma_single_address(b, a);
    lemma_address_value(a.address(), b.address());
}

/// A prefix of length 0 is every address, and overlaps every prefix.
pub proof fn lemma_whole_space(a: IPv6Prefix, b: IPv6Prefix)
    requires
        a.wf(),
        b.wf(),
        a.length() == 0,
    ensures
        a.first() == 0,
        a.last() == pow2(128) - 1,
        a.intersects(b),
{
    lemma_address_value(a.address(), a.address());
    lemma_small_mod(a.address()@, pow2(128));
    lemma_range_bounds(a);
    lemma_range_bounds(b);
}

/// Two prefixes overlap just when some address lies in the range of both.
pub proof fn lemma_overlaps_shares(a: IPv6Prefix, b: IPv6Prefix)
    requires
        a.wf(),
        b.wf(),
    ensures
        a.intersects(b) <==> exists|x: nat| a.contains(x) && b.contains(x),
{
    lemma_range_bounds(a);
    lemma_range_bounds(b);
    if a.intersects(b) {
        let x = if a.first() <= b.first() { b.first() } else { a.first() };
        assert(a.contains(x) && b.contains(x));
    }
}

/// The shorter of two lengths.
pub open spec fn shorter(a: nat, b: nat) -> nat {
    if a <= b {
        a
    } else {
        b
    }
}

/// Of two prefixes, `a` not longer than `b`: they overlap just when the
/// address of `b` has the leading bits of `a`, as many as the length of `a`
/// says.
proof fn lemma_overlaps_nested(a: IPv6Prefix, b: IPv6Prefix)
    requires
        a.wf(),
        b.wf(),
        a.length() <= b.length(),
    ensures
        a.intersects(b) <==> a.address()@ / a.size() == b.address()@ / a.size(),
{
    let s = a.size() as int;
    let sb = b.size() as int;
    let t = pow2((b.length() - a.length()) as nat) as int;
    let va = a.address()@ as int;
    let vb = b.address()@ as int;
    lemma_range_bounds(a);
    lemma_range_bounds(b);
    lemma_pow2_adds((128 - b.length()) as nat, (b.length() - a.length()) as nat);
    lemma_pow2_pos((b.length() - a.length()) as nat);
    assert(s == sb * t);
    let ka = va / s;
    let qb = vb / sb;
    let k = qb / t;
    let r = qb % t;
    lemma_fundamental_div_mod(qb, t);
    lemma_mod_bound(qb, t);
    // The range of `b` lies in the block of size `s` that starts at `s * k`.
    assert(b.first() == k * s + sb * r) by (nonlinear_arith)
        requires
            b.first() == qb * sb,
            qb == t * k + r,
            s == sb * t,
    ;
    assert(sb * r + sb <= s) by (nonlinear_arith)
        requires
            0 <= r < t,
            s == sb * t,
            sb > 0,
    ;
    lemma_fundamental_div_mod_converse(vb, s, k, vb - k * s);
    assert(a.first() == ka * s);
    if ka < k {
        assert(ka * s + s <= k * s) by (nonlinear_arith)
            requires
                ka + 1 <= k,
                s > 0,
        ;
    } else if ka > k {
        assert(k * s + s <= ka * s) by (nonlinear_arith)
            requires
                k + 1 <= ka,
                s > 0,
        ;
    }
}

/// Two prefixes overlap just when their addresses agree in the leading bits
/// that both fix: as many as the shorter of the two lengths says.
pub proof fn lemma_overlaps_leading_bits(a: IPv6Prefix, b: IPv6Prefix)
    requires
        a.wf(),
        b.wf(),
    ensures
        a.intersects(b) <==> a.address()@ / pow2((128 - shorter(a.length(), b.length())) as nat)
            == b.address()@ / pow2((128 - shorter(a.length(), b.length())) as nat),
{
    if a.length() <= b.length() {
        lemma_overlaps_nested(a, b);
    } else {
        lemma_overlaps_nested(b, a);
    }
}

/// The masks of the lengths 0, 64 and 128: no bit set, the high half set,
/// and every bit set.
pub proof fn lemma_mask_ends()
    ensures
        IPv6Prefix::mask_of(0) == (IPv6Addr { high: 0, low: 0 }),
        IPv6Prefix::mask_of(64) == (IPv6Addr { high: 0xffff_ffff_ffff_ffff, low: 0 }),
        IPv6Prefix::mask_of(128) == (IPv6Addr {
            high: 0xffff_ffff_ffff_ffff,
            low: 0xffff_ffff_ffff_ffff,
        }),
{
    lemma2_to64();
    lemma2_to64_rest();
}

} // verus!
