use ipv6_overlap::{IPv6Addr, IPv6Prefix};
use std::str::FromStr;

fn prefix(text: &str) -> IPv6Prefix {
    IPv6Prefix::from_str(text).expect(text)
}

fn made(high: u64, low: u64, len: u8) -> IPv6Prefix {
    IPv6Prefix::new(IPv6Addr { high, low }, len).unwrap()
}

fn samples() -> Vec<IPv6Prefix> {
    [
        "::/0",
        "::/1",
        "8000::/1",
        "2001:db8::/32",
        "2001:db8::1/128",
        "2001:db9::/32",
        "2001:db8:ffff::/48",
        "2001:db8::/63",
        "2001:db8:0:1::/64",
        "2001:db8::/65",
        "fe80::/64",
        "fe80::1234/64",
        "fe80::1234/127",
        "fe80::1235/128",
        "ffff:ffff:ffff:ffff:ffff:ffff:ffff:ffff/128",
        "ffff:ffff:ffff:ffff:ffff:ffff:ffff:ffff/3",
        "::/128",
    ]
    .iter()
    .map(|t| prefix(t))
    .collect()
}

#[test]
fn new_takes_lengths_up_to_128() {
    let a = IPv6Addr { high: 1, low: 2 };
    for len in 0u8..=128 {
        let p = IPv6Prefix::new(a, len).unwrap();
        assert_eq!(p.addr(), a);
        assert_eq!(p.len(), len);
    }
    for len in 129u8..=255 {
        assert_eq!(IPv6Prefix::new(a, len), None);
    }
}

#[test]
fn mask_of_length_0_is_all_zero() {
    assert_eq!(prefix("::/0").mask(), IPv6Addr { high: 0, low: 0 });
    assert_eq!(made(u64::MAX, u64::MAX, 0).mask(), IPv6Addr { high: 0, low: 0 });
}

#[test]
fn mask_of_length_128_is_all_ones() {
    assert_eq!(prefix("::/128").mask(), IPv6Addr { high: u64::MAX, low: u64::MAX });
}

#[test]
fn mask_of_length_64_is_the_high_half() {
    assert_eq!(prefix("::/64").mask(), IPv6Addr { high: u64::MAX, low: 0 });
}

#[test]
fn mask_next_to_the_edges_of_the_halves() {
    assert_eq!(made(0, 0, 1).mask(), IPv6Addr { high: 0x8000_0000_0000_0000, low: 0 });
    assert_eq!(made(0, 0, 32).mask(), IPv6Addr { high: 0xffff_ffff_0000_0000, low: 0 });
    assert_eq!(made(0, 0, 63).mask(), IPv6Addr { high: 0xffff_ffff_ffff_fffe, low: 0 });
    assert_eq!(
        made(0, 0, 65).mask(),
        IPv6Addr { high: u64::MAX, low: 0x8000_0000_0000_0000 }
    );
    assert_eq!(
        made(0, 0, 96).mask(),
        IPv6Addr { high: u64::MAX, low: 0xffff_ffff_0000_0000 }
    );
    assert_eq!(
        made(0, 0, 127).mask(),
        IPv6Addr { high: u64::MAX, low: 0xffff_ffff_ffff_fffe }
    );
}

#[test]
fn mask_has_as_many_leading_ones_as_the_length() {
    for len in 0u8..=128 {
        let m = made(0x1234, 0x5678, len).mask();
        let bits = ((m.high as u128) << 64) | m.low as u128;
        assert_eq!(bits.leading_ones(), len as u32);
        assert_eq!(bits.count_ones(), len as u32);
    }
}

#[test]
fn mask_does_not_depend_on_the_address() {
    for len in [0u8, 1, 17, 64, 100, 128] {
        assert_eq!(made(0, 0, len).mask(), made(u64::MAX, 0x1234, len).mask());
    }
}

#[test]
fn range_of_a_32_bit_network() {
    assert_eq!(
        prefix("2001:db8::/32").range(),
        (
            IPv6Addr { high: 0x2001_0db8_0000_0000, low: 0 },
            IPv6Addr { high: 0x2001_0db8_ffff_ffff, low: u64::MAX },
        )
    );
}

#[test]
fn range_discards_host_bits() {
    assert_eq!(
        prefix("fe80::1234/64").range(),
        (
            IPv6Addr { high: 0xfe80_0000_0000_0000, low: 0 },
            IPv6Addr { high: 0xfe80_0000_0000_0000, low: u64::MAX },
        )
    );
    assert_eq!(prefix("fe80::1234/64").range(), prefix("fe80::/64").range());
    assert_eq!(
        prefix("2001:db8:1234:5678:9abc:def0:1234:5678/20").range(),
        (
            IPv6Addr { high: 0x2001_0000_0000_0000, low: 0 },
            IPv6Addr { high: 0x2001_0fff_ffff_ffff, low: u64::MAX },
        )
    );
    assert_eq!(
        prefix("2001:db8:1234:5678:9abc:def0:1234:5678/100").range(),
        (
            IPv6Addr { high: 0x2001_0db8_1234_5678, low: 0x9abc_def0_1000_0000 },
            IPv6Addr { high: 0x2001_0db8_1234_5678, low: 0x9abc_def0_1fff_ffff },
        )
    );
}

#[test]
fn range_of_the_whole_space() {
    assert_eq!(
        prefix("1234::5678/0").range(),
        (IPv6Addr { high: 0, low: 0 }, IPv6Addr { high: u64::MAX, low: u64::MAX })
    );
}

#[test]
fn range_of_a_single_address() {
    let a = IPv6Addr { high: 0x2001_0db8_0000_0000, low: 1 };
    assert_eq!(prefix("2001:db8::1/128").range(), (a, a));
}

#[test]
fn range_from_groups_by_direct_bit_construction() {
    let groups: [u16; 8] = [0x2001, 0x0db8, 0x85a3, 0x0042, 0x1000, 0x8a2e, 0x0370, 0x7334];
    let mut value: u128 = 0;
    for g in groups {
        value = (value << 16) | g as u128;
    }
    for len in 0u8..=128 {
        let host: u128 = if len == 0 { u128::MAX } else { (1u128 << (128 - len as u32)) - 1 };
        let first = value & !host;
        let last = value | host;
        let p = IPv6Prefix::new(IPv6Addr::from_groups(groups), len).unwrap();
        let (lo, hi) = p.range();
        assert_eq!(lo, IPv6Addr { high: (first >> 64) as u64, low: first as u64 });
        assert_eq!(hi, IPv6Addr { high: (last >> 64) as u64, low: last as u64 });
        assert!(lo <= p.addr() && p.addr() <= hi);
    }
}

#[test]
fn address_inside_block_overlaps() {
    assert!(prefix("2001:db8::/32").overlaps(&prefix("2001:db8::1/128")));
    assert!(prefix("2001:db8::1/128").overlaps(&prefix("2001:db8::/32")));
}

#[test]
fn disjoint_blocks_do_not_overlap() {
    assert!(!prefix("2001:db8::/32").overlaps(&prefix("2001:db9::/32")));
    assert!(!prefix("2001:db9::/32").overlaps(&prefix("2001:db8::/32")));
}

#[test]
fn whole_space_overlaps_everything() {
    let all = prefix("::/0");
    for p in samples() {
        assert!(all.overlaps(&p));
        assert!(p.overlaps(&all));
    }
    assert!(prefix("dead:beef::/0").overlaps(&prefix("::1/128")));
}

#[test]
fn same_network_after_masking_overlaps() {
    assert!(prefix("fe80::/64").overlaps(&prefix("fe80::1234/64")));
    assert!(prefix("fe80::1234/64").overlaps(&prefix("fe80::/64")));
}

#[test]
fn neighbours_do_not_overlap() {
    assert!(!prefix("2001:db8::/64").overlaps(&prefix("2001:db8:0:1::/64")));
    assert!(!prefix("::/1").overlaps(&prefix("8000::/1")));
    assert!(!prefix("::ffff:ffff:ffff:ffff/64").overlaps(&prefix("0:0:0:1::/64")));
    assert!(!prefix("fe80::1234/128").overlaps(&prefix("fe80::1235/128")));
}

#[test]
fn nested_blocks_overlap() {
    assert!(prefix("2001:db8::/32").overlaps(&prefix("2001:db8:ffff::/48")));
    assert!(prefix("2001:db8::/63").overlaps(&prefix("2001:db8:0:1::/64")));
    assert!(prefix("2001:db8::/65").overlaps(&prefix("2001:db8::/63")));
    assert!(!prefix("2001:db8:0:0:8000::/65").overlaps(&prefix("2001:db8::/65")));
}

#[test]
fn overlaps_is_symmetric() {
    let all = samples();
    for a in &all {
        for b in &all {
            assert_eq!(a.overlaps(b), b.overlaps(a));
        }
    }
}

#[test]
fn overlaps_is_reflexive() {
    for p in samples() {
        assert!(p.overlaps(&p));
    }
    for len in 0u8..=128 {
        let p = made(0x0123_4567_89ab_cdef, 0xfedc_ba98_7654_3210, len);
        assert!(p.overlaps(&p));
    }
}

#[test]
fn single_addresses_overlap_only_when_equal() {
    let a = prefix("fe80::1234/128");
    assert!(a.overlaps(&prefix("fe80::1234/128")));
    assert!(!a.overlaps(&prefix("fe80::1235/128")));
    assert!(!a.overlaps(&prefix("fe81::1234/128")));
    let singles: Vec<IPv6Prefix> = samples().into_iter().filter(|p| p.len() == 128).collect();
    assert!(singles.len() >= 3);
    for a in &singles {
        for b in &singles {
            assert_eq!(a.overlaps(b), a.addr() == b.addr());
        }
    }
}

#[test]
fn single_address_overlaps_the_blocks_that_hold_it() {
    let a = prefix("fe80::1234/128");
    for p in samples() {
        let (first, last) = p.range();
        assert_eq!(a.overlaps(&p), first <= a.addr() && a.addr() <= last);
    }
    assert!(a.overlaps(&prefix("fe80::1234/127")));
    assert!(!a.overlaps(&prefix("fe80::1236/127")));
}

#[test]
fn overlaps_agrees_with_comparing_the_leading_bits() {
    let all = samples();
    for a in &all {
        for b in &all {
            let n = a.len().min(b.len()) as u32;
            let va = ((a.addr().high as u128) << 64) | a.addr().low as u128;
            let vb = ((b.addr().high as u128) << 64) | b.addr().low as u128;
            let same = n == 0 || (va >> (128 - n)) == (vb >> (128 - n));
            assert_eq!(a.overlaps(b), same);
        }
    }
}
