//! Reading a prefix from its text.

use crate::error::ParseError;
use crate::grammar::{
    address_groups, all_hextets, decimal_digit, expand, fields, first_index, first_marker, groups,
    head_text, hex_digit, hex_value, hextet, hextets, is_first, is_first_marker, is_hextet,
    is_numeral, marker_at, numeral_value, tail_text, COLON,
};
use vstd::prelude::*;

verus! {

/// The first `b` of a text is where one is found with none before it.
proof fn lemma_first_index_found(s: Seq<u8>, b: u8, i: int)
    requires
        is_first(s, b, i),
    ensures
        first_index(s, b) == Some(i),
{
    let c = choose|c: int| is_first(s, b, c);
    assert(is_first(s, b, c));
    if c < i {
        assert(s[c] == b);
    } else if i < c {
        assert(s[i] == b);
    }
}

/// A text without `b` has no first `b`.
proof fn lemma_first_index_absent(s: Seq<u8>, b: u8)
    requires
        forall|j: int| 0 <= j < s.len() ==> s[j] != b,
    ensures
        first_index(s, b) is None,
{
    assert forall|i: int| !is_first(s, b, i) by {
        if 0 <= i < s.len() {
            assert(s[i] != b);
        }
    }
}

/// The first `::` of a text is where one is found with none before it.
proof fn lemma_first_marker_found(s: Seq<u8>, i: int)
    requires
        is_first_marker(s, i),
    ensures
        first_marker(s) == Some(i),
{
    let c = choose|c: int| is_first_marker(s, c);
    assert(is_first_marker(s, c));
    if c < i {
        assert(marker_at(s, c));
    } else if i < c {
        assert(marker_at(s, i));
    }
}

/// A text without `::` has no first `::`.
proof fn lemma_first_marker_absent(s: Seq<u8>)
    requires
        forall|j: int| 0 <= j < s.len() ==> !marker_at(s, j),
    ensures
        first_marker(s) is None,
{
    assert forall|i: int| !is_first_marker(s, i) by {
        if marker_at(s, i) {
            assert(0 <= i < s.len());
        }
    }
}

/// Finds the first `b` in `s`.
pub(crate) fn find_byte(s: &[u8], b: u8) -> (r: Option<usize>)
    ensures
        match r {
            Some(i) => first_index(s@, b) == Some(i as int) && i < s.len(),
            None => first_index(s@, b) is None,
        },
{
    let mut i: usize = 0;
    while i < s.len()
        invariant
            i <= s.len(),
            forall|j: int| 0 <= j < i ==> s@[j] != b,
        decreases s.len() - i,
    {
        if s[i] == b {
            proof {
                lemma_first_index_found(s@, b, i as int);
            }
            return Some(i);
        }
        i += 1;
    }
    proof {
        lemma_first_index_absent(s@, b);
    }
    None
}

/// Finds the first `::` in `s`.
fn find_marker(s: &[u8]) -> (r: Option<usize>)
    ensures
        match r {
            Some(i) => first_marker(s@) == Some(i as int) && i + 2 <= s.len(),
            None => first_marker(s@) is None,
        },
{
    let mut i: usize = 0;
    while i < s.len()
        invariant
            i <= s.len(),
            forall|j: int| 0 <= j < i ==> !marker_at(s@, j),
        decreases s.len() - i,
    {
        if s[i] == COLON && i + 1 < s.len() && s[i + 1] == COLON {
            proof {
                lemma_first_marker_found(s@, i as int);
            }
            return Some(i);
        }
        i += 1;
    }
    proof {
        lemma_first_marker_absent(s@);
    }
    None
}

/// Reads the length of a prefix: a decimal numeral of any number of digits,
/// with a value of at most 128.
pub(crate) fn parse_length(t: &[u8]) -> (r: Result<u8, ParseError>)
    ensures
        match r {
            Ok(n) => is_numeral(t@) && numeral_value(t@) == n && n <= 128,
            Err(e) => if is_numeral(t@) {
                e == ParseError::LengthOutOfRange && numeral_value(t@) > 128
            } else {
                e == ParseError::MalformedLength
            },
        },
{
    if t.len() == 0 {
        return Err(ParseError::MalformedLength);
    }
    // `acc` is the value read so far, or 129 once that value is above 128.
    let mut acc: u32 = 0;
    let mut i: usize = 0;
    while i < t.len()
        invariant
            i <= t.len(),
            forall|j: int| 0 <= j < i ==> decimal_digit(#[trigger] t@[j]) is Some,
            acc <= 129,
            numeral_value(t@.subrange(0, i as int)) <= 128 ==> acc == numeral_value(
                t@.subrange(0, i as int),
            ),
            numeral_value(t@.subrange(0, i as int)) > 128 ==> acc == 129,
        decreases t.len() - i,
    {
        let b = t[i];
        if b < 0x30 || b > 0x39 {
            assert(decimal_digit(t@[i as int]) is None);
            return Err(ParseError::MalformedLength);
        }
        let next: u32 = acc * 10 + (b - 0x30) as u32;
        proof {
            let upto = t@.subrange(0, i + 1);
            assert(upto.drop_last() =~= t@.subrange(0, i as int));
            assert(upto.last() == b);
        }
        acc = if next > 128 { 129 } else { next };
        i += 1;
    }
    assert(t@.subrange(0, i as int) =~= t@);
    if acc > 128 {
        Err(ParseError::LengthOutOfRange)
    } else {
        Ok(acc as u8)
    }
}

/// Reads one hexadecimal digit, in either case.
fn hex_digit_of(b: u8) -> (r: Option<u8>)
    ensures
        match r {
            Some(d) => hex_digit(b) == Some(d as nat) && d < 16,
            None => hex_digit(b) is None,
        },
{
    if 0x30 <= b && b <= 0x39 {
        Some(b - 0x30)
    } else if 0x61 <= b && b <= 0x66 {
        Some(b - 0x61 + 10)
    } else if 0x41 <= b && b <= 0x46 {
        Some(b - 0x41 + 10)
    } else {
        None
    }
}

/// Reads one group: one to four hexadecimal digits.
fn parse_hextet(g: &[u8]) -> (r: Option<u16>)
    ensures
        r == hextet(g@),
{
    if g.len() == 0 || g.len() > 4 {
        return None;
    }
    let mut acc: u32 = 0;
    let mut i: usize = 0;
    while i < g.len()
        invariant
            i <= g.len() <= 4,
            forall|j: int| 0 <= j < i ==> hex_digit(#[trigger] g@[j]) is Some,
            acc == hex_value(g@.subrange(0, i as int)),
            i == 0 ==> acc == 0,
            i == 1 ==> acc < 0x10,
            i == 2 ==> acc < 0x100,
            i == 3 ==> acc < 0x1000,
            i == 4 ==> acc < 0x1_0000,
        decreases g.len() - i,
    {
        match hex_digit_of(g[i]) {
            None => {
                assert(hex_digit(g@[i as int]) is None);
                return None;
            },
            Some(d) => {
                proof {
                    let upto = g@.subrange(0, i + 1);
                    assert(upto.drop_last() =~= g@.subrange(0, i as int));
                    assert(upto.last() == g@[i as int]);
                }
                acc = acc * 16 + d as u32;
            },
        }
        i += 1;
    }
    assert(g@.subrange(0, i as int) =~= g@);
    Some(acc as u16)
}

/// The texts that the slices of `parts` hold.
spec fn texts(parts: Seq<&[u8]>) -> Seq<Seq<u8>> {
    Seq::new(parts.len(), |k: int| parts[k]@)
}

/// Cuts one side of an address into its groups, at each `:`.
fn split_groups<'a>(piece: &'a [u8]) -> (parts: Vec<&'a [u8]>)
    ensures
        texts(parts@) == groups(piece@),
{
    let mut parts: Vec<&'a [u8]> = Vec::new();
    if piece.len() == 0 {
        assert(texts(parts@) =~= groups(piece@));
        return parts;
    }
    let ghost whole = piece@;
    let mut start: usize = 0;
    let mut i: usize = 0;
    proof {
        assert(whole.subrange(0, whole.len() as int) =~= whole);
        assert(texts(parts@) + fields(whole) =~= fields(whole));
    }
    while i < piece.len()
        invariant
            start <= i <= piece.len(),
            whole == piece@,
            forall|j: int| start <= j < i ==> whole[j] != COLON,
            fields(whole) == texts(parts@) + fields(whole.subrange(start as int, whole.len() as int)),
        decreases piece.len() - i,
    {
        if piece[i] == COLON {
            let part = &piece[start..i];
            proof {
                let rest = whole.subrange(start as int, whole.len() as int);
                lemma_first_index_found(rest, COLON, i - start);
                assert(rest.subrange(0, i - start) =~= part@);
                assert(rest.subrange(i - start + 1, rest.len() as int) =~= whole.subrange(
                    i + 1,
                    whole.len() as int,
                ));
                assert(texts(parts@.push(part)) =~= texts(parts@) + seq![part@]);
            }
            parts.push(part);
            start = i + 1;
        }
        i += 1;
    }
    let part = &piece[start..i];
    proof {
        let rest = whole.subrange(start as int, whole.len() as int);
        lemma_first_index_absent(rest, COLON);
        assert(rest =~= part@);
        assert(texts(parts@.push(part)) =~= texts(parts@) + seq![part@]);
    }
    parts.push(part);
    parts
}

/// Reads each of `parts` as a group.
fn parse_hextets(parts: &Vec<&[u8]>) -> (r: Option<Vec<u16>>)
    ensures
        match r {
            Some(values) => all_hextets(texts(parts@)) && values@ == hextets(texts(parts@)),
            None => !all_hextets(texts(parts@)),
        },
{
    let mut values: Vec<u16> = Vec::new();
    let mut k: usize = 0;
    while k < parts.len()
        invariant
            k <= parts.len(),
            values.len() == k,
            forall|j: int| 0 <= j < k ==> is_hextet(#[trigger] texts(parts@)[j]),
            forall|j: int| 0 <= j < k ==> values[j] == hex_value(texts(parts@)[j]) as u16,
        decreases parts.len() - k,
    {
        match parse_hextet(parts[k]) {
            None => {
                assert(!is_hextet(texts(parts@)[k as int]));
                return None;
            },
            Some(v) => {
                values.push(v);
            },
        }
        k += 1;
    }
    assert(values@ =~= hextets(texts(parts@)));
    Some(values)
}

/// Reads the address of a prefix into its eight groups.
pub(crate) fn parse_address(text: &[u8]) -> (r: Result<[u16; 8], ParseError>)
    ensures
        match r {
            Ok(g) => address_groups(text@) == Ok::<Seq<u16>, ParseError>(g@),
            Err(e) => address_groups(text@) == Err::<Seq<u16>, ParseError>(e),
        },
{
    let (head, tail) = match find_marker(text) {
        Some(m) => (&text[0..m], &text[m + 2..text.len()]),
        None => (text, &text[0..0]),
    };
    assert(head@ =~= head_text(text@));
    assert(tail@ =~= tail_text(text@));
    if find_marker(tail).is_some() {
        return Err(ParseError::MultipleZeroCompression);
    }
    let head_parts = split_groups(head);
    let tail_parts = split_groups(tail);
    if head_parts.len() > 8 || tail_parts.len() > 8 - head_parts.len() {
        return Err(ParseError::TooManySegments);
    }
    let head_values = match parse_hextets(&head_parts) {
        Some(values) => values,
        None => {
            return Err(ParseError::MalformedSegment);
        },
    };
    let tail_values = match parse_hextets(&tail_parts) {
        Some(values) => values,
        None => {
            return Err(ParseError::MalformedSegment);
        },
    };
    let gap: usize = 8 - head_values.len() - tail_values.len();
    let mut all: [u16; 8] = [0u16; 8];
    let mut k: usize = 0;
    while k < head_values.len()
        invariant
            k <= head_values.len() <= 8,
            forall|j: int| 0 <= j < k ==> all@[j] == head_values@[j],
            forall|j: int| k <= j < 8 ==> all@[j] == 0,
        decreases head_values.len() - k,
    {
        all[k] = head_values[k];
        k += 1;
    }
    let mut k: usize = 0;
    while k < tail_values.len()
        invariant
            k <= tail_values.len(),
            head_values.len() + gap + tail_values.len() == 8,
            forall|j: int| 0 <= j < head_values.len() ==> all@[j] == head_values@[j],
            forall|j: int| head_values.len() <= j < head_values.len() + gap ==> all@[j] == 0,
            forall|j: int| 0 <= j < k ==> all@[head_values.len() + gap + j] == tail_values@[j],
        decreases tail_values.len() - k,
    {
        all[head_values.len() + gap + k] = tail_values[k];
        k += 1;
    }
    assert(all@ =~= expand(head_values@, tail_values@));
    Ok(all)
}

} // verus!
