//! The textual form of a prefix, `<address>/<length>`, read as a function on
//! bytes.
//!
//! The address is a run of groups of one to four hexadecimal digits, set
//! apart by `:`; one `::` may stand for the groups that are zero. The length
//! is a decimal numeral.

use crate::addr::IPv6Addr;
use crate::error::ParseError;
use vstd::prelude::*;

verus! {

/// The byte `/`, which parts the address from the length.
pub const SLASH: u8 = 0x2f;

/// The byte `:`, which parts the groups of an address.
pub const COLON: u8 = 0x3a;

/// `i` is the place of the first `b` in `s`.
pub open spec fn is_first(s: Seq<u8>, b: u8, i: int) -> bool {
    &&& 0 <= i < s.len()
    &&& s[i] == b
    &&& forall|j: int| 0 <= j < i ==> s[j] != b
}

/// The place of the first `b` in `s`, if `s` holds one.
pub open spec fn first_index(s: Seq<u8>, b: u8) -> Option<int> {
    if exists|i: int| is_first(s, b, i) {
        Some(choose|i: int| is_first(s, b, i))
    } else {
        None
    }
}

/// A `::` starts at `i`.
pub open spec fn marker_at(s: Seq<u8>, i: int) -> bool {
    &&& 0 <= i
    &&& i + 1 < s.len()
    &&& s[i] == COLON
    &&& s[i + 1] == COLON
}

/// The first `::` of `s` starts at `i`.
pub open spec fn is_first_marker(s: Seq<u8>, i: int) -> bool {
    &&& marker_at(s, i)
    &&& forall|j: int| 0 <= j < i ==> !marker_at(s, j)
}

/// The place of the first `::` in `s`, if `s` holds one.
pub open spec fn first_marker(s: Seq<u8>) -> Option<int> {
    if exists|i: int| is_first_marker(s, i) {
        Some(choose|i: int| is_first_marker(s, i))
    } else {
        None
    }
}

/// The parts of `s` between its `:` bytes, in order. A text without `:` is
/// one part; a `:` at either end borders on an empty part.
pub open spec fn fields(s: Seq<u8>) -> Seq<Seq<u8>>
    decreases s.len(),
{
    match first_index(s, COLON) {
        Some(i) => seq![s.subrange(0, i)] + fields(s.subrange(i + 1, s.len() as int)),
        None => seq![s],
    }
}

/// The groups written in one side of an address: none in an empty text, else
/// its fields.
pub open spec fn groups(piece: Seq<u8>) -> Seq<Seq<u8>> {
    if piece.len() == 0 {
        Seq::empty()
    } else {
        fields(piece)
    }
}

/// The value of a decimal digit.
pub open spec fn decimal_digit(b: u8) -> Option<nat> {
    if 0x30 <= b <= 0x39 {
        Some((b - 0x30) as nat)
    } else {
        None
    }
}

/// `t` is a decimal numeral: one digit or more, and nothing else.
pub open spec fn is_numeral(t: Seq<u8>) -> bool {
    &&& t.len() > 0
    &&& forall|i: int| 0 <= i < t.len() ==> decimal_digit(#[trigger] t[i]) is Some
}

/// The number that the digits of `t` write in base ten.
pub open spec fn numeral_value(t: Seq<u8>) -> nat
    decreases t.len(),
{
    if t.len() == 0 {
        0
    } else {
        numeral_value(t.drop_last()) * 10 + decimal_digit(t.last()).unwrap()
    }
}

/// The value of a hexadecimal digit, in either case.
pub open spec fn hex_digit(b: u8) -> Option<nat> {
    if 0x30 <= b <= 0x39 {
        Some((b - 0x30) as nat)
    } else if 0x61 <= b <= 0x66 {
        Some((b - 0x61 + 10) as nat)
    } else if 0x41 <= b <= 0x46 {
        Some((b - 0x41 + 10) as nat)
    } else {
        None
    }
}

/// `g` is a group: one to four hexadecimal digits.
pub open spec fn is_hextet(g: Seq<u8>) -> bool {
    &&& 1 <= g.len() <= 4
    &&& forall|i: int| 0 <= i < g.len() ==> hex_digit(#[trigger] g[i]) is Some
}

/// The number that the digits of `g` write in base sixteen.
pub open spec fn hex_value(g: Seq<u8>) -> nat
    decreases g.len(),
{
    if g.len() == 0 {
        0
    } else {
        hex_value(g.drop_last()) * 16 + hex_digit(g.last()).unwrap()
    }
}

/// The group, as a number, if `g` is one.
pub open spec fn hextet(g: Seq<u8>) -> Option<u16> {
    if is_hextet(g) {
        Some(hex_value(g) as u16)
    } else {
        None
    }
}

/// Every text of `gs` is a group.
pub open spec fn all_hextets(gs: Seq<Seq<u8>>) -> bool {
    forall|k: int| 0 <= k < gs.len() ==> is_hextet(#[trigger] gs[k])
}

/// The groups of `gs` as numbers.
pub open spec fn hextets(gs: Seq<Seq<u8>>) -> Seq<u16> {
    Seq::new(gs.len(), |k: int| hex_value(gs[k]) as u16)
}

/// The eight groups of an address whose text has `head` before the `::` and
/// `tail` after it: zero groups fill what the two leave of eight.
pub open spec fn expand(head: Seq<u16>, tail: Seq<u16>) -> Seq<u16> {
    head + Seq::new((8 - head.len() - tail.len()) as nat, |k: int| 0u16) + tail
}

/// What comes before the first `::` of an address, or the whole of it.
pub open spec fn head_text(text: Seq<u8>) -> Seq<u8> {
    match first_marker(text) {
        Some(m) => text.subrange(0, m),
        None => text,
    }
}

/// What comes after the first `::` of an address; empty if there is none.
pub open spec fn tail_text(text: Seq<u8>) -> Seq<u8> {
    match first_marker(text) {
        Some(m) => text.subrange(m + 2, text.len() as int),
        None => Seq::empty(),
    }
}

/// The eight groups that the text of an address stands for, or the reason
/// why it stands for none.
///
/// A text without `::` may hold fewer than eight groups: the groups that are
/// not written are zero groups at the end. The empty text is the address zero.
pub open spec fn address_groups(text: Seq<u8>) -> Result<Seq<u16>, ParseError> {
    let head = groups(head_text(text));
    let tail = groups(tail_text(text));
    if first_marker(tail_text(text)) is Some {
        Err(ParseError::MultipleZeroCompression)
    } else if head.len() + tail.len() > 8 {
        Err(ParseError::TooManySegments)
    } else if !all_hextets(head) || !all_hextets(tail) {
        Err(ParseError::MalformedSegment)
    } else {
        Ok(expand(hextets(head), hextets(tail)))
    }
}

/// The address and the length that a text stands for, or the reason why it
/// stands for none.
///
/// The first `/` parts the address from the length. The length is judged
/// before the address, and the number of groups before their digits.
pub open spec fn prefix_of(text: Seq<u8>) -> Result<(IPv6Addr, nat), ParseError> {
    match first_index(text, SLASH) {
        None => Err(ParseError::MissingSeparator),
        Some(i) => {
            let length = text.subrange(i + 1, text.len() as int);
            if !is_numeral(length) {
                Err(ParseError::MalformedLength)
            } else if numeral_value(length) > 128 {
                Err(ParseError::LengthOutOfRange)
            } else {
                match address_groups(text.subrange(0, i)) {
                    Err(e) => Err(e),
                    Ok(g) => Ok((IPv6Addr::packed(g), numeral_value(length))),
                }
            }
        },
    }
}

} // verus!
