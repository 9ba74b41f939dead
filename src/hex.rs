use vstd::prelude::*;

verus! {

/// A hexadecimal text could not be read.
#[derive(Clone, Copy, PartialEq, Eq, Debug, Structural)]
pub struct HexError;

/// The value of an ASCII hexadecimal digit, either case.
pub open spec fn digit_value(c: u8) -> Option<u8> {
    if 0x30 <= c <= 0x39 {
        Some((c - 0x30) as u8)
    } else if 0x61 <= c <= 0x66 {
        Some((c - 0x61 + 10) as u8)
    } else if 0x41 <= c <= 0x46 {
        Some((c - 0x41 + 10) as u8)
    } else {
        None
    }
}

/// The number that the two characters `a` `b` spell in base 16: two digits,
/// or a plus sign and one digit.
pub open spec fn pair_value(a: u8, b: u8) -> Option<u8> {
    if a == 0x2b {
        digit_value(b)
    } else if digit_value(a) is Some && digit_value(b) is Some {
        Some((digit_value(a)->0 * 16 + digit_value(b)->0) as u8)
    } else {
        None
    }
}

/// Whether every pair of characters of `s` spells a number.
pub open spec fn all_pairs_valid(s: Seq<u8>) -> bool {
    forall|i: int| 0 <= i < s.len() / 2 ==> (#[trigger] pair_value(s[2 * i], s[2 * i + 1])) is Some
}

fn digit(c: u8) -> (r: Option<u8>)
    ensures
        r == digit_value(c),
{
    if 0x30 <= c && c <= 0x39 {
        Some(c - 0x30)
    } else if 0x61 <= c && c <= 0x66 {
        Some(c - 0x61 + 10)
    } else if 0x41 <= c && c <= 0x46 {
        Some(c - 0x41 + 10)
    } else {
        None
    }
}

fn pair(a: u8, b: u8) -> (r: Option<u8>)
    ensures
        r == pair_value(a, b),
{
    if a == 0x2b {
        return digit(b);
    }
    match (digit(a), digit(b)) {
        (Some(x), Some(y)) => Some(x * 16 + y),
        _ => None,
    }
}

/// Decodes a text of base-16 byte pairs: one byte for each two characters.
/// The text is ASCII and of even length.
pub fn decode_hex(buf: &Vec<u8>) -> (r: Result<Vec<u8>, HexError>)
    requires
        buf@.len() % 2 == 0,
        forall|i: int| 0 <= i < buf@.len() ==> buf@[i] < 0x80,
    ensures
        r is Ok <==> all_pairs_valid(buf@),
        r matches Ok(v) ==> v@.len() == buf@.len() / 2 && forall|i: int|
            0 <= i < v@.len() ==> pair_value(buf@[2 * i], buf@[2 * i + 1]) == Some(v@[i]),
{
    let mut out: Vec<u8> = Vec::new();
    let mut i: usize = 0;
    while i < buf.len()
        invariant
            buf@.len() % 2 == 0,
            i % 2 == 0,
            i <= buf@.len(),
            out@.len() == i / 2,
            forall|j: int|
                0 <= j < out@.len() ==> pair_value(buf@[2 * j], buf@[2 * j + 1]) == Some(out@[j]),
        decreases buf@.len() - i,
    {
        match pair(buf[i], buf[i + 1]) {
            Some(x) => {
                out.push(x);
            },
            None => {
                assert(pair_value(buf@[2 * (i / 2) as int], buf@[2 * (i / 2) as int + 1]) is None);
                return Err(HexError);
            },
        }
        i = i + 2;
    }
    assert forall|j: int| 0 <= j < buf@.len() / 2 implies (#[trigger] pair_value(
        buf@[2 * j],
        buf@[2 * j + 1],
    )) is Some by {
        assert(pair_value(buf@[2 * j], buf@[2 * j + 1]) == Some(out@[j]));
    }
    Ok(out)
}

} // verus!
