//! Hexadecimal text to bytes.
use vstd::prelude::*;

verus! {

/// The value of a hexadecimal digit, either case.
pub open spec fn hex_digit(c: char) -> Option<u8> {
    if '0' <= c && c <= '9' {
        Some((c as u32 - '0' as u32) as u8)
    } else if 'a' <= c && c <= 'f' {
        Some((c as u32 - 'a' as u32 + 10) as u8)
    } else if 'A' <= c && c <= 'F' {
        Some((c as u32 - 'A' as u32 + 10) as u8)
    } else {
        None
    }
}

/// Text of even length made of hexadecimal digits only.
pub open spec fn hex_valid(s: Seq<char>) -> bool {
    s.len() % 2 == 0 && forall|i: int| 0 <= i < s.len() ==> #[trigger] hex_digit(s[i]) is Some
}

/// The bytes that valid hexadecimal text spells, two digits each, high digit first.
pub open spec fn hex_bytes(s: Seq<char>) -> Seq<u8> {
    Seq::new(
        (s.len() / 2) as nat,
        |i: int| (hex_digit(s[2 * i])->0 * 16 + hex_digit(s[2 * i + 1])->0) as u8,
    )
}

/// The value of one hexadecimal digit.
pub fn hex_digit_value(c: char) -> (r: Option<u8>)
    ensures
        r == hex_digit(c),
{
    if '0' <= c && c <= '9' {
        Some((c as u32 - '0' as u32) as u8)
    } else if 'a' <= c && c <= 'f' {
        Some((c as u32 - 'a' as u32 + 10) as u8)
    } else if 'A' <= c && c <= 'F' {
        Some((c as u32 - 'A' as u32 + 10) as u8)
    } else {
        None
    }
}

/// Decodes hexadecimal text; `None` for odd length or a character that is not a digit.
pub fn decode_hex(s: &Vec<char>) -> (r: Option<Vec<u8>>)
    ensures
        match r {
            Some(b) => hex_valid(s@) && b@ == hex_bytes(s@),
            None => !hex_valid(s@),
        },
{
    if s.len() % 2 != 0 {
        return None;
    }
    let mut out: Vec<u8> = Vec::new();
    let mut i: usize = 0;
    while i < s.len()
        invariant
            s@.len() % 2 == 0,
            i <= s.len(),
            i % 2 == 0,
            out@.len() * 2 == i,
            forall|j: int| 0 <= j < i ==> #[trigger] hex_digit(s@[j]) is Some,
            forall|k: int| 0 <= k < out@.len() ==> #[trigger] out@[k] == hex_bytes(s@)[k],
        decreases s.len() - i,
    {
        let hi = hex_digit_value(s[i]);
        let lo = hex_digit_value(s[i + 1]);
        match (hi, lo) {
            (Some(h), Some(l)) => {
                assert(h < 16 && l < 16);
                let b: u8 = h * 16 + l;
                out.push(b);
                i = i + 2;
            },
            _ => {
                return None;
            },
        }
    }
    assert(out@ =~= hex_bytes(s@));
    Some(out)
}

} // verus!
