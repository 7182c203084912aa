//! Colours written as hexadecimal strings.

use vstd::prelude::*;
use vstd::string::StringSliceAdditionalSpecFns;

verus! {

/// Why a string is no colour.
#[derive(Copy, Clone, Debug, PartialEq, Eq, Structural)]
pub enum ColorError {
    /// The string does not start with `#`.
    MissingHash,
    /// Two characters that should be a number of two hexadecimal digits are
    /// none.
    BadDigits,
    /// The string is neither seven nor nine bytes long.
    BadLength,
}

/// The value of a hexadecimal digit.
pub open spec fn hex_digit(b: u8) -> Option<u8> {
    if 0x30 <= b <= 0x39 {
        Some((b - 0x30) as u8)
    } else if 0x61 <= b <= 0x66 {
        Some((b - 0x61 + 10) as u8)
    } else if 0x41 <= b <= 0x46 {
        Some((b - 0x41 + 10) as u8)
    } else {
        None
    }
}

/// The number that two hexadecimal digits stand for.
pub open spec fn hex_pair(high: u8, low: u8) -> Option<u8> {
    match (hex_digit(high), hex_digit(low)) {
        (Some(h), Some(l)) => Some((h * 16 + l) as u8),
        _ => None,
    }
}

/// The channels that the pairs of `hex` from byte 1 on stand for, as far as
/// `count` pairs, or nothing if one of the pairs is no number.
pub open spec fn hex_channels(hex: Seq<u8>, count: int) -> Option<Seq<u8>>
    decreases count,
{
    if count <= 0 {
        Some(Seq::empty())
    } else {
        match hex_channels(hex, count - 1) {
            None => None,
            Some(before) => match hex_pair(hex[2 * count - 1], hex[2 * count]) {
                None => None,
                Some(value) => Some(before.push(value)),
            },
        }
    }
}

/// The colour that `hex` stands for, as red, green, blue and alpha: `#`
/// and three or four numbers of two hexadecimal digits each. Where the
/// alpha is left out the colour is opaque.
pub open spec fn color_from_hex_spec(hex: Seq<u8>) -> Result<Seq<u8>, ColorError> {
    if hex.len() == 0 || hex[0] != 0x23 {
        Err(ColorError::MissingHash)
    } else if hex.len() == 9 {
        match hex_channels(hex, 4) {
            Some(channels) => Ok(channels),
            None => Err(ColorError::BadDigits),
        }
    } else if hex.len() == 7 {
        match hex_channels(hex, 3) {
            Some(channels) => Ok(channels.push(255)),
            None => Err(ColorError::BadDigits),
        }
    } else {
        Err(ColorError::BadLength)
    }
}

fn parse_hex_digit(b: u8) -> (r: Option<u8>)
    ensures
        r == hex_digit(b),
{
    if 0x30 <= b && b <= 0x39 {
        Some(b - 0x30)
    } else if 0x61 <= b && b <= 0x66 {
        Some(b - 0x61 + 10)
    } else if 0x41 <= b && b <= 0x46 {
        Some(b - 0x41 + 10)
    } else {
        None
    }
}

fn parse_hex_pair(high: u8, low: u8) -> (r: Option<u8>)
    ensures
        r == hex_pair(high, low),
{
    match parse_hex_digit(high) {
        None => None,
        Some(h) => match parse_hex_digit(low) {
            Some(l) => Some(h * 16 + l),
            None => None,
        },
    }
}

/// Reads a colour such as `#FFFFFF` or `#ffffff80`.
pub fn color_from_hex(hex: &str) -> (r: Result<[u8; 4], ColorError>)
    ensures
        match color_from_hex_spec(hex.spec_bytes()) {
            Ok(channels) => r matches Ok(color) && color@ == channels,
            Err(error) => r matches Err(e) && e == error,
        },
{
    let bytes = hex.as_bytes();
    let n = bytes.len();
    if n == 0 || bytes[0] != 0x23 {
        return Err(ColorError::MissingHash);
    }
    if n != 9 && n != 7 {
        return Err(ColorError::BadLength);
    }
    let count: usize = if n == 9 {
        4
    } else {
        3
    };
    let mut color: [u8; 4] = [0, 0, 0, 255];
    let mut i: usize = 0;
    while i < count
        invariant
            i <= count,
            n == bytes@.len(),
            bytes@ == hex.spec_bytes(),
            bytes@[0] == 0x23,
            (n == 9 && count == 4) || (n == 7 && count == 3),
            color@.len() == 4,
            color@[3] == 255 || i == 4,
            hex_channels(bytes@, i as int) == Some(color@.take(i as int)),
        decreases count - i,
    {
        match parse_hex_pair(bytes[2 * i + 1], bytes[2 * i + 2]) {
            Some(value) => {
                let ghost before = color@;
                color[i] = value;
                proof {
                    assert(color@.take(i + 1) =~= before.take(i as int).push(value));
                }
            },
            None => {
                proof {
                    assert(hex_channels(bytes@, i + 1) is None);
                    lemma_bad_pair(bytes@, i + 1, count as int);
                }
                return Err(ColorError::BadDigits);
            },
        }
        i += 1;
    }
    proof {
        if count == 3 {
            assert(color@ =~= color@.take(3).push(255));
        } else {
            assert(color@ =~= color@.take(4));
        }
    }
    Ok(color)
}

/// Pairs behind one that is no number do not make up for it.
proof fn lemma_bad_pair(hex: Seq<u8>, bad: int, count: int)
    requires
        0 < bad <= count,
        hex_channels(hex, bad) is None,
    ensures
        hex_channels(hex, count) is None,
    decreases count - bad,
{
    if bad < count {
        lemma_bad_pair(hex, bad, count - 1);
    }
}

} // verus!
