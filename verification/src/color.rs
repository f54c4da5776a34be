//! Parsing of `#RRGGBB` hex color strings into their three channels.
//!
//! The renderer takes its foreground and background colors from the
//! command line as `#`-prefixed hexadecimal strings; this is the parsing
//! behind that.

use vstd::prelude::*;

verus! {

/// ASCII `#`.
pub const HASH: u8 = 35;

/// Whether `b` is the ASCII code of a hexadecimal digit.
pub open spec fn is_hex_digit(b: u8) -> bool {
    (48 <= b <= 57) || (65 <= b <= 70) || (97 <= b <= 102)
}

/// The value of the hexadecimal digit with ASCII code `b`.
pub open spec fn hex_digit_value(b: u8) -> u8 {
    if 48 <= b <= 57 {
        (b - 48) as u8
    } else if 65 <= b <= 70 {
        (b - 55) as u8
    } else if 97 <= b <= 102 {
        (b - 87) as u8
    } else {
        0
    }
}

/// The value of a big-endian sequence of hexadecimal digit codes.
pub open spec fn hex_value(s: Seq<u8>) -> int
    decreases s.len(),
{
    if s.len() == 0 {
        0
    } else {
        hex_value(s.take(s.len() - 1)) * 16 + hex_digit_value(s.last())
    }
}

/// A well-formed color string: `#` followed by at least one hexadecimal
/// digit, whose value fits in 32 bits.
pub open spec fn valid_hex_color(s: Seq<u8>) -> bool {
    &&& s.len() >= 2
    &&& s[0] == HASH
    &&& forall|k: int| 1 <= k < s.len() ==> is_hex_digit(#[trigger] s[k])
    &&& hex_value(s.skip(1)) <= 0xFFFFFFFF
}

/// A prefix of a digit string never exceeds the whole string's value.
proof fn lemma_hex_value_take_le(s: Seq<u8>, k: int)
    requires
        0 <= k <= s.len(),
    ensures
        hex_value(s.take(k)) <= hex_value(s),
    decreases s.len() - k,
{
    if k == s.len() {
        assert(s.take(k) =~= s);
    } else {
        lemma_hex_value_nonneg(s.take(k));
        assert(s.take(k + 1).take(k) =~= s.take(k));
        assert(hex_value(s.take(k + 1)) == hex_value(s.take(k)) * 16 + hex_digit_value(
            s.take(k + 1).last(),
        ));
        assert(hex_value(s.take(k)) * 16 >= hex_value(s.take(k)) * 1) by (nonlinear_arith)
            requires
                hex_value(s.take(k)) >= 0,
        ;
        lemma_hex_value_take_le(s, k + 1);
    }
}

/// The value of any digit string is non-negative.
proof fn lemma_hex_value_nonneg(s: Seq<u8>)
    ensures
        hex_value(s) >= 0,
    decreases s.len(),
{
    if s.len() > 0 {
        lemma_hex_value_nonneg(s.take(s.len() - 1));
    }
}

/// The value of the hexadecimal digit with ASCII code `b`, or nothing
/// if `b` is no such code.
fn hex_digit(b: u8) -> (d: Option<u8>)
    ensures
        d is Some <==> is_hex_digit(b),
        d is Some ==> d == Some(hex_digit_value(b)),
{
    if 48 <= b && b <= 57 {
        Some(b - 48)
    } else if 65 <= b && b <= 70 {
        Some(b - 55)
    } else if 97 <= b && b <= 102 {
        Some(b - 87)
    } else {
        None
    }
}

/// Parse a `#`-prefixed hexadecimal color string, given as ASCII bytes,
/// into its red, green and blue channels: the low 24 bits of the string's
/// value, highest byte first. Returns nothing exactly on strings that are
/// not well-formed colors.
pub fn parse_hex_color(bytes: &[u8]) -> (color: Option<(u8, u8, u8)>)
    ensures
        color is Some <==> valid_hex_color(bytes@),
        color is Some ==> ({
            let v = hex_value(bytes@.skip(1));
            color == Some(
                (((v / 65536) % 256) as u8, ((v / 256) % 256) as u8, (v % 256) as u8),
            )
        }),
{
    if bytes.len() < 2 || bytes[0] != HASH {
        return None;
    }

    let ghost digits = bytes@.skip(1);
    let mut acc: u64 = 0;
    let mut k: usize = 1;
    while k < bytes.len()
        invariant
            1 <= k <= bytes@.len(),
            bytes@.len() >= 2,
            acc <= 0xFFFFFFFF,
            digits == bytes@.skip(1),
            acc == hex_value(digits.take(k - 1)),
            forall|j: int| 1 <= j < k ==> is_hex_digit(#[trigger] bytes@[j]),
        decreases bytes@.len() - k,
    {
        let d = match hex_digit(bytes[k]) {
            Some(d) => d,
            None => {
                return None;
            },
        };
        acc = acc * 16 + d as u64;
        k = k + 1;
        proof {
            assert(digits.take(k - 1).take(k - 2) =~= digits.take(k - 2));
            assert(digits.take(k - 1).last() == bytes@[k - 1]);
        }
        if acc > 0xFFFFFFFF {
            proof {
                lemma_hex_value_take_le(digits, k - 1);
            }
            return None;
        }
    }
    proof {
        assert(digits.take(digits.len() as int) =~= digits);
        lemma_hex_value_nonneg(digits);
    }
    let r = ((acc / 65536) % 256) as u8;
    let g = ((acc / 256) % 256) as u8;
    let b = (acc % 256) as u8;
    Some((r, g, b))
}

} // verus!
