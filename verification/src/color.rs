//! Parsing of `#rrggbb` color values from raw bytes.
//!
//! The accepted shape is a number sign followed by six lowercase
//! hexadecimal digits; the scan finds the leftmost such group anywhere in
//! the input, so surrounding text is ignored.

use vstd::prelude::*;

verus! {

/// Whether `b` is an ASCII digit or a lowercase hexadecimal letter.
pub open spec fn is_hex_digit(b: u8) -> bool {
    (48 <= b <= 57) || (97 <= b <= 102)
}

/// The numeric value of a hexadecimal digit byte.
pub open spec fn hex_value(b: u8) -> int {
    if 48 <= b <= 57 {
        b - 48
    } else {
        b - 87
    }
}

/// Whether a full color group starts at position `i` of `s`: a number sign
/// followed by six hexadecimal digit bytes.
pub open spec fn color_match_at(s: Seq<u8>, i: int) -> bool {
    &&& 0 <= i
    &&& i + 7 <= s.len()
    &&& s[i] == 35
    &&& forall|j: int| i + 1 <= j < i + 7 ==> is_hex_digit(#[trigger] s[j])
}

/// The channel value encoded by the two digit bytes at `at` and `at + 1`.
pub open spec fn channel_value(s: Seq<u8>, at: int) -> int {
    16 * hex_value(s[at]) + hex_value(s[at + 1])
}

/// Decodes one hexadecimal digit byte.
fn hex_digit(b: u8) -> (v: Option<u8>)
    ensures
        match v {
            Some(d) => is_hex_digit(b) && d == hex_value(b) && d < 16,
            None => !is_hex_digit(b),
        },
{
    if 48 <= b && b <= 57 {
        Some(b - 48)
    } else if 97 <= b && b <= 102 {
        Some(b - 87)
    } else {
        None
    }
}

/// Decodes the two-digit channel starting at `at`.
fn parse_channel(text: &[u8], at: usize) -> (v: Option<u8>)
    requires
        at + 2 <= text@.len(),
    ensures
        match v {
            Some(c) => is_hex_digit(text@[at as int]) && is_hex_digit(text@[at + 1]) && c
                == channel_value(text@, at as int),
            None => !(is_hex_digit(text@[at as int]) && is_hex_digit(text@[at + 1])),
        },
{
    let hi = hex_digit(text[at]);
    let lo = hex_digit(text[at + 1]);
    match (hi, lo) {
        (Some(h), Some(l)) => Some(16 * h + l),
        _ => None,
    }
}

/// Finds the leftmost `#rrggbb` group in `text` and decodes its three
/// channels; yields nothing when no such group occurs anywhere in the
/// input.
pub fn parse_hex_color(text: &[u8]) -> (result: Option<(u8, u8, u8)>)
    ensures
        match result {
            Some(rgb) => exists|i: int|
                {
                    &&& #[trigger] color_match_at(text@, i)
                    &&& forall|j: int| 0 <= j < i ==> !color_match_at(text@, j)
                    &&& rgb.0 == channel_value(text@, i + 1)
                    &&& rgb.1 == channel_value(text@, i + 3)
                    &&& rgb.2 == channel_value(text@, i + 5)
                },
            None => forall|i: int| !(#[trigger] color_match_at(text@, i)),
        },
{
    if text.len() < 7 {
        return None;
    }
    let mut i: usize = 0;
    while i <= text.len() - 7
        invariant
            7 <= text@.len(),
            i <= text@.len(),
            forall|j: int| 0 <= j < i as int ==> !color_match_at(text@, j),
        decreases text@.len() - i,
    {
        // 35 is the ASCII number sign.
        if text[i] == 35 {
            let r = parse_channel(text, i + 1);
            let g = parse_channel(text, i + 3);
            let b = parse_channel(text, i + 5);
            match (r, g, b) {
                (Some(rv), Some(gv), Some(bv)) => {
                    proof {
                        assert(color_match_at(text@, i as int));
                    }
                    return Some((rv, gv, bv));
                },
                _ => {
                    proof {
                        assert(!color_match_at(text@, i as int));
                    }
                },
            }
        }
        i = i + 1;
    }
    None
}

} // verus!
