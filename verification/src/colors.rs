//! Hex colors: reading `#RGB`, `#RGBA`, `#RRGGBB` and `#RRGGBBAA` into
//! channel values, and writing channels back as quoted hex.
use vstd::prelude::*;

use crate::layout::{spec_trim, trim_ws};
use crate::text::{push_char, to_chars};

verus! {

/// A color read from hex: each channel counts up to `max` (15 for the
/// one-digit forms, 255 for the two-digit forms); a missing alpha is `max`.
#[derive(Clone, Copy, Debug, PartialEq, Eq, Structural)]
pub struct HexColor {
    pub red: u8,
    pub green: u8,
    pub blue: u8,
    pub alpha: u8,
    pub max: u8,
}

/// Whether `c` is an ASCII hex digit.
pub open spec fn is_hex_digit(c: char) -> bool {
    ('0' <= c && c <= '9') || ('a' <= c && c <= 'f') || ('A' <= c && c <= 'F')
}

/// The value of the hex digit `c`.
pub open spec fn hex_value(c: char) -> u8 {
    if '0' <= c && c <= '9' {
        (c as u32 - '0' as u32) as u8
    } else if 'a' <= c && c <= 'f' {
        (c as u32 - 'a' as u32 + 10) as u8
    } else {
        (c as u32 - 'A' as u32 + 10) as u8
    }
}

/// One hex digit as a channel.
pub open spec fn one(d: Seq<char>, i: int) -> u8 {
    hex_value(d[i])
}

/// Two hex digits as a channel.
pub open spec fn two(d: Seq<char>, i: int) -> u8 {
    (hex_value(d[i]) * 16 + hex_value(d[i + 1])) as u8
}

/// The color a hex string denotes: after trimming it must start with `#`
/// and hold only hex digits, three, four, six or eight of them.
pub open spec fn spec_parse_hex(s: Seq<char>) -> Option<HexColor> {
    let t = spec_trim(s);
    if t.len() == 0 || t[0] != '#' {
        None
    } else {
        let d = t.drop_first();
        if !(forall|i: int| 0 <= i < d.len() ==> #[trigger] is_hex_digit(d[i])) {
            None
        } else if d.len() == 3 {
            Some(HexColor { red: one(d, 0), green: one(d, 1), blue: one(d, 2), alpha: 15, max: 15 })
        } else if d.len() == 4 {
            Some(HexColor { red: one(d, 0), green: one(d, 1), blue: one(d, 2), alpha: one(d, 3), max: 15 })
        } else if d.len() == 6 {
            Some(HexColor { red: two(d, 0), green: two(d, 2), blue: two(d, 4), alpha: 255, max: 255 })
        } else if d.len() == 8 {
            Some(HexColor { red: two(d, 0), green: two(d, 2), blue: two(d, 4), alpha: two(d, 6), max: 255 })
        } else {
            None
        }
    }
}

fn hex_digit_value(c: char) -> (r: Option<u8>)
    ensures
        match r {
            Some(v) => is_hex_digit(c) && v == hex_value(c) && v < 16,
            None => !is_hex_digit(c),
        },
{
    if '0' <= c && c <= '9' {
        Some((c as u32 - '0' as u32) as u8)
    } else if 'a' <= c && c <= 'f' {
        Some((c as u32 - 'a' as u32 + 10) as u8)
    } else if 'A' <= c && c <= 'F' {
        Some((c as u32 - 'A' as u32 + 10) as u8)
    } else {
        None
    }
}

/// Reads a hex color (`#RGB`, `#RGBA`, `#RRGGBB` or `#RRGGBBAA`).
pub fn parse_hex_color(s: &str) -> (r: Option<HexColor>)
    ensures
        r == spec_parse_hex(s@),
{
    let t = trim_ws(s);
    let v = to_chars(t.as_str());
    if v.len() == 0 || v[0] != '#' {
        return None;
    }
    let ghost d = v@.drop_first();
    let mut vals: Vec<u8> = Vec::new();
    let mut i: usize = 1;
    while i < v.len()
        invariant
            1 <= i <= v.len(),
            v@ == spec_trim(s@),
            d == v@.drop_first(),
            vals.len() == i - 1,
            forall|k: int| 0 <= k < i - 1 ==> is_hex_digit(#[trigger] d[k]) && vals@[k] == hex_value(d[k]) && vals@[k] < 16,
        decreases v.len() - i,
    {
        match hex_digit_value(v[i]) {
            Some(x) => {
                vals.push(x);
            },
            None => {
                assert(!is_hex_digit(d[i - 1]));
                return None;
            },
        }
        i = i + 1;
    }
    let n = vals.len();
    if n == 3 {
        Some(HexColor { red: vals[0], green: vals[1], blue: vals[2], alpha: 15, max: 15 })
    } else if n == 4 {
        Some(HexColor { red: vals[0], green: vals[1], blue: vals[2], alpha: vals[3], max: 15 })
    } else if n == 6 {
        Some(
            HexColor {
                red: vals[0] * 16 + vals[1],
                green: vals[2] * 16 + vals[3],
                blue: vals[4] * 16 + vals[5],
                alpha: 255,
                max: 255,
            },
        )
    } else if n == 8 {
        Some(
            HexColor {
                red: vals[0] * 16 + vals[1],
                green: vals[2] * 16 + vals[3],
                blue: vals[4] * 16 + vals[5],
                alpha: vals[6] * 16 + vals[7],
                max: 255,
            },
        )
    } else {
        None
    }
}

/// The lower-case hex digit of `n`.
pub open spec fn hex_char(n: u8) -> char {
    if n < 10 {
        ((n + '0' as u8) as u8) as char
    } else {
        ((n - 10 + 'a' as u8) as u8) as char
    }
}

/// A channel as two lower-case hex digits.
pub open spec fn hex_pair(b: u8) -> Seq<char> {
    seq![hex_char(b / 16), hex_char(b % 16)]
}

/// A color as quoted hex: `"#rrggbb"` when opaque, else `"#rrggbbaa"`.
pub open spec fn spec_format_hex(r: u8, g: u8, b: u8, a: u8) -> Seq<char> {
    "\"#"@ + hex_pair(r) + hex_pair(g) + hex_pair(b) + (if a == 255 {
        Seq::empty()
    } else {
        hex_pair(a)
    }) + "\""@
}

fn push_hex_pair(s: &mut String, b: u8)
    ensures
        final(s)@ == old(s)@ + hex_pair(b),
{
    let hi = b / 16;
    let lo = b % 16;
    let c1 = if hi < 10 { (hi + 48) as char } else { (hi - 10 + 97) as char };
    let c2 = if lo < 10 { (lo + 48) as char } else { (lo - 10 + 97) as char };
    push_char(s, c1);
    push_char(s, c2);
    assert(old(s)@ + hex_pair(b) =~= old(s)@.push(c1).push(c2));
}

/// Writes channels (each 0 to 255) as quoted hex.
pub fn format_hex_rgba(r: u8, g: u8, b: u8, a: u8) -> (out: String)
    ensures
        out@ == spec_format_hex(r, g, b, a),
{
    let mut s = crate::text::owned("\"#");
    push_hex_pair(&mut s, r);
    push_hex_pair(&mut s, g);
    push_hex_pair(&mut s, b);
    if a != 255 {
        push_hex_pair(&mut s, a);
    }
    s.append("\"");
    assert(s@ =~= spec_format_hex(r, g, b, a));
    s
}

} // verus!
