//! Presentation configuration values the engine owns: colors in hex
//! notation and the status bar item kinds.

use vstd::prelude::*;
use crate::text::digit_char;

verus! {

/// A color in 8-bit RGB.
#[derive(Clone, Copy, Debug, PartialEq, Eq, Structural)]
pub struct Color {
    pub r: u8,
    pub g: u8,
    pub b: u8,
}

/// One item of the status bar: fixed text, or a clock format.
#[derive(Clone, Debug)]
pub enum StatusItem {
    Text { content: String },
    DateTime { format: String },
}

/// The lowercase hex digit of a value below sixteen.
pub open spec fn hex_digit(d: int) -> char {
    if d < 10 {
        digit_char(d)
    } else {
        ((87 + d) as u8) as char
    }
}

/// The two lowercase hex digits of a byte.
pub open spec fn byte_hex(b: int) -> Seq<char> {
    seq![hex_digit(b / 16), hex_digit(b % 16)]
}

/// The value of a hex digit character; sixteen marks a non-digit.
pub open spec fn hex_val(c: char) -> int {
    if 48 <= c as u32 && c as u32 <= 57 {
        c as u32 - 48
    } else if 97 <= c as u32 && c as u32 <= 102 {
        c as u32 - 87
    } else if 65 <= c as u32 && c as u32 <= 70 {
        c as u32 - 55
    } else {
        16
    }
}

/// The string with every leading `#` removed.
pub open spec fn strip_hashes(s: Seq<char>) -> Seq<char>
    decreases s.len(),
{
    if s.len() > 0 && s[0] == '#' {
        strip_hashes(s.skip(1))
    } else {
        s
    }
}

/// A stripped hex color: exactly six hex digits.
pub open spec fn valid_hex_color(s: Seq<char>) -> bool {
    s.len() == 6 && forall|i: int| 0 <= i < 6 ==> hex_val(#[trigger] s[i]) < 16
}

fn hex_digit_exec(d: u8) -> (r: char)
    requires
        d < 16,
    ensures
        r == hex_digit(d as int),
{
    if d < 10 {
        (48 + d) as char
    } else {
        (87 + d) as char
    }
}

fn hex_val_exec(c: char) -> (r: u8)
    ensures
        r as int == hex_val(c),
{
    let n = c as u32;
    if 48 <= n && n <= 57 {
        (n - 48) as u8
    } else if 97 <= n && n <= 102 {
        (n - 87) as u8
    } else if 65 <= n && n <= 70 {
        (n - 55) as u8
    } else {
        16
    }
}

impl Color {
    /// A color from its three channels.
    pub fn new(r: u8, g: u8, b: u8) -> (c: Color)
        ensures
            c.r == r && c.g == g && c.b == b,
    {
        Color { r, g, b }
    }

    /// The `#rrggbb` notation of this color.
    pub fn to_hex(&self) -> (r: String)
        ensures
            r@ == seq!['#'] + byte_hex(self.r as int) + byte_hex(self.g as int) + byte_hex(
                self.b as int,
            ),
    {
        let mut v: Vec<char> = Vec::new();
        v.push('#');
        v.push(hex_digit_exec(self.r / 16));
        v.push(hex_digit_exec(self.r % 16));
        v.push(hex_digit_exec(self.g / 16));
        v.push(hex_digit_exec(self.g % 16));
        v.push(hex_digit_exec(self.b / 16));
        v.push(hex_digit_exec(self.b % 16));
        proof {
            assert(v@ =~= seq!['#'] + byte_hex(self.r as int) + byte_hex(self.g as int)
                + byte_hex(self.b as int));
        }
        crate::text::string_from_chars(&v)
    }

    /// Parses `#rrggbb` (leading hashes optional, either case);
    /// reports the offending input otherwise.
    pub fn from_hex(hex: &str) -> (r: Result<Color, String>)
        ensures
            ({
                let s = strip_hashes(hex@);
                match r {
                    Ok(c) => valid_hex_color(s) && c.r as int == 16 * hex_val(s[0]) + hex_val(
                        s[1],
                    ) && c.g as int == 16 * hex_val(s[2]) + hex_val(s[3]) && c.b as int == 16
                        * hex_val(s[4]) + hex_val(s[5]),
                    Err(_) => !valid_hex_color(s),
                }
            }),
    {
        let chars = crate::text::chars_of(hex);
        let mut i: usize = 0;
        let n = chars.len();
        proof {
            assert(chars@.skip(0) =~= chars@);
        }
        while i < n && chars[i] == '#'
            invariant
                i <= n,
                n == chars@.len(),
                chars@ == hex@,
                strip_hashes(hex@) == strip_hashes(chars@.skip(i as int)),
            decreases n - i,
        {
            proof {
                assert(chars@.skip(i as int)[0] == chars@[i as int]);
                assert(chars@.skip(i as int).skip(1) =~= chars@.skip(i + 1));
            }
            i = i + 1;
        }
        let ghost stripped = strip_hashes(hex@);
        proof {
            if i < n {
                assert(chars@.skip(i as int)[0] == chars@[i as int]);
            }
            assert(strip_hashes(chars@.skip(i as int)) == chars@.skip(i as int));
            assert(stripped == chars@.skip(i as int));
            assert(stripped.len() == n - i);
        }
        if n - i != 6 {
            return Err(crate::text::chars_to_owned("not a hex color"));
        }
        let d0 = hex_val_exec(chars[i]);
        let d1 = hex_val_exec(chars[i + 1]);
        let d2 = hex_val_exec(chars[i + 2]);
        let d3 = hex_val_exec(chars[i + 3]);
        let d4 = hex_val_exec(chars[i + 4]);
        let d5 = hex_val_exec(chars[i + 5]);
        proof {
            assert(forall|k: int| 0 <= k < 6 ==> #[trigger] stripped[k] == chars@[i + k]);
        }
        if d0 >= 16 || d1 >= 16 || d2 >= 16 || d3 >= 16 || d4 >= 16 || d5 >= 16 {
            proof {
                assert(hex_val(stripped[0]) == d0 as int);
                assert(hex_val(stripped[1]) == d1 as int);
                assert(hex_val(stripped[2]) == d2 as int);
                assert(hex_val(stripped[3]) == d3 as int);
                assert(hex_val(stripped[4]) == d4 as int);
                assert(hex_val(stripped[5]) == d5 as int);
                assert(!valid_hex_color(stripped));
            }
            return Err(crate::text::chars_to_owned("not a hex color"));
        }
        Ok(Color { r: 16 * d0 + d1, g: 16 * d2 + d3, b: 16 * d4 + d5 })
    }
}

} // verus!
