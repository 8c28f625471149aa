//! Colors, colored characters, and parsing colors from `0xRRGGBB` text.

use vstd::prelude::*;
use crate::text::decimal;
use vstd::string::StringSliceAdditionalSpecFns;

verus! {

/// A 24-bit color as red, green and blue components.
pub type Color = (u8, u8, u8);

/// The full block character, drawn as a solid cell.
pub const BLOCK_CHAR: char = '\u{2588}';

/// The escape character that starts every terminal control sequence.
pub const ESC: char = '\u{1b}';

/// The text that paints `c` in foreground `fg` on background `bg`: a
/// select-graphic-rendition sequence with 24-bit background and foreground
/// colors, the character, and a reset of all attributes.
pub open spec fn ansi_painted(c: char, fg: Color, bg: Color) -> Seq<char> {
    seq![ESC, '[', '4', '8', ';', '2', ';'] + decimal(bg.0 as nat) + seq![';'] + decimal(bg.1 as nat)
        + seq![';'] + decimal(bg.2 as nat) + seq![';', '3', '8', ';', '2', ';']
        + decimal(fg.0 as nat) + seq![';'] + decimal(fg.1 as nat) + seq![';']
        + decimal(fg.2 as nat) + seq!['m', c, ESC, '[', '0', 'm']
}

/// Relies on `ansi_term::Colour::on` and `ansi_term::Style::paint`, written out
/// through `Display`: for an RGB foreground on an RGB background the text is
/// `ESC[48;2;R;G;B;38;2;R;G;Bm`, the painted text, and `ESC[0m`.
#[verifier::external_body]
fn paint(c: char, fg: Color, bg: Color) -> (r: String)
    ensures
        r@ == ansi_painted(c, fg, bg),
{
    let style = ansi_term::Colour::RGB(fg.0, fg.1, fg.2).on(ansi_term::Colour::RGB(bg.0, bg.1, bg.2));
    style.paint(c.to_string()).to_string()
}

#[verifier::external_type_specification]
#[verifier::external_body]
pub struct ExFromHexError(hex::FromHexError);

/// The byte is an ASCII hexadecimal digit, in either case.
pub open spec fn is_hex_digit(b: u8) -> bool {
    (0x30 <= b <= 0x39) || (0x61 <= b <= 0x66) || (0x41 <= b <= 0x46)
}

/// The value of a hexadecimal digit.
pub open spec fn hex_digit_value(b: u8) -> int {
    if 0x30 <= b <= 0x39 {
        b - 0x30
    } else if 0x61 <= b <= 0x66 {
        b - 0x61 + 10
    } else {
        b - 0x41 + 10
    }
}

/// The bytes that pairs of hexadecimal digits write, the first digit of each
/// pair the high one.
pub open spec fn hex_decoded(d: Seq<u8>) -> Seq<u8> {
    Seq::new(d.len() / 2, |i: int| (hex_digit_value(d[2 * i]) * 16 + hex_digit_value(d[2 * i + 1])) as u8)
}

/// Relies on `hex::decode`: it fails exactly when the length is odd or a byte
/// is not a hexadecimal digit, and otherwise turns each pair of digits into
/// one byte.
#[verifier::external_body]
fn decode_hex(data: &[u8]) -> (r: Result<Vec<u8>, hex::FromHexError>)
    ensures
        r is Ok <==> (data@.len() % 2 == 0 && forall|i: int| 0 <= i < data@.len() ==> #[trigger] is_hex_digit(data@[i])),
        r matches Ok(v) ==> v@ == hex_decoded(data@),
{
    hex::decode(data)
}

/// Why a text is not a color.
#[derive(Clone, Copy, Debug, PartialEq, Eq, Structural)]
pub enum HexColorError {
    /// It does not start with `0x`.
    MissingPrefix,
    /// What follows `0x` is not six bytes long.
    InvalidLength,
    /// What follows `0x` holds a byte that is not a hexadecimal digit.
    InvalidDigit,
}

impl HexColorError {
    pub fn message(&self) -> (r: String)
        ensures
            r@ == self.message_spec(),
    {
        match self {
            HexColorError::MissingPrefix => String::from_str("Invalid Hex String: Did not start with 0x."),
            HexColorError::InvalidLength => String::from_str("Invalid Hex String: Invalid length"),
            HexColorError::InvalidDigit => String::from_str("Invalid Hex"),
        }
    }

    pub open spec fn message_spec(&self) -> Seq<char> {
        match self {
            HexColorError::MissingPrefix => "Invalid Hex String: Did not start with 0x."@,
            HexColorError::InvalidLength => "Invalid Hex String: Invalid length"@,
            HexColorError::InvalidDigit => "Invalid Hex"@,
        }
    }
}

/// The color that the UTF-8 text `b` writes as `0xRRGGBB`, or why it writes none.
pub open spec fn color_of_hex(b: Seq<u8>) -> Result<Color, HexColorError> {
    if b.len() < 2 || b[0] != 0x30 || b[1] != 0x78 {
        Err(HexColorError::MissingPrefix)
    } else if b.len() != 8 {
        Err(HexColorError::InvalidLength)
    } else if exists|i: int| 2 <= i < 8 && !#[trigger] is_hex_digit(b[i]) {
        Err(HexColorError::InvalidDigit)
    } else {
        let d = hex_decoded(b.subrange(2, 8));
        Ok((d[0], d[1], d[2]))
    }
}

/// Parses a color written `0xRRGGBB`.
pub fn parse_hex_color(s: &str) -> (r: Result<Color, HexColorError>)
    ensures
        r == color_of_hex(s.spec_bytes()),
{
    let b = s.as_bytes();
    if b.len() < 2 || b[0] != 0x30 || b[1] != 0x78 {
        return Err(HexColorError::MissingPrefix);
    }
    if b.len() != 8 {
        return Err(HexColorError::InvalidLength);
    }
    let mut digits: Vec<u8> = Vec::new();
    let mut i: usize = 2;
    while i < 8
        invariant
            2 <= i <= 8,
            b@.len() == 8,
            digits@ == b@.subrange(2, i as int),
        decreases 8 - i,
    {
        digits.push(b[i]);
        i = i + 1;
        assert(digits@ =~= b@.subrange(2, i as int));
    }
    match decode_hex(digits.as_slice()) {
        Ok(v) => {
            proof {
                assert(forall|k: int| 0 <= k < 6 ==> is_hex_digit(#[trigger] digits@[k]));
                assert(!exists|k: int| 2 <= k < 8 && !#[trigger] is_hex_digit(b@[k])) by {
                    assert(forall|k: int| 2 <= k < 8 ==> #[trigger] b@[k] == digits@[k - 2]);
                }
            }
            Ok((v[0], v[1], v[2]))
        },
        Err(_) => {
            proof {
                let k = choose|k: int| 0 <= k < 6 && !#[trigger] is_hex_digit(digits@[k]);
                assert(b@[k + 2] == digits@[k]);
                assert(!is_hex_digit(b@[k + 2]));
            }
            Err(HexColorError::InvalidDigit)
        },
    }
}

/// Types that can be read from hexadecimal text.
pub trait FromHex: Sized {
    /// The value that the text `s` writes, if it writes one.
    spec fn hex_value(s: Seq<char>) -> Option<Self>;

    fn from_hex_string(hex_str: String) -> (r: Result<Self, String>)
        ensures
            r is Ok <==> Self::hex_value(hex_str@) is Some,
            r matches Ok(v) ==> Self::hex_value(hex_str@) == Some(v);
}

impl FromHex for Color {
    open spec fn hex_value(s: Seq<char>) -> Option<Color> {
        match color_of_hex(vstd::utf8::encode_utf8(s)) {
            Ok(c) => Some(c),
            Err(_) => None,
        }
    }

    fn from_hex_string(hex_str: String) -> (r: Result<Color, String>) {
        match parse_hex_color(hex_str.as_str()) {
            Ok(c) => Ok(c),
            Err(e) => Err(e.message()),
        }
    }
}

/// A character with its foreground color.
#[derive(Clone, Copy, Debug)]
pub struct ColoredChar {
    pub c: char,
    pub color: (u8, u8, u8),
}

impl ColoredChar {
    pub fn new(character: char, color: Color) -> (r: ColoredChar)
        ensures
            r.c == character,
            r.color == color,
    {
        ColoredChar { c: character, color }
    }

    /// The text that shows this character on background `bg`.
    pub open spec fn painted(self, bg_color: Color) -> Seq<char> {
        ansi_painted(self.c, self.color, bg_color)
    }

    pub fn to_string(&self, bg_color: Color) -> (r: String)
        ensures
            r@ == self.painted(bg_color),
    {
        paint(self.c, self.color, bg_color)
    }

    /// The UTF-8 bytes of `to_string`.
    pub fn to_ansi(&self, bg_color: Color) -> (r: Vec<u8>)
        ensures
            r@ == vstd::utf8::encode_utf8(self.painted(bg_color)),
    {
        let s = self.to_string(bg_color);
        s.as_str().as_bytes_vec()
    }
}

impl PartialEq for ColoredChar {
    fn eq(&self, other: &Self) -> (r: bool)
        ensures
            r == (self == other),
    {
        self.c == other.c && self.color.0 == other.color.0 && self.color.1 == other.color.1
            && self.color.2 == other.color.2
    }
}

impl vstd::std_specs::cmp::PartialEqSpecImpl for ColoredChar {
    open spec fn obeys_eq_spec() -> bool {
        true
    }

    open spec fn eq_spec(&self, other: &ColoredChar) -> bool {
        self == other
    }
}

} // verus!
