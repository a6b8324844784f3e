//! Colour values and the styled-segment model that the parser emits and the
//! layout pass consumes.

use vstd::prelude::*;

verus! {

/// A 4-channel colour. Each channel is an 8-bit value; 255 is full intensity,
/// so `r / 255` is the unit-interval weight a renderer would use.
#[derive(Clone, Copy, PartialEq, Eq, Structural, Debug)]
pub struct Colour {
    pub r: u8,
    pub g: u8,
    pub b: u8,
    pub a: u8,
}

pub type Color = Colour;

/// Why a hex colour string was rejected.
#[derive(Clone, Copy, PartialEq, Eq, Structural, Debug)]
pub enum FormatError {
    /// The digit count (after the optional `#`) is not 3, 4, 6 or 8.
    InvalidLength,
    /// A character in the digit run is not a hexadecimal digit.
    InvalidDigit,
}

/// The value of one hexadecimal digit, or `None` for any other character.
pub open spec fn spec_hex_digit(c: char) -> Option<u8> {
    match c {
        '0' => Some(0u8),
        '1' => Some(1u8),
        '2' => Some(2u8),
        '3' => Some(3u8),
        '4' => Some(4u8),
        '5' => Some(5u8),
        '6' => Some(6u8),
        '7' => Some(7u8),
        '8' => Some(8u8),
        '9' => Some(9u8),
        'a' => Some(10u8),
        'b' => Some(11u8),
        'c' => Some(12u8),
        'd' => Some(13u8),
        'e' => Some(14u8),
        'f' => Some(15u8),
        'A' => Some(10u8),
        'B' => Some(11u8),
        'C' => Some(12u8),
        'D' => Some(13u8),
        'E' => Some(14u8),
        'F' => Some(15u8),
        _ => None,
    }
}

pub open spec fn is_hex_digit(c: char) -> bool {
    spec_hex_digit(c) is Some
}

/// The digit's value where `c` is a hexadecimal digit; 0 elsewhere.
pub open spec fn hex_value(c: char) -> u8 {
    match spec_hex_digit(c) {
        Some(v) => v,
        None => 0u8,
    }
}

pub fn hex_digit(c: char) -> (r: Option<u8>)
    ensures
        r == spec_hex_digit(c),
{
    match c {
        '0' => Some(0u8),
        '1' => Some(1u8),
        '2' => Some(2u8),
        '3' => Some(3u8),
        '4' => Some(4u8),
        '5' => Some(5u8),
        '6' => Some(6u8),
        '7' => Some(7u8),
        '8' => Some(8u8),
        '9' => Some(9u8),
        'a' => Some(10u8),
        'b' => Some(11u8),
        'c' => Some(12u8),
        'd' => Some(13u8),
        'e' => Some(14u8),
        'f' => Some(15u8),
        'A' => Some(10u8),
        'B' => Some(11u8),
        'C' => Some(12u8),
        'D' => Some(13u8),
        'E' => Some(14u8),
        'F' => Some(15u8),
        _ => None,
    }
}

/// The hex string with one leading `#` removed, if present.
pub open spec fn strip_hash(s: Seq<char>) -> Seq<char> {
    if s.len() > 0 && s[0] == '#' {
        s.skip(1)
    } else {
        s
    }
}

pub open spec fn all_hex_digits(s: Seq<char>) -> bool {
    forall|i: int| 0 <= i < s.len() ==> is_hex_digit(s[i])
}

/// A channel written with one digit: `0xd` scales to `0xdd`, so that the
/// unit-interval weight `v / 15` equals `(17 * v) / 255` exactly.
pub open spec fn channel_1(c: char) -> u8 {
    (17 * hex_value(c)) as u8
}

/// A channel written with two digits.
pub open spec fn channel_2(hi: char, lo: char) -> u8 {
    (16 * hex_value(hi) + hex_value(lo)) as u8
}

/// The colour encoded by a run of 3, 4, 6 or 8 hex digits: 3- and 6-digit
/// runs are RGB with full opacity, 4- and 8-digit runs are ARGB.
pub open spec fn colour_of_digits(d: Seq<char>) -> Colour
    recommends
        d.len() == 3 || d.len() == 4 || d.len() == 6 || d.len() == 8,
{
    if d.len() == 3 {
        Colour { r: channel_1(d[0]), g: channel_1(d[1]), b: channel_1(d[2]), a: 255 }
    } else if d.len() == 4 {
        Colour { a: channel_1(d[0]), r: channel_1(d[1]), g: channel_1(d[2]), b: channel_1(d[3]) }
    } else if d.len() == 6 {
        Colour {
            r: channel_2(d[0], d[1]),
            g: channel_2(d[2], d[3]),
            b: channel_2(d[4], d[5]),
            a: 255,
        }
    } else {
        Colour {
            a: channel_2(d[0], d[1]),
            r: channel_2(d[2], d[3]),
            g: channel_2(d[4], d[5]),
            b: channel_2(d[6], d[7]),
        }
    }
}

/// What `Colour::from_hex` returns: the optional `#` is stripped, the digit
/// count must be 3, 4, 6 or 8, and every remaining character must be a hex
/// digit; the length is checked before the digits.
pub open spec fn from_hex_spec(s: Seq<char>) -> Result<Colour, FormatError> {
    let d = strip_hash(s);
    if !(d.len() == 3 || d.len() == 4 || d.len() == 6 || d.len() == 8) {
        Err(FormatError::InvalidLength)
    } else if !all_hex_digits(d) {
        Err(FormatError::InvalidDigit)
    } else {
        Ok(colour_of_digits(d))
    }
}

impl Colour {
    pub fn new(r: u8, g: u8, b: u8, a: u8) -> (c: Self)
        ensures
            c == (Colour { r, g, b, a }),
    {
        Self { r, g, b, a }
    }

    /// Decode `rgb`, `argb`, `rrggbb` or `aarrggbb`, with an optional
    /// leading `#`.
    pub fn from_hex(hex: &str) -> (r: Result<Self, FormatError>)
        ensures
            r == from_hex_spec(hex@),
    {
        let n = hex.unicode_len();
        let start: usize = if n >= 1 && hex.get_char(0) == '#' {
            1
        } else {
            0
        };
        let ghost d = strip_hash(hex@);
        proof {
            assert(d =~= hex@.skip(start as int));
        }
        let m = n - start;
        if !(m == 3 || m == 4 || m == 6 || m == 8) {
            return Err(FormatError::InvalidLength);
        }
        let mut vals: Vec<u8> = Vec::new();
        let mut i: usize = 0;
        while i < m
            invariant
                0 <= i <= m,
                m == n - start,
                start <= n,
                n == hex@.len(),
                d == hex@.skip(start as int),
                d == strip_hash(hex@),
                m == 3 || m == 4 || m == 6 || m == 8,
                vals@.len() == i,
                forall|j: int|
                    0 <= j < i ==> #[trigger] is_hex_digit(d[j]) && vals@[j] == hex_value(d[j])
                        && vals@[j] <= 15,
            decreases m - i,
        {
            assert(d[i as int] == hex@[start + i]);
            match hex_digit(hex.get_char(start + i)) {
                Some(v) => {
                    assert(is_hex_digit(d[i as int]) && v == hex_value(d[i as int]) && v <= 15);
                    vals.push(v);
                },
                None => {
                    assert(!is_hex_digit(d[i as int]));
                    assert(!all_hex_digits(d));
                    return Err(FormatError::InvalidDigit);
                },
            }
            i += 1;
        }
        assert(all_hex_digits(d)) by {
            assert(forall|j: int| 0 <= j < d.len() ==> #[trigger] is_hex_digit(d[j]));
        }
        let c = if m == 3 {
            Colour { r: 17 * vals[0], g: 17 * vals[1], b: 17 * vals[2], a: 255 }
        } else if m == 4 {
            Colour { a: 17 * vals[0], r: 17 * vals[1], g: 17 * vals[2], b: 17 * vals[3] }
        } else if m == 6 {
            Colour {
                r: 16 * vals[0] + vals[1],
                g: 16 * vals[2] + vals[3],
                b: 16 * vals[4] + vals[5],
                a: 255,
            }
        } else {
            Colour {
                a: 16 * vals[0] + vals[1],
                r: 16 * vals[2] + vals[3],
                g: 16 * vals[4] + vals[5],
                b: 16 * vals[6] + vals[7],
            }
        };
        Ok(c)
    }
}

/// Mathematical image of a style snapshot: command strings as character
/// sequences.
pub ghost struct BgModel {
    pub bg: Colour,
    pub ol: Option<Colour>,
    pub ul: Option<Colour>,
    pub ol_size: u32,
    pub ul_size: u32,
    pub cmd: Seq<(u8, Seq<char>)>,
}

/// Mathematical image of a text run.
pub ghost struct TextModel {
    pub fg: Colour,
    pub text: Seq<char>,
    pub font: Seq<char>,
}

/// Mathematical image of a segment.
pub ghost enum ItemModel {
    Text(TextModel, BgModel),
    Filler(BgModel),
}

impl ItemModel {
    /// The style snapshot carried by either segment variant.
    pub open spec fn bg(self) -> BgModel {
        match self {
            ItemModel::Text(_, bg) => bg,
            ItemModel::Filler(bg) => bg,
        }
    }

    pub open spec fn is_filler(self) -> bool {
        self is Filler
    }
}

/// Style snapshot drawn behind a segment: background colour, optional
/// overline and underline with their thicknesses in pixels, and the click
/// bindings that were open when the segment was emitted, outermost first.
#[derive(Clone)]
pub struct BG {
    pub bg: Colour,
    pub ol: Option<Colour>,
    pub ul: Option<Colour>,
    pub ol_size: u32,
    pub ul_size: u32,
    pub cmd: Vec<(u8, String)>,
}

impl View for BG {
    type V = BgModel;

    open spec fn view(&self) -> BgModel {
        BgModel {
            bg: self.bg,
            ol: self.ol,
            ul: self.ul,
            ol_size: self.ol_size,
            ul_size: self.ul_size,
            cmd: self.cmd.deep_view(),
        }
    }
}

impl DeepView for BG {
    type V = BgModel;

    open spec fn deep_view(&self) -> BgModel {
        self.view()
    }
}

/// A styled run of text: foreground colour, content, and the font it is to
/// be shaped with.
#[derive(Clone)]
pub struct Text {
    pub fg: Colour,
    pub text: String,
    pub font: String,
}

impl View for Text {
    type V = TextModel;

    open spec fn view(&self) -> TextModel {
        TextModel { fg: self.fg, text: self.text@, font: self.font@ }
    }
}

impl DeepView for Text {
    type V = TextModel;

    open spec fn deep_view(&self) -> TextModel {
        self.view()
    }
}

/// One segment of a bar line: a styled text run, or an elastic filler that
/// the layout pass widens to take up the remaining space.
#[derive(Clone)]
pub enum FormatItem {
    Text(Text, BG),
    Filler(BG),
}

impl View for FormatItem {
    type V = ItemModel;

    open spec fn view(&self) -> ItemModel {
        match self {
            FormatItem::Text(t, bg) => ItemModel::Text(t@, bg@),
            FormatItem::Filler(bg) => ItemModel::Filler(bg@),
        }
    }
}

impl DeepView for FormatItem {
    type V = ItemModel;

    open spec fn deep_view(&self) -> ItemModel {
        self.view()
    }
}

/// A well-formed colour argument for the command line: a `#`, then 3, 4, 6
/// or 8 hexadecimal digits.
pub open spec fn colo_ok(s: Seq<char>) -> bool {
    &&& s.len() >= 1
    &&& s[0] == '#'
    &&& (s.len() - 1 == 3 || s.len() - 1 == 4 || s.len() - 1 == 6 || s.len() - 1 == 8)
    &&& all_hex_digits(s.skip(1))
}

/// Validate a colour string of the form `#rgb`, `#argb`, `#rrggbb` or
/// `#aarrggbb`, with a message naming the first check that failed.
pub fn is_colo(s: String) -> (r: Result<(), String>)
    ensures
        r is Ok <==> colo_ok(s@),
        r matches Err(e) ==> e@ == (if s@.len() == 0 {
            "The colour string must not be empty"@
        } else if s@[0] != '#' {
            "Format must be either: #rgb, #argb, #rrggbb, #aarrggbb"@
        } else if !(s@.len() - 1 == 3 || s@.len() - 1 == 4 || s@.len() - 1 == 6 || s@.len() - 1
            == 8) {
            "Invalid number of digits"@
        } else {
            "Digits must be hex"@
        }),
{
    let n = s.as_str().unicode_len();
    if n == 0 {
        return Err(String::from_str("The colour string must not be empty"));
    }
    if s.as_str().get_char(0) != '#' {
        return Err(String::from_str("Format must be either: #rgb, #argb, #rrggbb, #aarrggbb"));
    }
    let m = n - 1;
    if !(m == 3 || m == 4 || m == 6 || m == 8) {
        return Err(String::from_str("Invalid number of digits"));
    }
    let mut i: usize = 1;
    while i < n
        invariant
            1 <= i <= n,
            n == s@.len(),
            s@[0] == '#',
            m == n - 1,
            m == 3 || m == 4 || m == 6 || m == 8,
            forall|j: int| 1 <= j < i ==> #[trigger] is_hex_digit(s@[j]),
        decreases n - i,
    {
        if hex_digit(s.as_str().get_char(i)).is_none() {
            assert(!is_hex_digit(s@.skip(1)[i - 1]));
            return Err(String::from_str("Digits must be hex"));
        }
        i += 1;
    }
    assert(all_hex_digits(s@.skip(1))) by {
        assert(forall|j: int| 0 <= j < s@.skip(1).len() ==> #[trigger] is_hex_digit(s@.skip(1)[j]));
    }
    Ok(())
}

} // verus!

