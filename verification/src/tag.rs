//! The tag grammar of the markup language: recognizing one `%{...}` tag at
//! the head of the remaining input.
//!
//! A tag is `%{` followed by one of: a zone letter `l`/`c`/`r`; a colour
//! letter `F`/`B`/`U`/`u` with an optional `#`, then `-` or a run of hex
//! digits; an attribute prefix `!`/`+`/`-` with `o` or `u`; `T` with `-` or
//! a digit `1`..`9`; `A`, bare or with `button:command:` where the button
//! digit is optional and a colon inside the command is written `\:`; `I:`
//! with a path; or `R`; and a closing `}`. Text in which no tag starts is
//! literal content.

use vstd::prelude::*;

use crate::format::{hex_digit, is_hex_digit};

verus! {

/// The three alignment zones of a bar line.
#[derive(Clone, Copy, PartialEq, Eq, Structural, Debug)]
pub enum Zone {
    Left,
    Center,
    Right,
}

/// Which colour of the current style a colour tag addresses.
#[derive(Clone, Copy, PartialEq, Eq, Structural, Debug)]
pub enum ColourTarget {
    Fg,
    Bg,
    Under,
    Over,
}

/// Which line attribute an attribute tag addresses.
#[derive(Clone, Copy, PartialEq, Eq, Structural, Debug)]
pub enum AttrTarget {
    Overline,
    Underline,
}

/// What an attribute tag does to its flag.
#[derive(Clone, Copy, PartialEq, Eq, Structural, Debug)]
pub enum AttrOp {
    Toggle,
    On,
    Off,
}

/// Mathematical image of a recognized tag.
pub ghost enum TokenModel {
    /// `%{l}`, `%{c}`, `%{r}`: switch the active zone.
    Zone(Zone),
    /// `%{R}`: swap foreground and background.
    Swap,
    /// `%{F...}` and friends: set a colour, `None` meaning reset to the
    /// default. The payload holds the digit run without the optional `#`.
    SetColour(ColourTarget, Option<Seq<char>>),
    /// `%{!o}` and friends: change an attribute flag.
    Attr(AttrTarget, AttrOp),
    /// `%{Tn}` or `%{T-}`: select a font by 1-based index, or reset.
    Font(Option<u8>),
    /// `%{Ab:cmd:}`: open a click binding.
    ClickOpen(u8, Seq<char>),
    /// `%{A}`: close the innermost click binding.
    ClickClose,
    /// `%{I:path}`: reserved, a no-op.
    Image,
}

/// A recognized tag.
pub enum Token {
    Zone(Zone),
    Swap,
    SetColour(ColourTarget, Option<String>),
    Attr(AttrTarget, AttrOp),
    Font(Option<u8>),
    ClickOpen(u8, String),
    ClickClose,
    Image,
}

impl View for Token {
    type V = TokenModel;

    open spec fn view(&self) -> TokenModel {
        match self {
            Token::Zone(z) => TokenModel::Zone(*z),
            Token::Swap => TokenModel::Swap,
            Token::SetColour(t, arg) => TokenModel::SetColour(
                *t,
                match arg {
                    Some(s) => Some(s@),
                    None => None,
                },
            ),
            Token::Attr(t, op) => TokenModel::Attr(*t, *op),
            Token::Font(arg) => TokenModel::Font(*arg),
            Token::ClickOpen(b, cmd) => TokenModel::ClickOpen(*b, cmd@),
            Token::ClickClose => TokenModel::ClickClose,
            Token::Image => TokenModel::Image,
        }
    }
}

/// The value of one decimal digit, or `None` for any other character.
pub open spec fn spec_dec_digit(c: char) -> Option<u8> {
    match c {
        '0' => Some(0u8),
        '1' => Some(1u8),
        '2' => Some(2u8),
        '3' => Some(3u8),
        '4' => Some(4u8),
        '5' => Some(5u8),
        '6' => Some(6u8),
        '7' => Some(7u8),
        '8' => Some(8u8),
        '9' => Some(9u8),
        _ => None,
    }
}

pub fn dec_digit(c: char) -> (r: Option<u8>)
    ensures
        r == spec_dec_digit(c),
{
    match c {
        '0' => Some(0u8),
        '1' => Some(1u8),
        '2' => Some(2u8),
        '3' => Some(3u8),
        '4' => Some(4u8),
        '5' => Some(5u8),
        '6' => Some(6u8),
        '7' => Some(7u8),
        '8' => Some(8u8),
        '9' => Some(9u8),
        _ => None,
    }
}

/// The end of the run of hexadecimal digits starting at `j`: the first
/// position at or after `j` that is past the end or holds a non-hex
/// character.
pub open spec fn hex_run_end(rem: Seq<char>, j: int) -> int
    decreases rem.len() - j,
{
    if j < 0 || j >= rem.len() {
        j
    } else if is_hex_digit(rem[j]) {
        hex_run_end(rem, j + 1)
    } else {
        j
    }
}

pub proof fn lemma_hex_run_end(rem: Seq<char>, j: int)
    requires
        0 <= j <= rem.len(),
    ensures
        j <= hex_run_end(rem, j) <= rem.len(),
    decreases rem.len() - j,
{
    if j < rem.len() && is_hex_digit(rem[j]) {
        lemma_hex_run_end(rem, j + 1);
    }
}

/// Where the command of a click tag ends, scanning from `p` with the
/// command's first character at `start`: the position of the `:` of the
/// shortest closing `:}` reachable by reading command elements, where an
/// element is any character other than `:`, or the pair `\:`. A lone `\`
/// before a `:}` counts as an ordinary character, so the command ends after
/// it. `None` where no such close exists: then no click tag starts here.
pub open spec fn cmd_end(rem: Seq<char>, start: int, p: int) -> Option<int>
    decreases rem.len() - p,
{
    if p < start || p >= rem.len() {
        None
    } else if rem[p] == ':' {
        if p > start && p + 1 < rem.len() && rem[p + 1] == '}' {
            Some(p)
        } else {
            None
        }
    } else if rem[p] == '\\' && p + 1 < rem.len() && rem[p + 1] == ':' {
        if p + 2 < rem.len() && rem[p + 2] == '}' {
            Some(p + 1)
        } else {
            cmd_end(rem, start, p + 2)
        }
    } else {
        cmd_end(rem, start, p + 1)
    }
}

pub proof fn lemma_cmd_end(rem: Seq<char>, start: int, p: int)
    requires
        0 <= start <= p,
    ensures
        cmd_end(rem, start, p) matches Some(q) ==> p <= q < rem.len() - 1 && q > start && rem[q]
            == ':' && rem[q + 1] == '}',
    decreases rem.len() - p,
{
    if p < start || p >= rem.len() {
    } else if rem[p] == ':' {
    } else if rem[p] == '\\' && p + 1 < rem.len() && rem[p + 1] == ':' {
        if !(p + 2 < rem.len() && rem[p + 2] == '}') {
            lemma_cmd_end(rem, start, p + 2);
        }
    } else {
        lemma_cmd_end(rem, start, p + 1);
    }
}

/// The end of the path of an image tag: the first position at or after `p`
/// that is past the end or holds `}` or a line break.
pub open spec fn img_end(rem: Seq<char>, p: int) -> int
    decreases rem.len() - p,
{
    if p < 0 || p >= rem.len() {
        p
    } else if rem[p] == '}' || rem[p] == '\n' {
        p
    } else {
        img_end(rem, p + 1)
    }
}

pub proof fn lemma_img_end(rem: Seq<char>, p: int)
    requires
        0 <= p <= rem.len(),
    ensures
        p <= img_end(rem, p) <= rem.len(),
    decreases rem.len() - p,
{
    if p < rem.len() && !(rem[p] == '}' || rem[p] == '\n') {
        lemma_img_end(rem, p + 1);
    }
}

/// A zone or swap tag: the single letter must be followed by `}`.
pub open spec fn simple_tag(rem: Seq<char>, tok: TokenModel) -> Option<(TokenModel, int)> {
    if rem[3] == '}' {
        Some((tok, 4))
    } else {
        None
    }
}

/// A colour tag after its letter: an optional `#`, then `-` for a reset or
/// a nonempty run of hex digits, then `}`. The returned payload holds the
/// digit run only.
pub open spec fn colour_tag(rem: Seq<char>, t: ColourTarget) -> Option<(TokenModel, int)> {
    let j = if rem[3] == '#' {
        4int
    } else {
        3int
    };
    if j < rem.len() && rem[j] == '-' {
        if j + 1 < rem.len() && rem[j + 1] == '}' {
            Some((TokenModel::SetColour(t, None), j + 2))
        } else {
            None
        }
    } else {
        let e = hex_run_end(rem, j);
        if e > j && e < rem.len() && rem[e] == '}' {
            Some((TokenModel::SetColour(t, Some(rem.subrange(j, e))), e + 1))
        } else {
            None
        }
    }
}

/// An attribute tag after its prefix: `o` or `u`, then `}`.
pub open spec fn attr_tag(rem: Seq<char>, op: AttrOp) -> Option<(TokenModel, int)> {
    if rem.len() > 4 && rem[4] == '}' {
        if rem[3] == 'o' {
            Some((TokenModel::Attr(AttrTarget::Overline, op), 5))
        } else if rem[3] == 'u' {
            Some((TokenModel::Attr(AttrTarget::Underline, op), 5))
        } else {
            None
        }
    } else {
        None
    }
}

/// A font tag after `T`: `-` for a reset or a digit `1`..`9`, then `}`.
pub open spec fn font_tag(rem: Seq<char>) -> Option<(TokenModel, int)> {
    if rem.len() > 4 && rem[4] == '}' {
        if rem[3] == '-' {
            Some((TokenModel::Font(None), 5))
        } else {
            match spec_dec_digit(rem[3]) {
                Some(d) => if d >= 1 {
                    Some((TokenModel::Font(Some(d)), 5))
                } else {
                    None
                },
                None => None,
            }
        }
    } else {
        None
    }
}

/// A click tag after `A`: bare `}` closes the innermost binding; otherwise
/// an optional button digit `1`..`9` (1 when omitted), then `:command:`,
/// then `}`.
pub open spec fn click_tag(rem: Seq<char>) -> Option<(TokenModel, int)> {
    if rem[3] == '}' {
        Some((TokenModel::ClickClose, 4))
    } else {
        let bq: (u8, int) = match spec_dec_digit(rem[3]) {
            Some(d) => if d >= 1 {
                (d, 4int)
            } else {
                (1u8, 3int)
            },
            None => (1u8, 3int),
        };
        let b = bq.0;
        let q = bq.1;
        if q < rem.len() && rem[q] == ':' {
            match cmd_end(rem, q + 1, q + 1) {
                Some(e) => Some((TokenModel::ClickOpen(b, rem.subrange(q + 1, e)), e + 2)),
                None => None,
            }
        } else {
            None
        }
    }
}

/// An image tag after `I`: `:`, a nonempty path free of `}` and line
/// breaks, then `}`. Recognized and reserved; it has no effect.
pub open spec fn image_tag(rem: Seq<char>) -> Option<(TokenModel, int)> {
    if rem[3] == ':' {
        let e = img_end(rem, 4);
        if e > 4 && e < rem.len() && rem[e] == '}' {
            Some((TokenModel::Image, e + 1))
        } else {
            None
        }
    } else {
        None
    }
}

/// Parse the tag standing at the head of `rem`: the token it denotes and
/// the number of characters it occupies, or `None` where no tag starts
/// here.
pub open spec fn tag_parse(rem: Seq<char>) -> Option<(TokenModel, int)> {
    if rem.len() < 4 || rem[0] != '%' || rem[1] != '{' {
        None
    } else {
        let t = rem[2];
        if t == 'l' {
            simple_tag(rem, TokenModel::Zone(Zone::Left))
        } else if t == 'c' {
            simple_tag(rem, TokenModel::Zone(Zone::Center))
        } else if t == 'r' {
            simple_tag(rem, TokenModel::Zone(Zone::Right))
        } else if t == 'R' {
            simple_tag(rem, TokenModel::Swap)
        } else if t == 'F' {
            colour_tag(rem, ColourTarget::Fg)
        } else if t == 'B' {
            colour_tag(rem, ColourTarget::Bg)
        } else if t == 'U' {
            colour_tag(rem, ColourTarget::Under)
        } else if t == 'u' {
            colour_tag(rem, ColourTarget::Over)
        } else if t == '!' {
            attr_tag(rem, AttrOp::Toggle)
        } else if t == '+' {
            attr_tag(rem, AttrOp::On)
        } else if t == '-' {
            attr_tag(rem, AttrOp::Off)
        } else if t == 'T' {
            font_tag(rem)
        } else if t == 'A' {
            click_tag(rem)
        } else if t == 'I' {
            image_tag(rem)
        } else {
            None
        }
    }
}

/// A recognized tag takes at least its `%{x}` frame and never runs past
/// the end of the input.
pub proof fn lemma_tag_parse_len(rem: Seq<char>)
    ensures
        tag_parse(rem) matches Some(tu) ==> 4 <= tu.1 <= rem.len(),
{
    if rem.len() >= 4 && rem[0] == '%' && rem[1] == '{' {
        let t = rem[2];
        if t == 'F' || t == 'B' || t == 'U' || t == 'u' {
            let j = if rem[3] == '#' {
                4int
            } else {
                3int
            };
            lemma_hex_run_end(rem, j);
        } else if t == 'A' {
            if rem[3] != '}' {
                let q = if spec_dec_digit(rem[3]) matches Some(d) && d >= 1 {
                    4int
                } else {
                    3int
                };
                lemma_cmd_end(rem, q + 1, q + 1);
            }
        } else if t == 'I' {
            if rem[3] == ':' {
                lemma_img_end(rem, 4);
            }
        }
    }
}

fn scan_hex_run(fmt: &str, i: usize, j: usize) -> (e: usize)
    requires
        i <= j <= fmt@.len(),
    ensures
        j <= e <= fmt@.len(),
        e - i == hex_run_end(fmt@.skip(i as int), j - i),
{
    let n = fmt.unicode_len();
    let mut p = j;
    while p < n && hex_digit(fmt.get_char(p)).is_some()
        invariant
            i <= j <= p <= n,
            n == fmt@.len(),
            hex_run_end(fmt@.skip(i as int), j - i) == hex_run_end(fmt@.skip(i as int), p - i),
        decreases n - p,
    {
        proof {
            assert(fmt@.skip(i as int)[p - i] == fmt@[p as int]);
        }
        p += 1;
    }
    proof {
        if p < n {
            assert(fmt@.skip(i as int)[p - i] == fmt@[p as int]);
            assert(!is_hex_digit(fmt@.skip(i as int)[p - i]));
        }
        assert(hex_run_end(fmt@.skip(i as int), p - i) == p - i);
    }
    p
}

fn scan_img_end(fmt: &str, i: usize, j: usize) -> (e: usize)
    requires
        i <= j <= fmt@.len(),
    ensures
        j <= e <= fmt@.len(),
        e - i == img_end(fmt@.skip(i as int), j - i),
{
    let n = fmt.unicode_len();
    let mut p = j;
    while p < n && fmt.get_char(p) != '}' && fmt.get_char(p) != '\n'
        invariant
            i <= j <= p <= n,
            n == fmt@.len(),
            img_end(fmt@.skip(i as int), j - i) == img_end(fmt@.skip(i as int), p - i),
        decreases n - p,
    {
        proof {
            assert(fmt@.skip(i as int)[p - i] == fmt@[p as int]);
        }
        p += 1;
    }
    proof {
        if p < n {
            assert(fmt@.skip(i as int)[p - i] == fmt@[p as int]);
        }
        assert(img_end(fmt@.skip(i as int), p - i) == p - i);
    }
    p
}

fn scan_cmd_end(fmt: &str, i: usize, start: usize) -> (r: Option<usize>)
    requires
        i <= start <= fmt@.len(),
    ensures
        match r {
            Some(q) => cmd_end(fmt@.skip(i as int), start - i, start - i) == Some(q - i) && start
                <= q && q + 1 < fmt@.len(),
            None => cmd_end(fmt@.skip(i as int), start - i, start - i) is None,
        },
{
    let ghost rem = fmt@.skip(i as int);
    let n = fmt.unicode_len();
    let mut p = start;
    while p < n
        invariant
            i <= start <= p <= n,
            n == fmt@.len(),
            rem == fmt@.skip(i as int),
            cmd_end(rem, start - i, start - i) == cmd_end(rem, start - i, p - i),
        decreases n - p,
    {
        proof {
            assert(rem[p - i] == fmt@[p as int]);
            if p + 1 < n {
                assert(rem[p - i + 1] == fmt@[p + 1]);
            }
            if p + 2 < n {
                assert(rem[p - i + 2] == fmt@[p + 2]);
            }
        }
        let c = fmt.get_char(p);
        if c == ':' {
            if p > start && p + 1 < n && fmt.get_char(p + 1) == '}' {
                return Some(p);
            } else {
                return None;
            }
        } else if c == '\\' && p + 1 < n && fmt.get_char(p + 1) == ':' {
            if p + 2 < n && fmt.get_char(p + 2) == '}' {
                return Some(p + 1);
            } else {
                p += 2;
            }
        } else {
            p += 1;
        }
    }
    proof {
        assert(cmd_end(rem, start - i, p - i) is None);
    }
    None
}

/// Recognize the tag starting at character position `i` of `fmt`: the
/// token and the number of characters the tag occupies.
pub fn try_tag(fmt: &str, i: usize, n: usize) -> (r: Option<(Token, usize)>)
    requires
        n == fmt@.len(),
        i <= n,
    ensures
        match r {
            Some(tu) => tag_parse(fmt@.skip(i as int)) == Some((tu.0@, tu.1 as int)) && 4 <= tu.1
                && i + tu.1 <= n,
            None => tag_parse(fmt@.skip(i as int)) is None,
        },
{
    let ghost rem = fmt@.skip(i as int);
    if n - i < 4 {
        return None;
    }
    proof {
        assert(rem[0] == fmt@[i as int]);
        assert(rem[1] == fmt@[i + 1]);
        assert(rem[2] == fmt@[i + 2]);
        assert(rem[3] == fmt@[i + 3]);
    }
    if fmt.get_char(i) != '%' {
        return None;
    }
    if fmt.get_char(i + 1) != '{' {
        return None;
    }
    let t = fmt.get_char(i + 2);
    if t == 'l' || t == 'c' || t == 'r' || t == 'R' {
        if fmt.get_char(i + 3) == '}' {
            let tok = if t == 'l' {
                Token::Zone(Zone::Left)
            } else if t == 'c' {
                Token::Zone(Zone::Center)
            } else if t == 'r' {
                Token::Zone(Zone::Right)
            } else {
                Token::Swap
            };
            Some((tok, 4))
        } else {
            None
        }
    } else if t == 'F' || t == 'B' || t == 'U' || t == 'u' {
        let tgt = if t == 'F' {
            ColourTarget::Fg
        } else if t == 'B' {
            ColourTarget::Bg
        } else if t == 'U' {
            ColourTarget::Under
        } else {
            ColourTarget::Over
        };
        let j = if fmt.get_char(i + 3) == '#' {
            i + 4
        } else {
            i + 3
        };
        proof {
            if j < n {
                assert(rem[j - i] == fmt@[j as int]);
            }
        }
        if j < n && fmt.get_char(j) == '-' {
            proof {
                if j + 1 < n {
                    assert(rem[j - i + 1] == fmt@[j + 1]);
                }
            }
            if j + 1 < n && fmt.get_char(j + 1) == '}' {
                Some((Token::SetColour(tgt, None), j + 2 - i))
            } else {
                None
            }
        } else {
            let e = scan_hex_run(fmt, i, j);
            proof {
                if e < n {
                    assert(rem[e - i] == fmt@[e as int]);
                }
            }
            if e > j && e < n && fmt.get_char(e) == '}' {
                let digits = fmt.substring_char(j, e).to_owned();
                proof {
                    assert(digits@ =~= rem.subrange(j - i, e - i));
                }
                Some((Token::SetColour(tgt, Some(digits)), e + 1 - i))
            } else {
                None
            }
        }
    } else if t == '!' || t == '+' || t == '-' {
        let op = if t == '!' {
            AttrOp::Toggle
        } else if t == '+' {
            AttrOp::On
        } else {
            AttrOp::Off
        };
        proof {
            if i + 4 < n {
                assert(rem[4] == fmt@[i + 4]);
            }
        }
        if i + 4 < n && fmt.get_char(i + 4) == '}' {
            let a = fmt.get_char(i + 3);
            if a == 'o' {
                Some((Token::Attr(AttrTarget::Overline, op), 5))
            } else if a == 'u' {
                Some((Token::Attr(AttrTarget::Underline, op), 5))
            } else {
                None
            }
        } else {
            None
        }
    } else if t == 'T' {
        proof {
            if i + 4 < n {
                assert(rem[4] == fmt@[i + 4]);
            }
        }
        if i + 4 < n && fmt.get_char(i + 4) == '}' {
            let a = fmt.get_char(i + 3);
            if a == '-' {
                Some((Token::Font(None), 5))
            } else {
                match dec_digit(a) {
                    Some(d) => if d >= 1 {
                        Some((Token::Font(Some(d)), 5))
                    } else {
                        None
                    },
                    None => None,
                }
            }
        } else {
            None
        }
    } else if t == 'A' {
        if fmt.get_char(i + 3) == '}' {
            Some((Token::ClickClose, 4))
        } else {
            let db = dec_digit(fmt.get_char(i + 3));
            let b: u8;
            let q: usize;
            match db {
                Some(d) => {
                    if d >= 1 {
                        b = d;
                        q = i + 4;
                    } else {
                        b = 1;
                        q = i + 3;
                    }
                },
                None => {
                    b = 1;
                    q = i + 3;
                },
            }
            proof {
                if q < n {
                    assert(rem[q - i] == fmt@[q as int]);
                }
            }
            if q < n && fmt.get_char(q) == ':' {
                match scan_cmd_end(fmt, i, q + 1) {
                    Some(e) => {
                        let cmd = fmt.substring_char(q + 1, e).to_owned();
                        proof {
                            assert(cmd@ =~= rem.subrange(q + 1 - i, e - i));
                        }
                        Some((Token::ClickOpen(b, cmd), e + 2 - i))
                    },
                    None => None,
                }
            } else {
                None
            }
        }
    } else if t == 'I' {
        if fmt.get_char(i + 3) == ':' {
            let e = scan_img_end(fmt, i, i + 4);
            proof {
                if e < n {
                    assert(rem[e - i] == fmt@[e as int]);
                }
            }
            if e > i + 4 && e < n && fmt.get_char(e) == '}' {
                Some((Token::Image, e + 1 - i))
            } else {
                None
            }
        } else {
            None
        }
    } else {
        None
    }
}

} // verus!
