//! The geometry argument `WxH+x+y`: width and height before the first `+`,
//! separated by `x`; the two offsets after it. Every part may be omitted;
//! an omitted or empty number is 0. A malformed number is an error.

use vstd::prelude::*;

use crate::tag::spec_dec_digit;
use crate::tag::dec_digit;

verus! {

/// Rejected geometry input.
#[derive(Clone, Copy, PartialEq, Eq, Structural, Debug)]
pub enum GeomError {
    /// A field did not parse as a 32-bit integer.
    InvalidNumber,
}

/// The first position at or after `i` holding `c`.
pub open spec fn find_from(s: Seq<char>, c: char, i: int) -> Option<int>
    decreases s.len() - i,
{
    if i < 0 || i >= s.len() {
        None
    } else if s[i] == c {
        Some(i)
    } else {
        find_from(s, c, i + 1)
    }
}

/// The last position at or before `i` holding `c`.
pub open spec fn rfind_from(s: Seq<char>, c: char, i: int) -> Option<int>
    decreases i + 1,
{
    if i < 0 || i >= s.len() {
        None
    } else if s[i] == c {
        Some(i)
    } else {
        rfind_from(s, c, i - 1)
    }
}

/// The value of a run of decimal digits, most significant first.
pub open spec fn dec_value(d: Seq<char>) -> int
    decreases d.len(),
{
    if d.len() == 0 {
        0
    } else {
        dec_value(d.drop_last()) * 10 + (match spec_dec_digit(d.last()) {
            Some(v) => v as int,
            None => 0,
        })
    }
}

/// The literal with its sign stripped.
pub open spec fn int_digits(s: Seq<char>) -> Seq<char> {
    if s.len() > 0 && (s[0] == '+' || s[0] == '-') {
        s.skip(1)
    } else {
        s
    }
}

pub open spec fn all_dec_digits(s: Seq<char>) -> bool {
    forall|i: int| 0 <= i < s.len() ==> spec_dec_digit(s[i]) is Some
}

/// A well-formed integer literal: an optional sign, then at least one
/// decimal digit and nothing else.
pub open spec fn is_int_literal(s: Seq<char>) -> bool {
    int_digits(s).len() > 0 && all_dec_digits(int_digits(s))
}

/// The signed value of an integer literal.
pub open spec fn int_value(s: Seq<char>) -> int {
    if s.len() > 0 && s[0] == '-' {
        -dec_value(s.skip(1))
    } else if s.len() > 0 && s[0] == '+' {
        dec_value(s.skip(1))
    } else {
        dec_value(s)
    }
}

/// When a geometry field parses: it is empty (then it counts as 0) or a
/// well-formed literal whose value fits a 32-bit integer.
pub open spec fn stoi_ok(s: Seq<char>) -> bool {
    s.len() == 0 || (is_int_literal(s) && -0x8000_0000 <= int_value(s) <= 0x7fff_ffff)
}

/// The value of a geometry field: 0 for the empty field.
pub open spec fn stoi_val(s: Seq<char>) -> int {
    if s.len() == 0 {
        0
    } else {
        int_value(s)
    }
}

proof fn lemma_dec_value_nonneg(d: Seq<char>)
    ensures
        dec_value(d) >= 0,
    decreases d.len(),
{
    if d.len() > 0 {
        lemma_dec_value_nonneg(d.drop_last());
    }
}

/// Parse one geometry field: the empty string is 0; otherwise an optional
/// sign and decimal digits, rejected when malformed or out of the 32-bit
/// range.
fn stoi(s: &str) -> (r: Result<i32, GeomError>)
    ensures
        r is Ok <==> stoi_ok(s@),
        r matches Ok(v) ==> v as int == stoi_val(s@),
        r matches Err(e) ==> e == GeomError::InvalidNumber,
{
    let n = s.unicode_len();
    if n == 0 {
        return Ok(0);
    }
    let c0 = s.get_char(0);
    let neg = c0 == '-';
    let start: usize = if c0 == '-' || c0 == '+' {
        1
    } else {
        0
    };
    let ghost d = int_digits(s@);
    proof {
        assert(d =~= s@.skip(start as int));
    }
    if start == n {
        assert(d.len() == 0);
        return Err(GeomError::InvalidNumber);
    }
    let mut acc: u64 = 0;
    let mut big = false;
    let mut i: usize = start;
    while i < n
        invariant
            start <= i <= n,
            n == s@.len(),
            start == 0 || start == 1,
            (start == 1) <==> (s@[0] == '+' || s@[0] == '-'),
            d == s@.skip(start as int),
            forall|j: int| start <= j < i ==> spec_dec_digit(s@[j]) is Some,
            !big ==> acc as int == dec_value(s@.subrange(start as int, i as int)) && acc
                <= 0x8000_0000u64,
            big ==> dec_value(s@.subrange(start as int, i as int)) > 0x8000_0000,
        decreases n - i,
    {
        let ghost pre = s@.subrange(start as int, i as int);
        let ghost cur = s@.subrange(start as int, i + 1);
        proof {
            assert(cur.drop_last() =~= pre);
            assert(cur.last() == s@[i as int]);
            lemma_dec_value_nonneg(pre);
        }
        match dec_digit(s.get_char(i)) {
            Some(v) => {
                if !big {
                    let na = acc * 10 + (v as u64);
                    if na > 0x8000_0000 {
                        big = true;
                    } else {
                        acc = na;
                    }
                }
            },
            None => {
                proof {
                    assert(d[i - start] == s@[i as int]);
                    assert(!(spec_dec_digit(int_digits(s@)[i - start]) is Some));
                    assert(!all_dec_digits(int_digits(s@)));
                    assert(!is_int_literal(s@));
                }
                return Err(GeomError::InvalidNumber);
            },
        }
        i += 1;
    }
    proof {
        assert(s@.subrange(start as int, n as int) =~= d);
        assert forall|j: int| 0 <= j < int_digits(s@).len() implies spec_dec_digit(
            #[trigger] int_digits(s@)[j],
        ) is Some by {
            assert(int_digits(s@)[j] == s@[start + j]);
        }
        assert(all_dec_digits(int_digits(s@)));
        assert(is_int_literal(s@));
        lemma_dec_value_nonneg(d);
    }
    if big {
        return Err(GeomError::InvalidNumber);
    }
    if neg {
        let v: i64 = -(acc as i64);
        assert(int_value(s@) == -(acc as int));
        Ok(v as i32)
    } else {
        if acc > 0x7fff_ffff {
            assert(int_value(s@) == acc as int);
            return Err(GeomError::InvalidNumber);
        }
        assert(int_value(s@) == acc as int);
        Ok(acc as i32)
    }
}

/// Find the first occurrence of `c` in `s`.
fn find_char(s: &str, c: char) -> (r: Option<usize>)
    ensures
        match r {
            Some(i) => find_from(s@, c, 0) == Some(i as int) && i < s@.len(),
            None => find_from(s@, c, 0) is None,
        },
{
    let n = s.unicode_len();
    let mut i: usize = 0;
    while i < n
        invariant
            0 <= i <= n,
            n == s@.len(),
            find_from(s@, c, 0) == find_from(s@, c, i as int),
        decreases n - i,
    {
        if s.get_char(i) == c {
            return Some(i);
        }
        i += 1;
    }
    None
}

/// Find the last occurrence of `c` in `s`.
fn rfind_char(s: &str, c: char) -> (r: Option<usize>)
    ensures
        match r {
            Some(i) => rfind_from(s@, c, s@.len() - 1) == Some(i as int) && i < s@.len(),
            None => rfind_from(s@, c, s@.len() - 1) is None,
        },
{
    let n = s.unicode_len();
    let mut i: usize = n;
    while i > 0
        invariant
            0 <= i <= n,
            n == s@.len(),
            rfind_from(s@, c, n - 1) == rfind_from(s@, c, i - 1),
        decreases i,
    {
        i -= 1;
        if s.get_char(i) == c {
            return Some(i);
        }
    }
    None
}

/// What `parse_geometry` returns: offsets from the text after the first
/// `+` (split at the last `+` where there are two), width and height from
/// the text before it (split at the first `x`); each piece read as a
/// geometry field, `None` where any piece is malformed.
pub open spec fn geometry_spec(s: Seq<char>) -> Option<(int, int, int, int)> {
    let n = s.len() as int;
    let fplus = find_from(s, '+', 0);
    let pl1 = match fplus {
        Some(i) => i,
        None => n,
    };
    let xy: Option<(int, int)> = match fplus {
        None => Some((0, 0)),
        Some(i) => match rfind_from(s, '+', n - 1) {
            Some(j) => if j > i {
                if stoi_ok(s.subrange(i + 1, j)) && stoi_ok(s.subrange(j + 1, n)) {
                    Some((stoi_val(s.subrange(i + 1, j)), stoi_val(s.subrange(j + 1, n))))
                } else {
                    None
                }
            } else {
                if stoi_ok(s.subrange(i + 1, n)) {
                    Some((stoi_val(s.subrange(i + 1, n)), 0))
                } else {
                    None
                }
            },
            None => if stoi_ok(s.subrange(i + 1, n)) {
                Some((stoi_val(s.subrange(i + 1, n)), 0))
            } else {
                None
            },
        },
    };
    let wh: Option<(int, int)> = match find_from(s, 'x', 0) {
        Some(i) => if i + 1 <= pl1 {
            if stoi_ok(s.subrange(0, i)) && stoi_ok(s.subrange(i + 1, pl1)) {
                Some((stoi_val(s.subrange(0, i)), stoi_val(s.subrange(i + 1, pl1))))
            } else {
                None
            }
        } else {
            if stoi_ok(s.subrange(0, i)) {
                Some((stoi_val(s.subrange(0, i)), 0))
            } else {
                None
            }
        },
        None => if stoi_ok(s.subrange(0, pl1)) {
            Some((stoi_val(s.subrange(0, pl1)), 0))
        } else {
            None
        },
    };
    match wh {
        Some(whv) => match xy {
            Some(xyv) => Some((whv.0, whv.1, xyv.0, xyv.1)),
            None => None,
        },
        None => None,
    }
}

/// Parse a geometry argument `WxH+x+y` into `(width, height, x, y)`.
pub fn parse_geometry(g: &str) -> (r: Result<(i32, i32, i32, i32), GeomError>)
    ensures
        match r {
            Ok(t) => geometry_spec(g@) == Some((t.0 as int, t.1 as int, t.2 as int, t.3 as int)),
            Err(e) => geometry_spec(g@) is None && e == GeomError::InvalidNumber,
        },
{
    let n = g.unicode_len();
    let fplus = find_char(g, '+');
    let pl1: usize = match fplus {
        Some(i) => i,
        None => n,
    };
    let mut x: i32 = 0;
    let mut y: i32 = 0;
    match fplus {
        None => {},
        Some(i) => {
            let j = rfind_char(g, '+');
            match j {
                Some(j) => {
                    if j > i {
                        x = match stoi(g.substring_char(i + 1, j)) {
                            Ok(v) => v,
                            Err(e) => {
                                return Err(e);
                            },
                        };
                        y = match stoi(g.substring_char(j + 1, n)) {
                            Ok(v) => v,
                            Err(e) => {
                                return Err(e);
                            },
                        };
                    } else {
                        x = match stoi(g.substring_char(i + 1, n)) {
                            Ok(v) => v,
                            Err(e) => {
                                return Err(e);
                            },
                        };
                    }
                },
                None => {
                    x = match stoi(g.substring_char(i + 1, n)) {
                        Ok(v) => v,
                        Err(e) => {
                            return Err(e);
                        },
                    };
                },
            }
        },
    }
    let mut w: i32;
    let mut h: i32 = 0;
    match find_char(g, 'x') {
        Some(i) => {
            w = match stoi(g.substring_char(0, i)) {
                Ok(v) => v,
                Err(e) => {
                    return Err(e);
                },
            };
            if i + 1 <= pl1 {
                h = match stoi(g.substring_char(i + 1, pl1)) {
                    Ok(v) => v,
                    Err(e) => {
                        return Err(e);
                    },
                };
            }
        },
        None => {
            w = match stoi(g.substring_char(0, pl1)) {
                Ok(v) => v,
                Err(e) => {
                    return Err(e);
                },
            };
        },
    }
    Ok((w, h, x, y))
}

} // verus!
