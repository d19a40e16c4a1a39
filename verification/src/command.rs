//! Parsing of `/top N D` ranking commands.
//!
//! The grammar is an explicit tokenizer: the literal `/top` at the very start
//! of the text, one or more spaces, a decimal digit run, one or more spaces,
//! a second digit run, and arbitrary trailing content, which is ignored.
//! `N` is clamped into `[1, 5]` and `D` into `[1, 365]`; a digit run whose
//! value does not fit an `i64` makes the whole command be ignored rather
//! than aborting the update that carried it.

use vstd::prelude::*;

use crate::model::RankingRequest;

verus! {

/// One ASCII decimal digit.
pub open spec fn is_ascii_digit(b: u8) -> bool {
    48 <= b <= 57
}

/// Index of the first byte at or after `i` that is not an ASCII space.
pub open spec fn skip_spaces(s: Seq<u8>, i: int) -> int
    decreases s.len() - i,
{
    if i < 0 || i >= s.len() {
        i
    } else if s[i] == 32 {
        skip_spaces(s, i + 1)
    } else {
        i
    }
}

/// Index of the first byte at or after `i` that is not an ASCII digit.
pub open spec fn skip_digits(s: Seq<u8>, i: int) -> int
    decreases s.len() - i,
{
    if i < 0 || i >= s.len() {
        i
    } else if is_ascii_digit(s[i]) {
        skip_digits(s, i + 1)
    } else {
        i
    }
}

/// Numeric value of the decimal digit run `s[i..j)`; 0 for an empty run.
pub open spec fn digits_value(s: Seq<u8>, i: int, j: int) -> int
    decreases j - i,
{
    if i >= j {
        0
    } else {
        10 * digits_value(s, i, j - 1) + (s[j - 1] - 48)
    }
}

/// `v` coerced into `[lo, hi]`.
pub open spec fn clamp_spec(v: int, lo: int, hi: int) -> int {
    if v > hi {
        hi
    } else if v < lo {
        lo
    } else {
        v
    }
}

/// Does `s` begin with the literal `/top`?
pub open spec fn has_top_prefix(s: Seq<u8>) -> bool {
    s.len() >= 4 && s[0] == 47 && s[1] == 116 && s[2] == 111 && s[3] == 112
}

/// A full syntactic match of the command grammar, from the start of the text.
pub open spec fn command_shape(s: Seq<u8>) -> bool {
    let b = skip_spaces(s, 4);
    let c = skip_digits(s, b);
    let d = skip_spaces(s, c);
    let e = skip_digits(s, d);
    has_top_prefix(s) && b > 4 && c > b && d > c && e > d
}

/// The value of the first digit run of a syntactic match.
pub open spec fn command_top_value(s: Seq<u8>) -> int {
    let b = skip_spaces(s, 4);
    digits_value(s, b, skip_digits(s, b))
}

/// The value of the second digit run of a syntactic match.
pub open spec fn command_days_value(s: Seq<u8>) -> int {
    let b = skip_spaces(s, 4);
    let c = skip_digits(s, b);
    let d = skip_spaces(s, c);
    digits_value(s, d, skip_digits(s, d))
}

/// The ranking request denoted by `s`: `None` unless `s` matches the command
/// grammar with both numbers representable, and the clamped request otherwise.
pub open spec fn parse_command_spec(s: Seq<u8>) -> Option<RankingRequest> {
    if command_shape(s) && command_top_value(s) <= i64::MAX && command_days_value(s) <= i64::MAX {
        Option::Some(
            RankingRequest {
                top: clamp_spec(command_top_value(s), 1, 5) as i64,
                days: clamp_spec(command_days_value(s), 1, 365) as i64,
            },
        )
    } else {
        Option::None
    }
}

/// A text that does not open with the literal `/top` — whatever else it
/// holds — never yields a ranking request.
pub proof fn lemma_no_prefix_no_request(s: Seq<u8>)
    requires
        !has_top_prefix(s),
    ensures
        parse_command_spec(s) is None,
{
}

/// Scans the space run starting at `from`.
fn scan_spaces(text: &[u8], from: usize) -> (r: usize)
    requires
        from <= text@.len(),
    ensures
        from <= r <= text@.len(),
        r == skip_spaces(text@, from as int),
{
    let mut i = from;
    while i < text.len() && text[i] == 32
        invariant
            from <= i <= text@.len(),
            skip_spaces(text@, from as int) == skip_spaces(text@, i as int),
        decreases text@.len() - i,
    {
        i = i + 1;
    }
    i
}

/// Scans the digit run starting at `from` and accumulates its value;
/// the value is `None` when the run does not fit an `i64`.
fn scan_number(text: &[u8], from: usize) -> (r: (usize, Option<i64>))
    requires
        from <= text@.len(),
    ensures
        from <= r.0 <= text@.len(),
        r.0 == skip_digits(text@, from as int),
        match r.1 {
            Option::Some(v) => 0 <= v && v == digits_value(text@, from as int, r.0 as int),
            Option::None => digits_value(text@, from as int, r.0 as int) > i64::MAX,
        },
{
    let mut i = from;
    let mut acc: i64 = 0;
    let mut over: bool = false;
    while i < text.len() && 48 <= text[i] && text[i] <= 57
        invariant
            from <= i <= text@.len(),
            skip_digits(text@, from as int) == skip_digits(text@, i as int),
            forall|m: int| from <= m < i ==> is_ascii_digit(#[trigger] text@[m]),
            0 <= acc,
            !over ==> acc == digits_value(text@, from as int, i as int),
            over ==> digits_value(text@, from as int, i as int) > i64::MAX,
        decreases text@.len() - i,
    {
        let d: i64 = (text[i] - 48) as i64;
        proof {
            assert(digits_value(text@, from as int, i + 1) == 10 * digits_value(
                text@,
                from as int,
                i as int,
            ) + (text@[i as int] - 48));
        }
        if !over {
            if acc <= (i64::MAX - d) / 10 {
                proof {
                    assert(10 * acc + d <= i64::MAX) by (nonlinear_arith)
                        requires
                            0 <= acc,
                            0 <= d <= 9,
                            acc <= (i64::MAX - d) / 10,
                    ;
                }
                acc = acc * 10 + d;
            } else {
                proof {
                    assert(10 * acc + d > i64::MAX) by (nonlinear_arith)
                        requires
                            0 <= acc,
                            0 <= d <= 9,
                            acc > (i64::MAX - d) / 10,
                    ;
                }
                over = true;
            }
        } else {
            proof {
                assert(10 * digits_value(text@, from as int, i as int) + (text@[i as int] - 48)
                    > i64::MAX) by (nonlinear_arith)
                    requires
                        digits_value(text@, from as int, i as int) > i64::MAX,
                        text@[i as int] >= 48,
                ;
            }
        }
        i = i + 1;
    }
    (i, if over { Option::None } else { Option::Some(acc) })
}

/// `v` coerced into `[lo, hi]`.
fn clamp_i64(v: i64, lo: i64, hi: i64) -> (r: i64)
    requires
        lo <= hi,
    ensures
        r == clamp_spec(v as int, lo as int, hi as int),
{
    if v > hi {
        hi
    } else if v < lo {
        lo
    } else {
        v
    }
}

/// Parses a `/top N D` command out of `text`.
///
/// Returns `None` for any text that does not match the grammar from its very
/// first byte, and for a match whose numbers exceed `i64::MAX`; otherwise the
/// clamped ranking request.
pub fn parse_command(text: &[u8]) -> (r: Option<RankingRequest>)
    ensures
        r == parse_command_spec(text@),
        r matches Option::Some(req) ==> req.valid(),
{
    if text.len() < 4 {
        return Option::None;
    }
    if !(text[0] == 47 && text[1] == 116 && text[2] == 111 && text[3] == 112) {
        return Option::None;
    }
    let b = scan_spaces(text, 4);
    if b == 4 {
        return Option::None;
    }
    let (c, top_value) = scan_number(text, b);
    if c == b {
        return Option::None;
    }
    let d = scan_spaces(text, c);
    if d == c {
        return Option::None;
    }
    let (e, days_value) = scan_number(text, d);
    if e == d {
        return Option::None;
    }
    match (top_value, days_value) {
        (Option::Some(tv), Option::Some(dv)) => Option::Some(
            RankingRequest { top: clamp_i64(tv, 1, 5), days: clamp_i64(dv, 1, 365) },
        ),
        _ => Option::None,
    }
}

} // verus!
