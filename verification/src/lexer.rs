//! Primitive token parsers.
//!
//! Every parser takes the input bytes and a cursor position and either
//! consumes one token — skipping insignificant whitespace before it —
//! or fails without consuming anything. Each has a specification-level
//! twin (`spec_parse_*`) defining exactly which inputs it accepts and
//! what it yields; the contracts tie the executable parsers to those
//! twins, result and new position both.

use vstd::prelude::*;
use crate::fixed::{
    Fixed, EXP_MAX, is_rat, lemma_is_rat_unique, lemma_mant_cap_value, lemma_pow10_pos,
    mant_cap, pow10, pow10_exec, normalize,
};

verus! {

/// The failure taxonomy: a structural failure (a required construct is
/// missing or malformed), input that ends too early, a literal that
/// does not fit its numeric width, and a value outside its documented
/// range.
#[derive(Clone, Copy, Debug, PartialEq, Eq)]
pub enum ErrorKind {
    Syntax,
    Incomplete,
    Numeric,
    Semantic,
}

/// A failure, with the offset at which it was detected.
#[derive(Clone, Copy, Debug, PartialEq, Eq)]
pub struct ParseError {
    pub kind: ErrorKind,
    pub pos: usize,
}

/// Insignificant bytes between tokens: space, tab, line feed, carriage
/// return.
pub open spec fn is_ws(ch: u8) -> bool {
    ch == 32 || ch == 9 || ch == 10 || ch == 13
}

/// ASCII decimal digit.
pub open spec fn is_digit(ch: u8) -> bool {
    48 <= ch <= 57
}

/// Position of the first non-whitespace byte at or after `pos`.
pub open spec fn spec_skip_ws(s: Seq<u8>, pos: int) -> int
    decreases s.len() - pos,
{
    if 0 <= pos < s.len() && is_ws(s[pos]) {
        spec_skip_ws(s, pos + 1)
    } else {
        pos
    }
}

pub proof fn lemma_skip_ws_bounds(s: Seq<u8>, pos: int)
    requires
        0 <= pos <= s.len(),
    ensures
        pos <= spec_skip_ws(s, pos) <= s.len(),
    decreases s.len() - pos,
{
    if pos < s.len() && is_ws(s[pos]) {
        lemma_skip_ws_bounds(s, pos + 1);
    }
}

/// Consume whitespace.
pub fn skip_ws(s: &[u8], pos: usize) -> (r: usize)
    requires
        pos <= s@.len(),
    ensures
        r == spec_skip_ws(s@, pos as int),
        pos <= r <= s@.len(),
{
    let n: usize = s.len();
    let mut i: usize = pos;
    while i < n && (s[i] == 32 || s[i] == 9 || s[i] == 10 || s[i] == 13)
        invariant
            pos <= i <= n,
            n == s@.len(),
            spec_skip_ws(s@, pos as int) == spec_skip_ws(s@, i as int),
        decreases n - i,
    {
        i = i + 1;
    }
    i
}

/// The bytes `tag` stand verbatim at `pos`.
pub open spec fn spec_match_at(s: Seq<u8>, pos: int, tag: Seq<u8>) -> bool {
    0 <= pos && pos + tag.len() <= s.len() && s.subrange(pos, pos + tag.len()) == tag
}

/// A literal tag, after whitespace: the position just past it, or
/// nothing.
pub open spec fn spec_tag(s: Seq<u8>, pos: int, tag: Seq<u8>) -> Option<int> {
    let p = spec_skip_ws(s, pos);
    if spec_match_at(s, p, tag) {
        Some(p + tag.len())
    } else {
        None
    }
}

/// Consume the literal `tag`, or fail consuming nothing.
pub fn expect_tag(s: &[u8], pos: usize, tag: &[u8]) -> (r: Result<usize, ParseError>)
    requires
        pos <= s@.len(),
    ensures
        match r {
            Ok(p) => spec_tag(s@, pos as int, tag@) == Some(p as int) && pos <= p <= s@.len()
                && (tag@.len() > 0 ==> pos < p),
            Err(e) => spec_tag(s@, pos as int, tag@) is None,
        },
{
    let p: usize = skip_ws(s, pos);
    let n: usize = s.len();
    if n - p < tag.len() {
        proof {
            assert(!spec_match_at(s@, p as int, tag@));
        }
        return Err(ParseError { kind: ErrorKind::Incomplete, pos: p });
    }
    let mut i: usize = 0;
    while i < tag.len()
        invariant
            0 <= i <= tag@.len(),
            n == s@.len(),
            p + tag@.len() <= n,
            p == spec_skip_ws(s@, pos as int),
            pos <= p,
            forall|j: int| 0 <= j < i ==> s@[p + j] == tag@[j],
        decreases tag@.len() - i,
    {
        if s[p + i] != tag[i] {
            proof {
                assert(spec_match_at(s@, p as int, tag@) ==> s@.subrange(
                    p as int,
                    p + tag@.len(),
                )[i as int] == tag@[i as int]);
                assert(!spec_match_at(s@, p as int, tag@));
            }
            return Err(ParseError { kind: ErrorKind::Syntax, pos: p });
        }
        i = i + 1;
    }
    proof {
        assert(s@.subrange(p as int, p + tag@.len()) =~= tag@);
    }
    Ok(p + tag.len())
}

/// End of the maximal digit run starting at `pos`.
pub open spec fn digit_run_end(s: Seq<u8>, pos: int) -> int
    decreases s.len() - pos,
{
    if 0 <= pos < s.len() && is_digit(s[pos]) {
        digit_run_end(s, pos + 1)
    } else {
        pos
    }
}

pub proof fn lemma_digit_run_facts(s: Seq<u8>, pos: int)
    requires
        0 <= pos <= s.len(),
    ensures
        pos <= digit_run_end(s, pos) <= s.len(),
        forall|j: int| pos <= j < digit_run_end(s, pos) ==> is_digit(s[j]),
        digit_run_end(s, pos) == s.len() || !is_digit(s[digit_run_end(s, pos)]),
    decreases s.len() - pos,
{
    if pos < s.len() && is_digit(s[pos]) {
        lemma_digit_run_facts(s, pos + 1);
    }
}

/// Base-10 value of the digits in `s[pos..end]`.
pub open spec fn digits_val(s: Seq<u8>, pos: int, end: int) -> int
    decreases end - pos,
{
    if pos >= end {
        0
    } else {
        digits_val(s, pos, end - 1) * 10 + (s[end - 1] - 48)
    }
}

/// Digit strings denote nonnegative values that only grow as digits
/// are appended, and a run of `k` digits stays below `10^k`.
pub proof fn lemma_digits_val_facts(s: Seq<u8>, pos: int, end: int)
    requires
        0 <= pos <= end <= s.len(),
        forall|j: int| pos <= j < end ==> is_digit(s[j]),
    ensures
        0 <= digits_val(s, pos, end) < pow10((end - pos) as nat),
        forall|m: int|
            pos <= m <= end ==> digits_val(s, pos, m) <= digits_val(s, pos, end),
    decreases end - pos,
{
    if pos >= end {
        assert(pow10(0) == 1);
    } else {
        lemma_digits_val_facts(s, pos, end - 1);
        assert(pow10((end - pos) as nat) == 10 * pow10((end - 1 - pos) as nat));
        assert(forall|m: int|
            pos <= m <= end ==> digits_val(s, pos, m) <= digits_val(s, pos, end)) by {
            assert forall|m: int| pos <= m <= end implies digits_val(s, pos, m) <= digits_val(
                s,
                pos,
                end,
            ) by {
                if m < end {
                    assert(digits_val(s, pos, m) <= digits_val(s, pos, end - 1));
                }
            }
        }
    }
}

/// Consume a (possibly empty) digit run, folding its value; fails only
/// when the value reaches `10^18`.
pub fn scan_digits(s: &[u8], pos: usize) -> (r: Result<(i128, usize), ParseError>)
    requires
        pos <= s@.len(),
    ensures
        match r {
            Ok((v, e)) => {
                &&& e as int == digit_run_end(s@, pos as int)
                &&& v as int == digits_val(s@, pos as int, e as int)
                &&& 0 <= v < pow10(18)
                &&& pos <= e <= s@.len()
            },
            Err(er) => {
                &&& digits_val(s@, pos as int, digit_run_end(s@, pos as int)) >= pow10(18)
                &&& er.kind == ErrorKind::Numeric
            },
        },
{
    let cap: i128 = pow10_exec(18);
    proof {
        lemma_pow10_pos(18);
        lemma_digit_run_facts(s@, pos as int);
        lemma_digits_val_facts(s@, pos as int, digit_run_end(s@, pos as int));
    }
    let n: usize = s.len();
    let mut i: usize = pos;
    let mut v: i128 = 0;
    while i < n && 48 <= s[i] && s[i] <= 57
        invariant
            pos <= i <= n,
            n == s@.len(),
            cap == pow10(18),
            digit_run_end(s@, pos as int) == digit_run_end(s@, i as int),
            i <= digit_run_end(s@, pos as int),
            v as int == digits_val(s@, pos as int, i as int),
            0 <= v < cap,
            forall|j: int| pos <= j < i ==> is_digit(s@[j]),
        decreases n - i,
    {
        let d: i128 = (s[i] - 48) as i128;
        proof {
            lemma_mant_cap_value();
            assert(pow10(18) < mant_cap()) by {
                reveal_with_fuel(pow10, 38);
            }
        }
        let v2: i128 = v * 10 + d;
        proof {
            assert(digits_val(s@, pos as int, i + 1) == v2);
            lemma_digit_run_facts(s@, i + 1);
        }
        if v2 >= cap {
            proof {
                lemma_digit_run_facts(s@, pos as int);
                lemma_digits_val_facts(s@, pos as int, digit_run_end(s@, pos as int));
                assert(digits_val(s@, pos as int, i + 1) <= digits_val(
                    s@,
                    pos as int,
                    digit_run_end(s@, pos as int),
                ));
            }
            return Err(ParseError { kind: ErrorKind::Numeric, pos: i });
        }
        v = v2;
        i = i + 1;
    }
    Ok((v, i))
}

/// An unsigned integer literal, after whitespace: one or more digits
/// whose value fits the width.
pub open spec fn spec_parse_u32(s: Seq<u8>, pos: int) -> Option<(u32, int)> {
    let p = spec_skip_ws(s, pos);
    let e = digit_run_end(s, p);
    let v = digits_val(s, p, e);
    if e == p {
        None
    } else if v <= u32::MAX {
        Some((v as u32, e))
    } else {
        None
    }
}

/// Parse an unsigned integer.
pub fn parse_u32(s: &[u8], pos: usize) -> (r: Result<(u32, usize), ParseError>)
    requires
        pos <= s@.len(),
    ensures
        match r {
            Ok((v, e)) => spec_parse_u32(s@, pos as int) == Some((v, e as int)) && pos < e
                <= s@.len(),
            Err(er) => spec_parse_u32(s@, pos as int) is None,
        },
{
    let p = skip_ws(s, pos);
    proof {
        lemma_digit_run_facts(s@, p as int);
        lemma_digits_val_facts(s@, p as int, digit_run_end(s@, p as int));
        assert(pow10(18) > u32::MAX) by {
            reveal_with_fuel(pow10, 19);
        }
    }
    match scan_digits(s, p) {
        Ok((v, e)) => {
            if e == p {
                let kind = if p == s.len() {
                    ErrorKind::Incomplete
                } else {
                    ErrorKind::Syntax
                };
                Err(ParseError { kind, pos: p })
            } else if v > 0xffffffff {
                Err(ParseError { kind: ErrorKind::Numeric, pos: p })
            } else {
                Ok((v as u32, e))
            }
        },
        Err(er) => Err(er),
    }
}

/// A signed integer literal, after whitespace: an optional minus sign
/// (whitespace may follow it), then one or more digits; the digits must
/// fit the positive width, whatever the sign.
pub open spec fn spec_parse_i32(s: Seq<u8>, pos: int) -> Option<(i32, int)> {
    let p0 = spec_skip_ws(s, pos);
    let neg = p0 < s.len() && s[p0] == 45;
    let p = if neg {
        spec_skip_ws(s, p0 + 1)
    } else {
        p0
    };
    let e = digit_run_end(s, p);
    let v = digits_val(s, p, e);
    if e == p {
        None
    } else if v <= i32::MAX {
        Some(
            (
                if neg {
                    (-v) as i32
                } else {
                    v as i32
                },
                e,
            ),
        )
    } else {
        None
    }
}

/// Parse a signed integer.
pub fn parse_i32(s: &[u8], pos: usize) -> (r: Result<(i32, usize), ParseError>)
    requires
        pos <= s@.len(),
    ensures
        match r {
            Ok((v, e)) => spec_parse_i32(s@, pos as int) == Some((v, e as int)) && pos < e
                <= s@.len(),
            Err(er) => spec_parse_i32(s@, pos as int) is None,
        },
{
    let p0 = skip_ws(s, pos);
    let neg = p0 < s.len() && s[p0] == 45;
    let p = if neg {
        skip_ws(s, p0 + 1)
    } else {
        p0
    };
    proof {
        lemma_digit_run_facts(s@, p as int);
        lemma_digits_val_facts(s@, p as int, digit_run_end(s@, p as int));
        assert(pow10(18) > i32::MAX) by {
            reveal_with_fuel(pow10, 19);
        }
    }
    match scan_digits(s, p) {
        Ok((v, e)) => {
            if e == p {
                let kind = if p == s.len() {
                    ErrorKind::Incomplete
                } else {
                    ErrorKind::Syntax
                };
                Err(ParseError { kind, pos: p })
            } else if v > 0x7fffffff {
                Err(ParseError { kind: ErrorKind::Numeric, pos: p })
            } else {
                let w = v as i32;
                Ok((if neg { -w } else { w }, e))
            }
        },
        Err(er) => Err(er),
    }
}

/// Canonical scalar for `m / 10^e`: trailing zeros of the mantissa move
/// out of the exponent.
pub open spec fn spec_normalize(m: int, e: nat) -> Fixed
    decreases e,
{
    if e > 0 && m % 10 == 0 {
        spec_normalize(m / 10, (e - 1) as nat)
    } else {
        Fixed { mant: m as i128, exp: e as u32 }
    }
}

pub proof fn lemma_spec_normalize(m: int, e: nat)
    requires
        -mant_cap() < m < mant_cap(),
        e <= EXP_MAX,
    ensures
        spec_normalize(m, e).wf(),
        is_rat(spec_normalize(m, e), m, e),
    decreases e,
{
    lemma_mant_cap_value();
    if e > 0 && m % 10 == 0 {
        assert(m == 10 * (m / 10) + m % 10);
        lemma_spec_normalize(m / 10, (e - 1) as nat);
        let r = spec_normalize(m / 10, (e - 1) as nat);
        assert(pow10(e) == 10 * pow10((e - 1) as nat));
        assert(r.mant * pow10(e) == m * pow10(r.exp as nat)) by (nonlinear_arith)
            requires
                r.mant * pow10((e - 1) as nat) == (m / 10) * pow10(r.exp as nat),
                pow10(e) == 10 * pow10((e - 1) as nat),
                m == 10 * (m / 10),
        ;
    }
}

/// A signed decimal literal, after whitespace: an optional minus sign,
/// a digit run, and optionally a point followed by a digit run. The
/// value is exact: the digits become the mantissa, the length of the
/// fractional run the exponent. It must fit the scalar width: mantissa
/// below `10^18`, at most nine fractional digits.
pub open spec fn spec_parse_dec(s: Seq<u8>, pos: int) -> Option<(Fixed, int)> {
    let p0 = spec_skip_ws(s, pos);
    let neg = p0 < s.len() && s[p0] == 45;
    let p = if neg {
        spec_skip_ws(s, p0 + 1)
    } else {
        p0
    };
    let e1 = digit_run_end(s, p);
    if e1 == p {
        None
    } else if e1 < s.len() && s[e1] == 46 && digit_run_end(s, e1 + 1) > e1 + 1 {
        let e2 = digit_run_end(s, e1 + 1);
        let fd = e2 - (e1 + 1);
        let m = digits_val(s, p, e1) * pow10(fd as nat) + digits_val(s, e1 + 1, e2);
        if fd <= 9 && m < pow10(18) {
            Some((spec_normalize(if neg { -m } else { m }, fd as nat), e2))
        } else {
            None
        }
    } else {
        let m = digits_val(s, p, e1);
        if m < pow10(18) {
            Some((spec_normalize(if neg { -m } else { m }, 0), e1))
        } else {
            None
        }
    }
}

/// Parse a signed decimal literal into an exact scalar.
pub fn parse_dec(s: &[u8], pos: usize) -> (r: Result<(Fixed, usize), ParseError>)
    requires
        pos <= s@.len(),
    ensures
        match r {
            Ok((v, e)) => {
                &&& spec_parse_dec(s@, pos as int) == Some((v, e as int))
                &&& pos < e <= s@.len()
                &&& v.wf()
                &&& v.exp <= 9
                &&& -pow10(18) < v.mant < pow10(18)
            },
            Err(er) => spec_parse_dec(s@, pos as int) is None && er.kind
                != ErrorKind::Semantic,
        },
{
    proof {
        lemma_mant_cap_value();
        assert(pow10(18) < mant_cap() && pow10(9) == 1000000000int && pow10(18)
            == 1000000000000000000int) by {
            reveal_with_fuel(pow10, 38);
        }
    }
    let p0 = skip_ws(s, pos);
    let neg = p0 < s.len() && s[p0] == 45;
    let p = if neg {
        skip_ws(s, p0 + 1)
    } else {
        p0
    };
    proof {
        lemma_digit_run_facts(s@, p as int);
        lemma_digits_val_facts(s@, p as int, digit_run_end(s@, p as int));
    }
    let (ip, e1) = match scan_digits(s, p) {
        Ok(t) => t,
        Err(er) => {
            proof {
                let e1s = digit_run_end(s@, p as int);
                if e1s < s@.len() && s@[e1s] == 46 && digit_run_end(s@, e1s + 1) > e1s + 1 {
                    let fdl = digit_run_end(s@, e1s + 1) - (e1s + 1);
                    lemma_pow10_pos(fdl as nat);
                    lemma_digit_run_facts(s@, e1s + 1);
                    lemma_digits_val_facts(s@, e1s + 1, digit_run_end(s@, e1s + 1));
                    assert(digits_val(s@, p as int, e1s) * pow10(fdl as nat) >= digits_val(
                        s@,
                        p as int,
                        e1s,
                    )) by (nonlinear_arith)
                        requires
                            digits_val(s@, p as int, e1s) >= 0,
                            pow10(fdl as nat) >= 1,
                    ;
                }
            }
            return Err(er);
        },
    };
    if e1 == p {
        let kind = if p == s.len() {
            ErrorKind::Incomplete
        } else {
            ErrorKind::Syntax
        };
        return Err(ParseError { kind, pos: p });
    }
    let mut mant: i128 = ip;
    let mut fd: u32 = 0;
    let mut end: usize = e1;
    if e1 < s.len() && s[e1] == 46 {
        proof {
            lemma_digit_run_facts(s@, e1 + 1);
            lemma_digits_val_facts(s@, e1 + 1, digit_run_end(s@, e1 + 1));
        }
        let (fv, e2) = match scan_digits(s, e1 + 1) {
            Ok(t) => t,
            Err(er) => {
                proof {
                    lemma_digits_val_facts(s@, e1 + 1, digit_run_end(s@, e1 + 1));
                    let rl = digit_run_end(s@, e1 + 1) - (e1 + 1);
                    if rl <= 9 {
                        crate::fixed::lemma_pow10_mono(rl as nat, 9);
                    }
                }
                return Err(ParseError { kind: ErrorKind::Numeric, pos: e1 + 1 });
            },
        };
        if e2 > e1 + 1 {
            let fdu = e2 - (e1 + 1);
            if fdu > 9 {
                return Err(ParseError { kind: ErrorKind::Numeric, pos: e1 + 1 });
            }
            let scale = pow10_exec(fdu as u32);
            proof {
                crate::fixed::lemma_pow10_mono(fdu as nat, 9);
                assert(ip * scale <= (pow10(18) - 1) * pow10(9)) by (nonlinear_arith)
                    requires
                        0 <= ip <= pow10(18) - 1,
                        1 <= scale <= pow10(9),
                ;
                assert((pow10(18) - 1) * pow10(9) < pow10(18) * pow10(9)) by (nonlinear_arith)
                    requires
                        pow10(9) >= 1,
                ;
                assert(pow10(18) * pow10(9) == pow10(27)) by {
                    crate::fixed::lemma_pow10_add(18, 9);
                }
                assert(pow10(27) < mant_cap()) by {
                    reveal_with_fuel(pow10, 38);
                }
                assert(ip * scale >= 0) by (nonlinear_arith)
                    requires
                        ip >= 0,
                        scale >= 1,
                ;
            }
            let m2: i128 = ip * scale + fv;
            if m2 >= 1000000000000000000i128 {
                proof {
                    assert(pow10(18) == 1000000000000000000int) by {
                        reveal_with_fuel(pow10, 19);
                    }
                }
                return Err(ParseError { kind: ErrorKind::Numeric, pos: p });
            }
            mant = m2;
            fd = fdu as u32;
            end = e2;
        }
    }
    let signed: i128 = if neg {
        -mant
    } else {
        mant
    };
    let r = normalize(signed, fd);
    proof {
        lemma_spec_normalize(signed as int, fd as nat);
        lemma_is_rat_unique(
            r,
            spec_normalize(signed as int, fd as nat),
            signed as int,
            fd as nat,
        );
    }
    Ok((r, end))
}


/// First position at or after `pos` holding a double quote, or the
/// input's end.
pub open spec fn quote_end(s: Seq<u8>, pos: int) -> int
    decreases s.len() - pos,
{
    if 0 <= pos < s.len() && s[pos] != 34 {
        quote_end(s, pos + 1)
    } else {
        pos
    }
}

pub proof fn lemma_quote_end_facts(s: Seq<u8>, pos: int)
    requires
        0 <= pos <= s.len(),
    ensures
        pos <= quote_end(s, pos) <= s.len(),
        quote_end(s, pos) < s.len() ==> s[quote_end(s, pos)] == 34,
    decreases s.len() - pos,
{
    if pos < s.len() && s[pos] != 34 {
        lemma_quote_end_facts(s, pos + 1);
    }
}

/// The raw content of a quoted string, after whitespace: everything
/// between a double quote and the next one, verbatim; there are no
/// escapes, so the content cannot hold a quote. Fails when the closing
/// quote never comes.
pub open spec fn spec_parse_string_bytes(s: Seq<u8>, pos: int) -> Option<(Seq<u8>, int)> {
    let p = spec_skip_ws(s, pos);
    if p < s.len() && s[p] == 34 {
        let e = quote_end(s, p + 1);
        if e < s.len() {
            Some((s.subrange(p + 1, e), e + 1))
        } else {
            None
        }
    } else {
        None
    }
}

/// A quoted string, after whitespace: its raw bytes read as text.
pub open spec fn spec_parse_string(s: Seq<u8>, pos: int) -> Option<(Seq<char>, int)> {
    match spec_parse_string_bytes(s, pos) {
        Some((bytes, p)) => match utf8_decode(bytes) {
            Some(t) => Some((t, p)),
            None => None,
        },
        None => None,
    }
}

/// The text a byte sequence denotes, or nothing when the bytes are not
/// valid UTF-8.
pub uninterp spec fn utf8_decode(bytes: Seq<u8>) -> Option<Seq<char>>;

/// Relies on String::from_utf8: it decodes exactly the valid UTF-8
/// byte sequences, as a function of the bytes alone.
#[verifier::external_body]
fn bytes_to_string(v: Vec<u8>) -> (r: Option<String>)
    ensures
        r matches Some(t) ==> utf8_decode(v@) == Some(t@),
        r is None ==> utf8_decode(v@) is None,
{
    String::from_utf8(v).ok()
}

/// Parse a quoted string.
pub fn parse_string(s: &[u8], pos: usize) -> (r: Result<(String, usize), ParseError>)
    requires
        pos <= s@.len(),
    ensures
        match r {
            Ok((t, e)) => spec_parse_string(s@, pos as int) == Some((t@, e as int)) && pos < e
                <= s@.len(),
            Err(er) => spec_parse_string(s@, pos as int) is None,
        },
{
    let p: usize = skip_ws(s, pos);
    let n: usize = s.len();
    if p >= n || s[p] != 34 {
        let kind = if p == n {
            ErrorKind::Incomplete
        } else {
            ErrorKind::Syntax
        };
        return Err(ParseError { kind, pos: p });
    }
    let mut i: usize = p + 1;
    while i < n && s[i] != 34
        invariant
            p + 1 <= i <= n,
            n == s@.len(),
            quote_end(s@, p + 1) == quote_end(s@, i as int),
        decreases n - i,
    {
        i = i + 1;
    }
    if i == n {
        return Err(ParseError { kind: ErrorKind::Incomplete, pos: p });
    }
    let mut v: Vec<u8> = Vec::new();
    let mut j: usize = p + 1;
    while j < i
        invariant
            p + 1 <= j <= i,
            i < n,
            n == s@.len(),
            v@ == s@.subrange(p + 1, j as int),
        decreases i - j,
    {
        v.push(s[j]);
        proof {
            assert(v@ =~= s@.subrange(p + 1, j + 1));
        }
        j = j + 1;
    }
    match bytes_to_string(v) {
        Some(t) => Ok((t, i + 1)),
        None => Err(ParseError { kind: ErrorKind::Syntax, pos: p }),
    }
}

/// First position at or after `pos` holding a line feed, or the
/// input's end.
pub open spec fn line_end(s: Seq<u8>, pos: int) -> int
    decreases s.len() - pos,
{
    if 0 <= pos < s.len() && s[pos] != 10 {
        line_end(s, pos + 1)
    } else {
        pos
    }
}

pub proof fn lemma_line_end_facts(s: Seq<u8>, pos: int)
    requires
        0 <= pos <= s.len(),
    ensures
        pos <= line_end(s, pos) <= s.len(),
    decreases s.len() - pos,
{
    if pos < s.len() && s[pos] != 10 {
        lemma_line_end_facts(s, pos + 1);
    }
}

/// A comment, after whitespace: two slashes through the next line
/// feed, which is consumed too. Fails when no line feed follows.
pub open spec fn spec_comment(s: Seq<u8>, pos: int) -> Option<int> {
    let p = spec_skip_ws(s, pos);
    if p + 1 < s.len() && s[p] == 47 && s[p + 1] == 47 {
        let e = line_end(s, p + 2);
        if e < s.len() {
            Some(e + 1)
        } else {
            None
        }
    } else {
        None
    }
}

/// Where an optional comment leaves the cursor: past the comment, or
/// where it stood.
pub open spec fn spec_opt_comment(s: Seq<u8>, pos: int) -> int {
    match spec_comment(s, pos) {
        Some(e) => e,
        None => pos,
    }
}

/// Consume a trailing comment if one stands here; consume nothing
/// otherwise.
pub fn skip_comment(s: &[u8], pos: usize) -> (r: usize)
    requires
        pos <= s@.len(),
    ensures
        r as int == spec_opt_comment(s@, pos as int),
        pos <= r <= s@.len(),
{
    let p: usize = skip_ws(s, pos);
    let n: usize = s.len();
    if n - p < 2 || s[p] != 47 || s[p + 1] != 47 {
        return pos;
    }
    let mut i: usize = p + 2;
    while i < n && s[i] != 10
        invariant
            p + 2 <= i <= n,
            n == s@.len(),
            line_end(s@, p + 2) == line_end(s@, i as int),
        decreases n - i,
    {
        i = i + 1;
    }
    if i == n {
        return pos;
    }
    i + 1
}

} // verus!

