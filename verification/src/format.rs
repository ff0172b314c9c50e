//! Rendering a scalar back into the grammar's decimal notation.
//!
//! The formatter writes the same sign / digit-run / decimal-point
//! convention the primitive parser reads, and its contract is the
//! round trip itself: re-parsing the produced text yields exactly the
//! scalar that was formatted, with nothing left over.

use vstd::prelude::*;
use vstd::arithmetic::div_mod::{lemma_div_denominator, lemma_fundamental_div_mod};
use crate::fixed::{Fixed, lemma_pow10_mono, lemma_pow10_pos, pow10, pow10_exec};
use crate::lexer::{
    digit_run_end, digits_val, is_digit, is_ws, spec_normalize, spec_parse_dec, spec_skip_ws,
};

verus! {

/// Two digit strings with equal bytes denote equal values.
pub proof fn lemma_digits_val_congruent(s1: Seq<u8>, p1: int, s2: Seq<u8>, p2: int, len: int)
    requires
        len >= 0,
        forall|k: int| 0 <= k < len ==> #[trigger] s1[p1 + k] == s2[p2 + k],
    ensures
        digits_val(s1, p1, p1 + len) == digits_val(s2, p2, p2 + len),
    decreases len,
{
    if len > 0 {
        lemma_digits_val_congruent(s1, p1, s2, p2, len - 1);
    }
}

/// Append exactly `width` decimal digits for `n`, most significant
/// first, zero-padded on the left.
fn push_digits(out: &mut Vec<u8>, n: i128, width: usize)
    requires
        0 <= n,
        1 <= width <= 19,
        n < pow10(width as nat),
    ensures
        final(out)@.len() == old(out)@.len() + width,
        forall|k: int| 0 <= k < old(out)@.len() ==> final(out)@[k] == old(out)@[k],
        forall|k: int|
            old(out)@.len() <= k < final(out)@.len() ==> is_digit(final(out)@[k]),
        digits_val(final(out)@, old(out)@.len() as int, final(out)@.len() as int) == n,
{
    let base: usize = out.len();
    proof {
        lemma_pow10_pos(width as nat);
        vstd::arithmetic::div_mod::lemma_basic_div(n as int, pow10(width as nat));
    }
    let mut k: usize = 0;
    while k < width
        invariant
            0 <= n < pow10(width as nat),
            width <= 19,
            k <= width,
            out@.len() == base + k,
            forall|j: int| 0 <= j < base ==> out@[j] == old(out)@[j],
            forall|j: int| base <= j < out@.len() ==> is_digit(out@[j]),
            digits_val(out@, base as int, (base + k) as int) == n as int / pow10(
                (width - k) as nat,
            ),
        decreases width - k,
    {
        let p: i128 = pow10_exec((width - 1 - k) as u32);
        proof {
            lemma_pow10_pos((width - 1 - k) as nat);
            lemma_pow10_pos((width - k) as nat);
        }
        let q: i128 = n / p;
        let d: i128 = q % 10;
        proof {
            lemma_fundamental_div_mod(q as int, 10);
            lemma_div_denominator(n as int, pow10((width - 1 - k) as nat), 10);
            assert(pow10((width - k) as nat) == 10 * pow10((width - 1 - k) as nat));
            assert(pow10((width - 1 - k) as nat) * 10 == 10 * pow10((width - 1 - k) as nat))
                by (nonlinear_arith);
            assert(n as int / pow10((width - k) as nat) == q as int / 10);
            assert(0 <= d < 10);
        }
        let dig: u8 = 48 + (d as u8);
        let ghost prev = out@;
        out.push(dig);
        proof {
            lemma_digits_val_congruent(out@, base as int, prev, base as int, k as int);
            assert(digits_val(out@, base as int, (base + k + 1) as int) == digits_val(
                out@,
                base as int,
                (base + k) as int,
            ) * 10 + (out@[(base + k) as int] - 48));
            assert(q as int == (q as int / 10) * 10 + d);
        }
        k = k + 1;
    }
    proof {
        assert(pow10(0) == 1);
    }
}

/// Render a scalar in the grammar's decimal notation: optional minus,
/// the integer digits, and — when the scalar carries fractional
/// places — a point and exactly that many fractional digits.
/// Re-parsing the result consumes all of it and yields the scalar
/// back: decoding loses nothing that formatting can tell apart.
pub fn format_decimal(f: Fixed) -> (r: Vec<u8>)
    requires
        f.wf(),
        f.exp <= 9,
        -pow10(18) < f.mant < pow10(18),
    ensures
        spec_parse_dec(r@, 0) == Some((f, r@.len() as int)),
{
    proof {
        lemma_pow10_pos(f.exp as nat);
        lemma_pow10_mono(f.exp as nat, 18);
        lemma_pow10_mono(18, 37);
        crate::fixed::lemma_mant_cap_value();
    }
    let neg: bool = f.mant < 0;
    let mag: i128 = if neg {
        -f.mant
    } else {
        f.mant
    };
    let p: i128 = pow10_exec(f.exp);
    let ip: i128 = mag / p;
    let fp: i128 = mag % p;
    proof {
        lemma_fundamental_div_mod(mag as int, pow10(f.exp as nat));
        assert(ip * p <= mag) by (nonlinear_arith)
            requires
                mag == p * ip + fp,
                fp >= 0,
        ;
        assert(ip < pow10(18)) by (nonlinear_arith)
            requires
                ip * p <= mag < pow10(18),
                p >= 1,
                ip >= 0,
        ;
    }
    let mut w: usize = 1;
    proof {
        reveal_with_fuel(pow10, 3);
    }
    let mut pw: i128 = 10;
    while w < 19 && ip >= pw
        invariant
            1 <= w <= 19,
            pw == pow10(w as nat),
        decreases 19 - w,
    {
        proof {
            crate::fixed::lemma_mant_cap_value();
            lemma_pow10_mono((w + 1) as nat, 37);
            lemma_pow10_pos(w as nat);
        }
        w = w + 1;
        pw = pw * 10;
    }
    proof {
        assert(pow10(1) == 10);
        if w < 19 {
        } else {
            lemma_pow10_mono(18, 19);
        }
        assert(ip < pow10(w as nat));
    }
    let mut out: Vec<u8> = Vec::new();
    if neg {
        out.push(45);
    }
    let ghost sign_len = out@.len();
    push_digits(&mut out, ip, w);
    let ghost e1 = out@.len();
    let ghost mid = out@;
    if f.exp > 0 {
        proof {
            assert(fp < pow10(f.exp as nat));
        }
        out.push(46);
        push_digits(&mut out, fp, f.exp as usize);
        proof {
            assert(forall|k: int| 0 <= k < mid.len() ==> out@[k] == mid[k]);
            lemma_digits_val_congruent(out@, sign_len as int, mid, sign_len as int, w as int);
        }
    }
    proof {
        lemma_format_parses(out@, f, neg, ip as int, fp as int, sign_len as int, e1 as int, w as int);
    }
    out
}

/// The assembled byte string parses back to exactly the scalar it was
/// made from.
proof fn lemma_format_parses(
    s: Seq<u8>,
    f: Fixed,
    neg: bool,
    ip: int,
    fp: int,
    sign_len: int,
    e1: int,
    w: int,
)
    requires
        f.wf(),
        f.exp <= 9,
        -pow10(18) < f.mant < pow10(18),
        neg == (f.mant < 0),
        sign_len == if neg { 1int } else { 0int },
        neg ==> s.len() >= 1 && s[0] == 45,
        w >= 1,
        e1 == sign_len + w,
        e1 <= s.len(),
        forall|k: int| sign_len <= k < e1 ==> is_digit(s[k]),
        digits_val(s, sign_len, e1) == ip,
        ip == (if neg { -(f.mant as int) } else { f.mant as int }) / pow10(f.exp as nat),
        fp == (if neg { -(f.mant as int) } else { f.mant as int }) % pow10(f.exp as nat),
        f.exp == 0 ==> s.len() == e1,
        f.exp > 0 ==> {
            &&& s.len() == e1 + 1 + f.exp
            &&& s[e1] == 46
            &&& forall|k: int| e1 + 1 <= k < s.len() ==> is_digit(s[k])
            &&& digits_val(s, e1 + 1, s.len() as int) == fp
        },
    ensures
        spec_parse_dec(s, 0) == Some((f, s.len() as int)),
{
    let mag: int = if neg {
        -(f.mant as int)
    } else {
        f.mant as int
    };
    lemma_pow10_pos(f.exp as nat);
    lemma_fundamental_div_mod(mag, pow10(f.exp as nat));
    assert(mag == pow10(f.exp as nat) * ip + fp);
    // no leading whitespace: position zero holds the sign or a digit
    assert(!is_ws(s[0]));
    assert(spec_skip_ws(s, 0) == 0);
    let pstart = if neg {
        1int
    } else {
        0int
    };
    if neg {
        assert(!is_ws(s[1]));
        assert(spec_skip_ws(s, 1) == 1);
    }
    assert(pstart == sign_len);
    // the integer digit run stops exactly at the point or the end
    lemma_run_stops(s, pstart, e1);
    if f.exp == 0 {
        assert(digit_run_end(s, pstart) == e1);
        assert(mag == ip + fp);
        assert(fp == 0) by {
            assert(mag == pow10(0) * ip + fp);
        }
        assert(digits_val(s, pstart, e1) == mag);
        assert(mag < pow10(18));
        assert(spec_normalize(if neg { -mag } else { mag }, 0) == f) by {
            assert((if neg { -mag } else { mag }) == f.mant as int);
        }
        assert(spec_parse_dec(s, 0) == Some((f, s.len() as int)));
    } else {
        assert(digit_run_end(s, pstart) == e1);
        assert(s[e1] == 46);
        lemma_run_stops(s, e1 + 1, s.len() as int);
        assert(digit_run_end(s, e1 + 1) == s.len());
        assert(digit_run_end(s, e1 + 1) > e1 + 1);
        let fd = s.len() - (e1 + 1);
        assert(fd == f.exp);
        let m = digits_val(s, pstart, e1) * pow10(fd as nat) + digits_val(
            s,
            e1 + 1,
            s.len() as int,
        );
        assert(m == ip * pow10(f.exp as nat) + fp);
        assert(ip * pow10(f.exp as nat) == pow10(f.exp as nat) * ip) by (nonlinear_arith);
        assert(m == mag);
        assert(m < pow10(18));
        assert(spec_normalize(if neg { -m } else { m }, f.exp as nat) == f) by {
            assert((if neg { -m } else { m }) == f.mant as int);
            assert(f.exp > 0 ==> f.mant % 10 != 0);
        }
        assert(spec_parse_dec(s, 0) == Some((f, s.len() as int)));
    }
}

/// A digit run bounded by a non-digit or the input's end stops there.
proof fn lemma_run_stops(s: Seq<u8>, pos: int, end: int)
    requires
        0 <= pos <= end <= s.len(),
        forall|k: int| pos <= k < end ==> is_digit(s[k]),
        end == s.len() || !is_digit(s[end]),
    ensures
        digit_run_end(s, pos) == end,
    decreases end - pos,
{
    if pos < end {
        lemma_run_stops(s, pos + 1, end);
    }
}

} // verus!
