//! Fixed-arity decoders: tuples of decimals, vectors, and the unit
//! quaternion whose fourth component the formats omit.

use vstd::prelude::*;
use crate::fixed::{Fixed, lemma_is_rat_unique, lemma_pow10_pos, mant_cap, pow10};
use crate::lexer::{
    ParseError, lemma_spec_normalize, parse_dec, parse_u32, spec_normalize, spec_parse_dec,
    spec_parse_u32,
};
use crate::quaternion::{
    Quaternion, derived_component, lemma_isqrt_props, lemma_sq_scaled_nonneg, radicand_num,
    spec_isqrt,
};
use crate::vector2::Vector2;
use crate::vector3::Vector3;

verus! {

/// Two consecutive decimals.
pub open spec fn spec_parse_vector2(s: Seq<u8>, pos: int) -> Option<(Vector2, int)> {
    match spec_parse_dec(s, pos) {
        Some((x, p1)) => match spec_parse_dec(s, p1) {
            Some((y, p2)) => Some((Vector2 { x, y }, p2)),
            None => None,
        },
        None => None,
    }
}

/// Parse two decimals into a planar vector.
pub fn parse_vector2(s: &[u8], pos: usize) -> (r: Result<(Vector2, usize), ParseError>)
    requires
        pos <= s@.len(),
    ensures
        match r {
            Ok((v, e)) => spec_parse_vector2(s@, pos as int) == Some((v, e as int)) && pos < e
                <= s@.len(),
            Err(er) => spec_parse_vector2(s@, pos as int) is None,
        },
{
    let (x, p1) = match parse_dec(s, pos) {
        Ok(t) => t,
        Err(er) => {
            return Err(er);
        },
    };
    let (y, p2) = match parse_dec(s, p1) {
        Ok(t) => t,
        Err(er) => {
            return Err(er);
        },
    };
    Ok((Vector2 { x, y }, p2))
}

/// Three consecutive decimals, as a raw triple.
pub open spec fn spec_parse_tuple3_dec(s: Seq<u8>, pos: int) -> Option<
    ((Fixed, Fixed, Fixed), int),
> {
    match spec_parse_dec(s, pos) {
        Some((a, p1)) => match spec_parse_dec(s, p1) {
            Some((b, p2)) => match spec_parse_dec(s, p2) {
                Some((c, p3)) => Some(((a, b, c), p3)),
                None => None,
            },
            None => None,
        },
        None => None,
    }
}

/// Parse three decimals into a raw triple.
pub fn parse_tuple3_dec(s: &[u8], pos: usize) -> (r: Result<((Fixed, Fixed, Fixed), usize), ParseError>)
    requires
        pos <= s@.len(),
    ensures
        match r {
            Ok((t, e)) => {
                &&& spec_parse_tuple3_dec(s@, pos as int) == Some((t, e as int))
                &&& pos < e <= s@.len()
                &&& t.0.wf() && t.1.wf() && t.2.wf()
                &&& t.0.exp <= 9 && t.1.exp <= 9 && t.2.exp <= 9
            },
            Err(er) => spec_parse_tuple3_dec(s@, pos as int) is None,
        },
{
    let (a, p1) = match parse_dec(s, pos) {
        Ok(t) => t,
        Err(er) => {
            return Err(er);
        },
    };
    let (b, p2) = match parse_dec(s, p1) {
        Ok(t) => t,
        Err(er) => {
            return Err(er);
        },
    };
    let (c, p3) = match parse_dec(s, p2) {
        Ok(t) => t,
        Err(er) => {
            return Err(er);
        },
    };
    Ok(((a, b, c), p3))
}

/// Three consecutive unsigned integers.
pub open spec fn spec_parse_tuple3_u32(s: Seq<u8>, pos: int) -> Option<((u32, u32, u32), int)> {
    match spec_parse_u32(s, pos) {
        Some((a, p1)) => match spec_parse_u32(s, p1) {
            Some((b, p2)) => match spec_parse_u32(s, p2) {
                Some((c, p3)) => Some(((a, b, c), p3)),
                None => None,
            },
            None => None,
        },
        None => None,
    }
}

/// Parse three unsigned integers.
pub fn parse_tuple3_u32(s: &[u8], pos: usize) -> (r: Result<((u32, u32, u32), usize), ParseError>)
    requires
        pos <= s@.len(),
    ensures
        match r {
            Ok((t, e)) => spec_parse_tuple3_u32(s@, pos as int) == Some((t, e as int)) && pos < e
                <= s@.len(),
            Err(er) => spec_parse_tuple3_u32(s@, pos as int) is None,
        },
{
    let (a, p1) = match parse_u32(s, pos) {
        Ok(t) => t,
        Err(er) => {
            return Err(er);
        },
    };
    let (b, p2) = match parse_u32(s, p1) {
        Ok(t) => t,
        Err(er) => {
            return Err(er);
        },
    };
    let (c, p3) = match parse_u32(s, p2) {
        Ok(t) => t,
        Err(er) => {
            return Err(er);
        },
    };
    Ok(((a, b, c), p3))
}

/// Three consecutive decimals as a spatial vector.
pub open spec fn spec_parse_vector3(s: Seq<u8>, pos: int) -> Option<(Vector3, int)> {
    match spec_parse_tuple3_dec(s, pos) {
        Some(((a, b, c), p)) => Some((Vector3 { x: a, y: b, z: c }, p)),
        None => None,
    }
}

/// Parse three decimals into a spatial vector.
pub fn parse_vector3(s: &[u8], pos: usize) -> (r: Result<(Vector3, usize), ParseError>)
    requires
        pos <= s@.len(),
    ensures
        match r {
            Ok((v, e)) => spec_parse_vector3(s@, pos as int) == Some((v, e as int)) && pos < e
                <= s@.len(),
            Err(er) => spec_parse_vector3(s@, pos as int) is None,
        },
{
    match parse_tuple3_dec(s, pos) {
        Ok(((a, b, c), p)) => Ok((Vector3 { x: a, y: b, z: c }, p)),
        Err(er) => Err(er),
    }
}

/// Three stored decimals `(a, b, c)` read as (scalar, vec.x, vec.y);
/// the omitted vec.z slot receives the derived component: the
/// nonnegative square root of the clamped radicand
/// `max(0, 1 - a² - b² - c²)`, to nine decimal places, in canonical
/// form.
pub open spec fn spec_parse_quaternion(s: Seq<u8>, pos: int) -> Option<(Quaternion, int)> {
    match spec_parse_tuple3_dec(s, pos) {
        Some(((a, b, c), p)) => Some(
            (
                Quaternion {
                    scal: a,
                    vec: Vector3 {
                        x: b,
                        y: c,
                        z: spec_normalize(spec_isqrt(radicand_num(a, b, c)), 9),
                    },
                },
                p,
            ),
        ),
        None => None,
    }
}

/// Parse a quaternion: decode three, derive the fourth.
pub fn parse_quaternion(s: &[u8], pos: usize) -> (r: Result<(Quaternion, usize), ParseError>)
    requires
        pos <= s@.len(),
    ensures
        match r {
            Ok((q, e)) => spec_parse_quaternion(s@, pos as int) == Some((q, e as int)) && pos < e
                <= s@.len(),
            Err(er) => spec_parse_quaternion(s@, pos as int) is None,
        },
{
    let ((a, b, c), p) = match parse_tuple3_dec(s, pos) {
        Ok(t) => t,
        Err(er) => {
            return Err(er);
        },
    };
    let z = derived_component(a, b, c);
    proof {
        lemma_sq_scaled_nonneg(a);
        lemma_sq_scaled_nonneg(b);
        lemma_sq_scaled_nonneg(c);
        lemma_pow10_pos(18);
        lemma_isqrt_props(radicand_num(a, b, c));
        assert(pow10(18) < mant_cap()) by {
            reveal_with_fuel(crate::fixed::pow10, 38);
            crate::fixed::lemma_mant_cap_value();
        }
        crate::fixed::lemma_pow10_mono(9, 18);
        lemma_spec_normalize(spec_isqrt(radicand_num(a, b, c)), 9);
        lemma_is_rat_unique(
            z,
            spec_normalize(spec_isqrt(radicand_num(a, b, c)), 9),
            spec_isqrt(radicand_num(a, b, c)),
            9,
        );
    }
    Ok((Quaternion { scal: a, vec: Vector3 { x: b, y: c, z } }, p))
}

} // verus!
