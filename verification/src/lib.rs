//! Decoder for the two text formats that carry skeletal character data:
//! a mesh format (joints, geometry, skin weights) and an animation format
//! (joint hierarchy, per-frame bounds, a base pose, raw channel frames).
//!
//! Every numeric literal in either grammar is a finite decimal, so the
//! library represents scalars exactly as canonical fixed-point decimals
//! (`fixed::Fixed`) and all arithmetic on them is exact integer
//! arithmetic; nothing is rounded. Two width limits follow from that
//! model. A literal must fit the scalar: a mantissa of `10^18` or more,
//! or more than nine fractional digits, is a numeric conversion
//! failure rather than a silently rounded value. And the algebra's
//! exact products need headroom in a 128-bit mantissa, so the vector
//! and quaternion operations take coordinates of magnitude at most a
//! million with at most six decimal places — the conventional shape of
//! the formats' literals; a document may carry seven-to-nine-place
//! scalars, which parse exactly but lie outside the algebra's
//! operating range.

pub mod fixed;
pub mod vector2;
pub mod vector3;
pub mod quaternion;
pub mod lexer;
pub mod decode;
pub mod sort;
pub mod tags;
pub mod mesh_parser;
pub mod anim_parser;
pub mod format;
