//! The mesh-format grammar: header, joint list, and mesh blocks whose
//! vertex, triangle and weight lists are re-sorted ascending by their
//! declared index once the block closes.

use vstd::prelude::*;
use crate::fixed::{Fixed, abs_i, pow10};
use crate::decode::{
    parse_quaternion, parse_tuple3_u32, parse_vector2, parse_vector3, spec_parse_quaternion,
    spec_parse_tuple3_u32, spec_parse_vector2, spec_parse_vector3,
};
use crate::lexer::{
    ErrorKind, ParseError, expect_tag, parse_dec, parse_string, parse_u32, parse_i32,
    skip_comment, skip_ws, spec_opt_comment, spec_parse_dec, spec_parse_i32,
    spec_parse_string, spec_parse_u32, spec_skip_ws, spec_tag,
};
use crate::quaternion::Quaternion;
use crate::sort::{insert_by, lemma_sort_by_props, sort_by, sorted_by};
use crate::tags::{
    arr_commandline, arr_joints, arr_lbrace, arr_lparen, arr_md5version, arr_mesh, arr_numjoints,
    arr_nummeshes, arr_numtris, arr_numverts, arr_numweights, arr_rbrace, arr_rparen, arr_shader,
    arr_tri, arr_vert, arr_weight, tag_commandline, tag_joints, tag_lbrace, tag_lparen,
    tag_md5version, tag_mesh, tag_numjoints, tag_nummeshes, tag_numtris, tag_numverts,
    tag_numweights, tag_rbrace, tag_rparen, tag_shader, tag_tri, tag_vert, tag_weight,
};
use crate::vector2::Vector2;
use crate::vector3::Vector3;

verus! {

/// A skeleton joint: name, parent (−1 marks a root, unchecked
/// otherwise), position, orientation.
#[derive(Debug, PartialEq)]
pub struct Joint {
    pub name: String,
    pub parent_index: i32,
    pub position: Vector3,
    pub orientation: Quaternion,
}

/// The mathematical image of a `Joint`: its name as text.
pub ghost struct JointSpec {
    pub name: Seq<char>,
    pub parent_index: i32,
    pub position: Vector3,
    pub orientation: Quaternion,
}

impl View for Joint {
    type V = JointSpec;

    open spec fn view(&self) -> JointSpec {
        JointSpec {
            name: self.name@,
            parent_index: self.parent_index,
            position: self.position,
            orientation: self.orientation,
        }
    }
}

/// One vertex: declared index, texture coordinates, first weight slot
/// and how many weights it takes.
#[derive(Clone, Copy, Debug, PartialEq, Eq)]
pub struct Vertex {
    pub index: u32,
    pub tex_coords: Vector2,
    pub start_weight: u32,
    pub weight_count: u32,
}

/// One triangle: declared index and three vertex indices, winding
/// unchecked.
#[derive(Clone, Copy, Debug, PartialEq, Eq)]
pub struct Triangle {
    pub index: u32,
    pub vertex_indices: (u32, u32, u32),
}

/// One skinning weight: declared index, joint, bias in `[-1, 1]`, and
/// position offset.
#[derive(Clone, Copy, Debug, PartialEq, Eq)]
pub struct Weight {
    pub index: u32,
    pub joint_index: u32,
    pub bias: Fixed,
    pub position: Vector3,
}

/// One mesh block.
#[derive(Debug, PartialEq)]
pub struct Mesh {
    pub shader: String,
    pub vertices: Vec<Vertex>,
    pub triangles: Vec<Triangle>,
    pub weights: Vec<Weight>,
}

/// The mathematical image of a `Mesh`.
pub ghost struct MeshSpec {
    pub shader: Seq<char>,
    pub vertices: Seq<Vertex>,
    pub triangles: Seq<Triangle>,
    pub weights: Seq<Weight>,
}

impl View for Mesh {
    type V = MeshSpec;

    open spec fn view(&self) -> MeshSpec {
        MeshSpec {
            shader: self.shader@,
            vertices: self.vertices@,
            triangles: self.triangles@,
            weights: self.weights@,
        }
    }
}

/// A decoded mesh document.
#[derive(Debug, PartialEq)]
pub struct Md5Mesh {
    pub version: u32,
    pub command_line: String,
    pub joints: Vec<Joint>,
    pub meshes: Vec<Mesh>,
}

/// The mathematical image of a `Md5Mesh`.
pub ghost struct Md5MeshSpec {
    pub version: u32,
    pub command_line: Seq<char>,
    pub joints: Seq<JointSpec>,
    pub meshes: Seq<MeshSpec>,
}

impl View for Md5Mesh {
    type V = Md5MeshSpec;

    open spec fn view(&self) -> Md5MeshSpec {
        Md5MeshSpec {
            version: self.version,
            command_line: self.command_line@,
            joints: joints_view(self.joints@),
            meshes: meshes_view(self.meshes@),
        }
    }
}

/// Elementwise view of a joint sequence.
pub open spec fn joints_view(v: Seq<Joint>) -> Seq<JointSpec> {
    Seq::new(v.len(), |i: int| v[i]@)
}

/// Elementwise view of a mesh sequence.
pub open spec fn meshes_view(v: Seq<Mesh>) -> Seq<MeshSpec> {
    Seq::new(v.len(), |i: int| v[i]@)
}

/// The declared index of a vertex.
pub open spec fn vkey() -> spec_fn(Vertex) -> u32 {
    |v: Vertex| v.index
}

/// The declared index of a triangle.
pub open spec fn tkey() -> spec_fn(Triangle) -> u32 {
    |t: Triangle| t.index
}

/// The declared index of a weight.
pub open spec fn wkey() -> spec_fn(Weight) -> u32 {
    |w: Weight| w.index
}

/// The header: `MD5Version`, an unsigned version, `commandline`, a
/// quoted provenance string.
pub open spec fn spec_parse_header(s: Seq<u8>, pos: int) -> Option<((u32, Seq<char>), int)> {
    match spec_tag(s, pos, tag_md5version()) {
        None => None,
        Some(p1) => match spec_parse_u32(s, p1) {
            None => None,
            Some((ver, p2)) => match spec_tag(s, p2, tag_commandline()) {
                None => None,
                Some(p3) => match spec_parse_string(s, p3) {
                    None => None,
                    Some((cl, p4)) => Some(((ver, cl), p4)),
                },
            },
        },
    }
}

/// Parse the mesh header.
pub fn parse_header(s: &[u8], pos: usize) -> (r: Result<((u32, String), usize), ParseError>)
    requires
        pos <= s@.len(),
    ensures
        match r {
            Ok(((ver, cl), e)) => spec_parse_header(s@, pos as int) == Some(
                ((ver, cl@), e as int),
            ) && pos < e <= s@.len(),
            Err(er) => spec_parse_header(s@, pos as int) is None,
        },
{
    let t1 = arr_md5version();
    let p1 = match expect_tag(s, pos, t1.as_slice()) {
        Ok(p) => p,
        Err(er) => {
            return Err(er);
        },
    };
    let (ver, p2) = match parse_u32(s, p1) {
        Ok(t) => t,
        Err(er) => {
            return Err(er);
        },
    };
    let t2 = arr_commandline();
    let p3 = match expect_tag(s, p2, t2.as_slice()) {
        Ok(p) => p,
        Err(er) => {
            return Err(er);
        },
    };
    let (cl, p4) = match parse_string(s, p3) {
        Ok(t) => t,
        Err(er) => {
            return Err(er);
        },
    };
    Ok(((ver, cl), p4))
}

/// One joint declaration: name, parent index, parenthesized position,
/// parenthesized orientation, optional trailing comment.
pub open spec fn spec_parse_joint(s: Seq<u8>, pos: int) -> Option<(JointSpec, int)> {
    match spec_parse_string(s, pos) {
        None => None,
        Some((name, p1)) => match spec_parse_i32(s, p1) {
            None => None,
            Some((pi, p2)) => match spec_tag(s, p2, tag_lparen()) {
                None => None,
                Some(p3) => match spec_parse_vector3(s, p3) {
                    None => None,
                    Some((posv, p4)) => match spec_tag(s, p4, tag_rparen()) {
                        None => None,
                        Some(p5) => match spec_tag(s, p5, tag_lparen()) {
                            None => None,
                            Some(p6) => match spec_parse_quaternion(s, p6) {
                                None => None,
                                Some((q, p7)) => match spec_tag(s, p7, tag_rparen()) {
                                    None => None,
                                    Some(p8) => Some(
                                        (
                                            JointSpec {
                                                name,
                                                parent_index: pi,
                                                position: posv,
                                                orientation: q,
                                            },
                                            spec_opt_comment(s, p8),
                                        ),
                                    ),
                                },
                            },
                        },
                    },
                },
            },
        },
    }
}

/// Parse one joint declaration.
pub fn parse_joint(s: &[u8], pos: usize) -> (r: Result<(Joint, usize), ParseError>)
    requires
        pos <= s@.len(),
    ensures
        match r {
            Ok((j, e)) => spec_parse_joint(s@, pos as int) == Some((j@, e as int)) && pos < e
                <= s@.len(),
            Err(er) => spec_parse_joint(s@, pos as int) is None,
        },
{
    let (name, p1) = match parse_string(s, pos) {
        Ok(t) => t,
        Err(er) => {
            return Err(er);
        },
    };
    let (pi, p2) = match parse_i32(s, p1) {
        Ok(t) => t,
        Err(er) => {
            return Err(er);
        },
    };
    let tl = arr_lparen();
    let tr = arr_rparen();
    let p3 = match expect_tag(s, p2, tl.as_slice()) {
        Ok(p) => p,
        Err(er) => {
            return Err(er);
        },
    };
    let (posv, p4) = match parse_vector3(s, p3) {
        Ok(t) => t,
        Err(er) => {
            return Err(er);
        },
    };
    let p5 = match expect_tag(s, p4, tr.as_slice()) {
        Ok(p) => p,
        Err(er) => {
            return Err(er);
        },
    };
    let p6 = match expect_tag(s, p5, tl.as_slice()) {
        Ok(p) => p,
        Err(er) => {
            return Err(er);
        },
    };
    let (q, p7) = match parse_quaternion(s, p6) {
        Ok(t) => t,
        Err(er) => {
            return Err(er);
        },
    };
    let p8 = match expect_tag(s, p7, tr.as_slice()) {
        Ok(p) => p,
        Err(er) => {
            return Err(er);
        },
    };
    let p9 = skip_comment(s, p8);
    Ok((Joint { name, parent_index: pi, position: posv, orientation: q }, p9))
}

/// Zero or more joint declarations, in file order.
pub open spec fn spec_parse_joint_list(s: Seq<u8>, pos: int) -> (Seq<JointSpec>, int)
    decreases s.len() - pos,
{
    match spec_parse_joint(s, pos) {
        Some((j, p)) => if pos < p <= s.len() {
            let (rest, e) = spec_parse_joint_list(s, p);
            (seq![j] + rest, e)
        } else {
            (Seq::empty(), pos)
        },
        None => (Seq::empty(), pos),
    }
}

/// Parse joint declarations until one fails to start.
fn parse_joint_list(s: &[u8], pos: usize) -> (r: (Vec<Joint>, usize))
    requires
        pos <= s@.len(),
    ensures
        spec_parse_joint_list(s@, pos as int).0 == joints_view(r.0@),
        spec_parse_joint_list(s@, pos as int).1 == r.1 as int,
        pos <= r.1 <= s@.len(),
{
    let mut out: Vec<Joint> = Vec::new();
    let mut cur: usize = pos;
    let mut done: bool = false;
    while !done
        invariant
            pos <= cur <= s@.len(),
            spec_parse_joint_list(s@, pos as int).0 == joints_view(out@) + spec_parse_joint_list(
                s@,
                cur as int,
            ).0,
            spec_parse_joint_list(s@, pos as int).1 == spec_parse_joint_list(s@, cur as int).1,
            done ==> spec_parse_joint(s@, cur as int) is None,
        decreases s@.len() - cur, (if done { 0int } else { 1int }),
    {
        match parse_joint(s, cur) {
            Ok((j, p2)) => {
                proof {
                    assert(joints_view(out@.push(j)) =~= joints_view(out@) + seq![j@]);
                    assert((joints_view(out@) + seq![j@]) + spec_parse_joint_list(s@, p2 as int).0
                        =~= joints_view(out@) + (seq![j@] + spec_parse_joint_list(
                        s@,
                        p2 as int,
                    ).0));
                }
                out.push(j);
                cur = p2;
            },
            Err(_) => {
                done = true;
            },
        }
    }
    proof {
        assert(joints_view(out@) + Seq::<JointSpec>::empty() =~= joints_view(out@));
    }
    (out, cur)
}

/// The `joints { … }` block: its declarations, in file order.
pub open spec fn spec_parse_joints(s: Seq<u8>, pos: int) -> Option<(Seq<JointSpec>, int)> {
    match spec_tag(s, pos, tag_joints()) {
        None => None,
        Some(p1) => match spec_tag(s, p1, tag_lbrace()) {
            None => None,
            Some(p2) => {
                let (items, e) = spec_parse_joint_list(s, p2);
                match spec_tag(s, e, tag_rbrace()) {
                    None => None,
                    Some(p3) => Some((items, p3)),
                }
            },
        },
    }
}

/// Parse the `joints { … }` block.
pub fn parse_joints(s: &[u8], pos: usize) -> (r: Result<(Vec<Joint>, usize), ParseError>)
    requires
        pos <= s@.len(),
    ensures
        match r {
            Ok((js, e)) => spec_parse_joints(s@, pos as int) == Some(
                (joints_view(js@), e as int),
            ) && pos < e <= s@.len(),
            Err(er) => spec_parse_joints(s@, pos as int) is None,
        },
{
    let tj = arr_joints();
    let p1 = match expect_tag(s, pos, tj.as_slice()) {
        Ok(p) => p,
        Err(er) => {
            return Err(er);
        },
    };
    let tb = arr_lbrace();
    let p2 = match expect_tag(s, p1, tb.as_slice()) {
        Ok(p) => p,
        Err(er) => {
            return Err(er);
        },
    };
    let (items, e) = parse_joint_list(s, p2);
    let tc = arr_rbrace();
    let p3 = match expect_tag(s, e, tc.as_slice()) {
        Ok(p) => p,
        Err(er) => {
            return Err(er);
        },
    };
    Ok((items, p3))
}


/// One vertex declaration: `vert`, index, parenthesized texture
/// coordinates, starting weight slot, weight count.
pub open spec fn spec_parse_vertex(s: Seq<u8>, pos: int) -> Option<(Vertex, int)> {
    match spec_tag(s, pos, tag_vert()) {
        None => None,
        Some(p1) => match spec_parse_u32(s, p1) {
            None => None,
            Some((idx, p2)) => match spec_tag(s, p2, tag_lparen()) {
                None => None,
                Some(p3) => match spec_parse_vector2(s, p3) {
                    None => None,
                    Some((tc, p4)) => match spec_tag(s, p4, tag_rparen()) {
                        None => None,
                        Some(p5) => match spec_parse_u32(s, p5) {
                            None => None,
                            Some((sw, p6)) => match spec_parse_u32(s, p6) {
                                None => None,
                                Some((wc, p7)) => Some(
                                    (
                                        Vertex {
                                            index: idx,
                                            tex_coords: tc,
                                            start_weight: sw,
                                            weight_count: wc,
                                        },
                                        p7,
                                    ),
                                ),
                            },
                        },
                    },
                },
            },
        },
    }
}

/// Parse one vertex declaration.
pub fn parse_vertex(s: &[u8], pos: usize) -> (r: Result<(Vertex, usize), ParseError>)
    requires
        pos <= s@.len(),
    ensures
        match r {
            Ok((v, e)) => spec_parse_vertex(s@, pos as int) == Some((v, e as int)) && pos < e
                <= s@.len(),
            Err(er) => spec_parse_vertex(s@, pos as int) is None,
        },
{
    let tv = arr_vert();
    let p1 = match expect_tag(s, pos, tv.as_slice()) {
        Ok(p) => p,
        Err(er) => {
            return Err(er);
        },
    };
    let (idx, p2) = match parse_u32(s, p1) {
        Ok(t) => t,
        Err(er) => {
            return Err(er);
        },
    };
    let tl = arr_lparen();
    let p3 = match expect_tag(s, p2, tl.as_slice()) {
        Ok(p) => p,
        Err(er) => {
            return Err(er);
        },
    };
    let (tc, p4) = match parse_vector2(s, p3) {
        Ok(t) => t,
        Err(er) => {
            return Err(er);
        },
    };
    let tr = arr_rparen();
    let p5 = match expect_tag(s, p4, tr.as_slice()) {
        Ok(p) => p,
        Err(er) => {
            return Err(er);
        },
    };
    let (sw, p6) = match parse_u32(s, p5) {
        Ok(t) => t,
        Err(er) => {
            return Err(er);
        },
    };
    let (wc, p7) = match parse_u32(s, p6) {
        Ok(t) => t,
        Err(er) => {
            return Err(er);
        },
    };
    Ok((Vertex { index: idx, tex_coords: tc, start_weight: sw, weight_count: wc }, p7))
}

/// One triangle declaration: `tri`, index, three vertex indices.
pub open spec fn spec_parse_triangle(s: Seq<u8>, pos: int) -> Option<(Triangle, int)> {
    match spec_tag(s, pos, tag_tri()) {
        None => None,
        Some(p1) => match spec_parse_u32(s, p1) {
            None => None,
            Some((idx, p2)) => match spec_parse_tuple3_u32(s, p2) {
                None => None,
                Some((vi, p3)) => Some((Triangle { index: idx, vertex_indices: vi }, p3)),
            },
        },
    }
}

/// Parse one triangle declaration.
pub fn parse_triangle(s: &[u8], pos: usize) -> (r: Result<(Triangle, usize), ParseError>)
    requires
        pos <= s@.len(),
    ensures
        match r {
            Ok((t, e)) => spec_parse_triangle(s@, pos as int) == Some((t, e as int)) && pos < e
                <= s@.len(),
            Err(er) => spec_parse_triangle(s@, pos as int) is None,
        },
{
    let tt = arr_tri();
    let p1 = match expect_tag(s, pos, tt.as_slice()) {
        Ok(p) => p,
        Err(er) => {
            return Err(er);
        },
    };
    let (idx, p2) = match parse_u32(s, p1) {
        Ok(t) => t,
        Err(er) => {
            return Err(er);
        },
    };
    let (vi, p3) = match parse_tuple3_u32(s, p2) {
        Ok(t) => t,
        Err(er) => {
            return Err(er);
        },
    };
    Ok((Triangle { index: idx, vertex_indices: vi }, p3))
}

/// A bias literal: a decimal whose magnitude is at most one. A decimal
/// outside that closed interval is a semantic validation failure,
/// distinct from a structural one.
pub open spec fn spec_parse_bias(s: Seq<u8>, pos: int) -> Option<(Fixed, int)> {
    match spec_parse_dec(s, pos) {
        None => None,
        Some((v, p)) => if abs_i(v.mant as int) <= pow10(v.exp as nat) {
            Some((v, p))
        } else {
            None
        },
    }
}

/// Parse a bias: accepted exactly when the decimal parses and its
/// value lies in `[-1, 1]`; an out-of-range value is reported as a
/// semantic failure.
pub fn parse_bias(s: &[u8], pos: usize) -> (r: Result<(Fixed, usize), ParseError>)
    requires
        pos <= s@.len(),
    ensures
        match r {
            Ok((v, e)) => {
                &&& spec_parse_bias(s@, pos as int) == Some((v, e as int))
                &&& pos < e <= s@.len()
                &&& v.wf()
                &&& abs_i(v.mant as int) <= pow10(v.exp as nat)
            },
            Err(er) => {
                &&& spec_parse_bias(s@, pos as int) is None
                &&& (spec_parse_dec(s@, pos as int) is Some ==> er.kind == ErrorKind::Semantic)
                &&& (spec_parse_dec(s@, pos as int) is None ==> er.kind != ErrorKind::Semantic)
            },
        },
{
    let (v, p) = match parse_dec(s, pos) {
        Ok(t) => t,
        Err(er) => {
            return Err(er);
        },
    };
    if v.abs_le_one() {
        Ok((v, p))
    } else {
        Err(ParseError { kind: ErrorKind::Semantic, pos })
    }
}

/// One weight declaration: `weight`, index, joint index, bias,
/// parenthesized position offset, optional trailing comment.
pub open spec fn spec_parse_weight(s: Seq<u8>, pos: int) -> Option<(Weight, int)> {
    match spec_tag(s, pos, tag_weight()) {
        None => None,
        Some(p1) => match spec_parse_u32(s, p1) {
            None => None,
            Some((idx, p2)) => match spec_parse_u32(s, p2) {
                None => None,
                Some((ji, p3)) => match spec_parse_bias(s, p3) {
                    None => None,
                    Some((b, p4)) => match spec_tag(s, p4, tag_lparen()) {
                        None => None,
                        Some(p5) => match spec_parse_vector3(s, p5) {
                            None => None,
                            Some((posv, p6)) => match spec_tag(s, p6, tag_rparen()) {
                                None => None,
                                Some(p7) => Some(
                                    (
                                        Weight {
                                            index: idx,
                                            joint_index: ji,
                                            bias: b,
                                            position: posv,
                                        },
                                        spec_opt_comment(s, p7),
                                    ),
                                ),
                            },
                        },
                    },
                },
            },
        },
    }
}

/// Parse one weight declaration.
pub fn parse_weight(s: &[u8], pos: usize) -> (r: Result<(Weight, usize), ParseError>)
    requires
        pos <= s@.len(),
    ensures
        match r {
            Ok((w, e)) => {
                &&& spec_parse_weight(s@, pos as int) == Some((w, e as int))
                &&& pos < e <= s@.len()
                &&& abs_i(w.bias.mant as int) <= pow10(w.bias.exp as nat)
            },
            Err(er) => spec_parse_weight(s@, pos as int) is None,
        },
{
    let tw = arr_weight();
    let p1 = match expect_tag(s, pos, tw.as_slice()) {
        Ok(p) => p,
        Err(er) => {
            return Err(er);
        },
    };
    let (idx, p2) = match parse_u32(s, p1) {
        Ok(t) => t,
        Err(er) => {
            return Err(er);
        },
    };
    let (ji, p3) = match parse_u32(s, p2) {
        Ok(t) => t,
        Err(er) => {
            return Err(er);
        },
    };
    let (b, p4) = match parse_bias(s, p3) {
        Ok(t) => t,
        Err(er) => {
            return Err(er);
        },
    };
    let tl = arr_lparen();
    let p5 = match expect_tag(s, p4, tl.as_slice()) {
        Ok(p) => p,
        Err(er) => {
            return Err(er);
        },
    };
    let (posv, p6) = match parse_vector3(s, p5) {
        Ok(t) => t,
        Err(er) => {
            return Err(er);
        },
    };
    let tr = arr_rparen();
    let p7 = match expect_tag(s, p6, tr.as_slice()) {
        Ok(p) => p,
        Err(er) => {
            return Err(er);
        },
    };
    let p8 = skip_comment(s, p7);
    Ok((Weight { index: idx, joint_index: ji, bias: b, position: posv }, p8))
}


/// Insert one vertex into an index-sorted list, keeping it
/// sorted and stable.
fn insert_sorted_vertex(t: &mut Vec<Vertex>, v: Vertex)
    ensures
        final(t)@ == insert_by(old(t)@, v, vkey()),
{
    let mut k: usize = t.len();
    proof {
        assert(t@.take(k as int) =~= t@);
        assert(t@.skip(k as int) =~= Seq::<Vertex>::empty());
        assert(insert_by(t@.take(k as int), v, vkey()) + t@.skip(k as int) =~= insert_by(
            t@,
            v,
            vkey(),
        ));
    }
    while k > 0 && t[k - 1].index > v.index
        invariant
            k <= t@.len(),
            insert_by(t@, v, vkey()) == insert_by(t@.take(k as int), v, vkey()) + t@.skip(
                k as int,
            ),
        decreases k,
    {
        proof {
            assert(t@.take(k as int).last() == t@[k - 1]);
            assert(t@.take(k as int).drop_last() =~= t@.take(k - 1));
            assert(t@.skip(k - 1) =~= seq![t@[k - 1]] + t@.skip(k as int));
            assert((insert_by(t@.take(k - 1), v, vkey()) + seq![t@[k - 1]]) + t@.skip(k as int)
                =~= insert_by(t@.take(k - 1), v, vkey()) + (seq![t@[k - 1]] + t@.skip(
                k as int,
            )));
        }
        k = k - 1;
    }
    proof {
        if k > 0 {
            assert(t@.take(k as int).last() == t@[k - 1]);
        }
        assert(insert_by(t@.take(k as int), v, vkey()) =~= t@.take(k as int) + seq![v]);
        assert(t@.insert(k as int, v) =~= (t@.take(k as int) + seq![v]) + t@.skip(k as int));
    }
    t.insert(k, v);
}

/// Sort a vertex list ascending by declared index; stable, so
/// equal indices keep their file order.
fn sort_vertexs(v: &Vec<Vertex>) -> (r: Vec<Vertex>)
    ensures
        r@ == sort_by(v@, vkey()),
{
    let mut out: Vec<Vertex> = Vec::new();
    let mut i: usize = 0;
    while i < v.len()
        invariant
            i <= v@.len(),
            out@ == sort_by(v@.take(i as int), vkey()),
        decreases v@.len() - i,
    {
        proof {
            assert(v@.take(i + 1).drop_last() =~= v@.take(i as int));
            assert(v@.take(i + 1).last() == v@[i as int]);
        }
        insert_sorted_vertex(&mut out, v[i]);
        i = i + 1;
    }
    proof {
        assert(v@.take(v@.len() as int) =~= v@);
    }
    out
}


/// Insert one triangle into an index-sorted list, keeping it
/// sorted and stable.
fn insert_sorted_triangle(t: &mut Vec<Triangle>, v: Triangle)
    ensures
        final(t)@ == insert_by(old(t)@, v, tkey()),
{
    let mut k: usize = t.len();
    proof {
        assert(t@.take(k as int) =~= t@);
        assert(t@.skip(k as int) =~= Seq::<Triangle>::empty());
        assert(insert_by(t@.take(k as int), v, tkey()) + t@.skip(k as int) =~= insert_by(
            t@,
            v,
            tkey(),
        ));
    }
    while k > 0 && t[k - 1].index > v.index
        invariant
            k <= t@.len(),
            insert_by(t@, v, tkey()) == insert_by(t@.take(k as int), v, tkey()) + t@.skip(
                k as int,
            ),
        decreases k,
    {
        proof {
            assert(t@.take(k as int).last() == t@[k - 1]);
            assert(t@.take(k as int).drop_last() =~= t@.take(k - 1));
            assert(t@.skip(k - 1) =~= seq![t@[k - 1]] + t@.skip(k as int));
            assert((insert_by(t@.take(k - 1), v, tkey()) + seq![t@[k - 1]]) + t@.skip(k as int)
                =~= insert_by(t@.take(k - 1), v, tkey()) + (seq![t@[k - 1]] + t@.skip(
                k as int,
            )));
        }
        k = k - 1;
    }
    proof {
        if k > 0 {
            assert(t@.take(k as int).last() == t@[k - 1]);
        }
        assert(insert_by(t@.take(k as int), v, tkey()) =~= t@.take(k as int) + seq![v]);
        assert(t@.insert(k as int, v) =~= (t@.take(k as int) + seq![v]) + t@.skip(k as int));
    }
    t.insert(k, v);
}

/// Sort a triangle list ascending by declared index; stable, so
/// equal indices keep their file order.
fn sort_triangles(v: &Vec<Triangle>) -> (r: Vec<Triangle>)
    ensures
        r@ == sort_by(v@, tkey()),
{
    let mut out: Vec<Triangle> = Vec::new();
    let mut i: usize = 0;
    while i < v.len()
        invariant
            i <= v@.len(),
            out@ == sort_by(v@.take(i as int), tkey()),
        decreases v@.len() - i,
    {
        proof {
            assert(v@.take(i + 1).drop_last() =~= v@.take(i as int));
            assert(v@.take(i + 1).last() == v@[i as int]);
        }
        insert_sorted_triangle(&mut out, v[i]);
        i = i + 1;
    }
    proof {
        assert(v@.take(v@.len() as int) =~= v@);
    }
    out
}


/// Insert one weight into an index-sorted list, keeping it
/// sorted and stable.
fn insert_sorted_weight(t: &mut Vec<Weight>, v: Weight)
    ensures
        final(t)@ == insert_by(old(t)@, v, wkey()),
{
    let mut k: usize = t.len();
    proof {
        assert(t@.take(k as int) =~= t@);
        assert(t@.skip(k as int) =~= Seq::<Weight>::empty());
        assert(insert_by(t@.take(k as int), v, wkey()) + t@.skip(k as int) =~= insert_by(
            t@,
            v,
            wkey(),
        ));
    }
    while k > 0 && t[k - 1].index > v.index
        invariant
            k <= t@.len(),
            insert_by(t@, v, wkey()) == insert_by(t@.take(k as int), v, wkey()) + t@.skip(
                k as int,
            ),
        decreases k,
    {
        proof {
            assert(t@.take(k as int).last() == t@[k - 1]);
            assert(t@.take(k as int).drop_last() =~= t@.take(k - 1));
            assert(t@.skip(k - 1) =~= seq![t@[k - 1]] + t@.skip(k as int));
            assert((insert_by(t@.take(k - 1), v, wkey()) + seq![t@[k - 1]]) + t@.skip(k as int)
                =~= insert_by(t@.take(k - 1), v, wkey()) + (seq![t@[k - 1]] + t@.skip(
                k as int,
            )));
        }
        k = k - 1;
    }
    proof {
        if k > 0 {
            assert(t@.take(k as int).last() == t@[k - 1]);
        }
        assert(insert_by(t@.take(k as int), v, wkey()) =~= t@.take(k as int) + seq![v]);
        assert(t@.insert(k as int, v) =~= (t@.take(k as int) + seq![v]) + t@.skip(k as int));
    }
    t.insert(k, v);
}

/// Sort a weight list ascending by declared index; stable, so
/// equal indices keep their file order.
fn sort_weights(v: &Vec<Weight>) -> (r: Vec<Weight>)
    ensures
        r@ == sort_by(v@, wkey()),
{
    let mut out: Vec<Weight> = Vec::new();
    let mut i: usize = 0;
    while i < v.len()
        invariant
            i <= v@.len(),
            out@ == sort_by(v@.take(i as int), wkey()),
        decreases v@.len() - i,
    {
        proof {
            assert(v@.take(i + 1).drop_last() =~= v@.take(i as int));
            assert(v@.take(i + 1).last() == v@[i as int]);
        }
        insert_sorted_weight(&mut out, v[i]);
        i = i + 1;
    }
    proof {
        assert(v@.take(v@.len() as int) =~= v@);
    }
    out
}


/// Zero or more vertex declarations, in file order.
pub open spec fn spec_parse_vertex_list(s: Seq<u8>, pos: int) -> (Seq<Vertex>, int)
    decreases s.len() - pos,
{
    match spec_parse_vertex(s, pos) {
        Some((v, p)) => if pos < p <= s.len() {
            let (rest, e) = spec_parse_vertex_list(s, p);
            (seq![v] + rest, e)
        } else {
            (Seq::empty(), pos)
        },
        None => (Seq::empty(), pos),
    }
}

/// Parse vertex declarations until one fails to start.
fn parse_vertex_list(s: &[u8], pos: usize) -> (r: (Vec<Vertex>, usize))
    requires
        pos <= s@.len(),
    ensures
        spec_parse_vertex_list(s@, pos as int).0 == r.0@,
        spec_parse_vertex_list(s@, pos as int).1 == r.1 as int,
        pos <= r.1 <= s@.len(),
{
    let mut out: Vec<Vertex> = Vec::new();
    let mut cur: usize = pos;
    let mut done: bool = false;
    while !done
        invariant
            pos <= cur <= s@.len(),
            spec_parse_vertex_list(s@, pos as int).0 == out@ + spec_parse_vertex_list(
                s@,
                cur as int,
            ).0,
            spec_parse_vertex_list(s@, pos as int).1 == spec_parse_vertex_list(
                s@,
                cur as int,
            ).1,
            done ==> spec_parse_vertex(s@, cur as int) is None,
        decreases s@.len() - cur, (if done { 0int } else { 1int }),
    {
        match parse_vertex(s, cur) {
            Ok((v, p2)) => {
                proof {
                    assert((out@ + seq![v]) + spec_parse_vertex_list(s@, p2 as int).0 =~= out@
                        + (seq![v] + spec_parse_vertex_list(s@, p2 as int).0));
                    assert(out@.push(v) =~= out@ + seq![v]);
                }
                out.push(v);
                cur = p2;
            },
            Err(_) => {
                done = true;
            },
        }
    }
    proof {
        assert(out@ + Seq::<Vertex>::empty() =~= out@);
    }
    (out, cur)
}

/// The `numverts` sub-block: a declared count (consumed, not
/// enforced), the declarations, and the list re-sorted ascending by
/// declared index.
pub open spec fn spec_parse_vertices(s: Seq<u8>, pos: int) -> Option<(Seq<Vertex>, int)> {
    match spec_tag(s, pos, tag_numverts()) {
        None => None,
        Some(p1) => match spec_parse_u32(s, p1) {
            None => None,
            Some((cnt, p2)) => {
                let (items, e) = spec_parse_vertex_list(s, p2);
                Some((sort_by(items, vkey()), e))
            },
        },
    }
}

/// Parse the `numverts` sub-block; the result is sorted ascending by
/// declared index, a stable permutation of the declarations.
pub fn parse_vertices(s: &[u8], pos: usize) -> (r: Result<(Vec<Vertex>, usize), ParseError>)
    requires
        pos <= s@.len(),
    ensures
        match r {
            Ok((vs, e)) => {
                &&& spec_parse_vertices(s@, pos as int) == Some((vs@, e as int))
                &&& pos < e <= s@.len()
                &&& sorted_by(vs@, vkey())
            },
            Err(er) => spec_parse_vertices(s@, pos as int) is None,
        },
{
    let tt = arr_numverts();
    let p1 = match expect_tag(s, pos, tt.as_slice()) {
        Ok(p) => p,
        Err(er) => {
            return Err(er);
        },
    };
    let (cnt, p2) = match parse_u32(s, p1) {
        Ok(t) => t,
        Err(er) => {
            return Err(er);
        },
    };
    let (items, e) = parse_vertex_list(s, p2);
    let sorted = sort_vertexs(&items);
    proof {
        lemma_sort_by_props(items@, vkey());
    }
    Ok((sorted, e))
}


/// Zero or more triangle declarations, in file order.
pub open spec fn spec_parse_triangle_list(s: Seq<u8>, pos: int) -> (Seq<Triangle>, int)
    decreases s.len() - pos,
{
    match spec_parse_triangle(s, pos) {
        Some((v, p)) => if pos < p <= s.len() {
            let (rest, e) = spec_parse_triangle_list(s, p);
            (seq![v] + rest, e)
        } else {
            (Seq::empty(), pos)
        },
        None => (Seq::empty(), pos),
    }
}

/// Parse triangle declarations until one fails to start.
fn parse_triangle_list(s: &[u8], pos: usize) -> (r: (Vec<Triangle>, usize))
    requires
        pos <= s@.len(),
    ensures
        spec_parse_triangle_list(s@, pos as int).0 == r.0@,
        spec_parse_triangle_list(s@, pos as int).1 == r.1 as int,
        pos <= r.1 <= s@.len(),
{
    let mut out: Vec<Triangle> = Vec::new();
    let mut cur: usize = pos;
    let mut done: bool = false;
    while !done
        invariant
            pos <= cur <= s@.len(),
            spec_parse_triangle_list(s@, pos as int).0 == out@ + spec_parse_triangle_list(
                s@,
                cur as int,
            ).0,
            spec_parse_triangle_list(s@, pos as int).1 == spec_parse_triangle_list(
                s@,
                cur as int,
            ).1,
            done ==> spec_parse_triangle(s@, cur as int) is None,
        decreases s@.len() - cur, (if done { 0int } else { 1int }),
    {
        match parse_triangle(s, cur) {
            Ok((v, p2)) => {
                proof {
                    assert((out@ + seq![v]) + spec_parse_triangle_list(s@, p2 as int).0 =~= out@
                        + (seq![v] + spec_parse_triangle_list(s@, p2 as int).0));
                    assert(out@.push(v) =~= out@ + seq![v]);
                }
                out.push(v);
                cur = p2;
            },
            Err(_) => {
                done = true;
            },
        }
    }
    proof {
        assert(out@ + Seq::<Triangle>::empty() =~= out@);
    }
    (out, cur)
}

/// The `numtris` sub-block: a declared count (consumed, not
/// enforced), the declarations, and the list re-sorted ascending by
/// declared index.
pub open spec fn spec_parse_triangles(s: Seq<u8>, pos: int) -> Option<(Seq<Triangle>, int)> {
    match spec_tag(s, pos, tag_numtris()) {
        None => None,
        Some(p1) => match spec_parse_u32(s, p1) {
            None => None,
            Some((cnt, p2)) => {
                let (items, e) = spec_parse_triangle_list(s, p2);
                Some((sort_by(items, tkey()), e))
            },
        },
    }
}

/// Parse the `numtris` sub-block; the result is sorted ascending by
/// declared index, a stable permutation of the declarations.
pub fn parse_triangles(s: &[u8], pos: usize) -> (r: Result<(Vec<Triangle>, usize), ParseError>)
    requires
        pos <= s@.len(),
    ensures
        match r {
            Ok((vs, e)) => {
                &&& spec_parse_triangles(s@, pos as int) == Some((vs@, e as int))
                &&& pos < e <= s@.len()
                &&& sorted_by(vs@, tkey())
            },
            Err(er) => spec_parse_triangles(s@, pos as int) is None,
        },
{
    let tt = arr_numtris();
    let p1 = match expect_tag(s, pos, tt.as_slice()) {
        Ok(p) => p,
        Err(er) => {
            return Err(er);
        },
    };
    let (cnt, p2) = match parse_u32(s, p1) {
        Ok(t) => t,
        Err(er) => {
            return Err(er);
        },
    };
    let (items, e) = parse_triangle_list(s, p2);
    let sorted = sort_triangles(&items);
    proof {
        lemma_sort_by_props(items@, tkey());
    }
    Ok((sorted, e))
}


/// Zero or more weight declarations, in file order.
pub open spec fn spec_parse_weight_list(s: Seq<u8>, pos: int) -> (Seq<Weight>, int)
    decreases s.len() - pos,
{
    match spec_parse_weight(s, pos) {
        Some((v, p)) => if pos < p <= s.len() {
            let (rest, e) = spec_parse_weight_list(s, p);
            (seq![v] + rest, e)
        } else {
            (Seq::empty(), pos)
        },
        None => (Seq::empty(), pos),
    }
}

/// Parse weight declarations until one fails to start.
fn parse_weight_list(s: &[u8], pos: usize) -> (r: (Vec<Weight>, usize))
    requires
        pos <= s@.len(),
    ensures
        spec_parse_weight_list(s@, pos as int).0 == r.0@,
        spec_parse_weight_list(s@, pos as int).1 == r.1 as int,
        pos <= r.1 <= s@.len(),
{
    let mut out: Vec<Weight> = Vec::new();
    let mut cur: usize = pos;
    let mut done: bool = false;
    while !done
        invariant
            pos <= cur <= s@.len(),
            spec_parse_weight_list(s@, pos as int).0 == out@ + spec_parse_weight_list(
                s@,
                cur as int,
            ).0,
            spec_parse_weight_list(s@, pos as int).1 == spec_parse_weight_list(
                s@,
                cur as int,
            ).1,
            done ==> spec_parse_weight(s@, cur as int) is None,
        decreases s@.len() - cur, (if done { 0int } else { 1int }),
    {
        match parse_weight(s, cur) {
            Ok((v, p2)) => {
                proof {
                    assert((out@ + seq![v]) + spec_parse_weight_list(s@, p2 as int).0 =~= out@
                        + (seq![v] + spec_parse_weight_list(s@, p2 as int).0));
                    assert(out@.push(v) =~= out@ + seq![v]);
                }
                out.push(v);
                cur = p2;
            },
            Err(_) => {
                done = true;
            },
        }
    }
    proof {
        assert(out@ + Seq::<Weight>::empty() =~= out@);
    }
    (out, cur)
}

/// The `numweights` sub-block: a declared count (consumed, not
/// enforced), the declarations, and the list re-sorted ascending by
/// declared index.
pub open spec fn spec_parse_weights(s: Seq<u8>, pos: int) -> Option<(Seq<Weight>, int)> {
    match spec_tag(s, pos, tag_numweights()) {
        None => None,
        Some(p1) => match spec_parse_u32(s, p1) {
            None => None,
            Some((cnt, p2)) => {
                let (items, e) = spec_parse_weight_list(s, p2);
                Some((sort_by(items, wkey()), e))
            },
        },
    }
}

/// Parse the `numweights` sub-block; the result is sorted ascending by
/// declared index, a stable permutation of the declarations.
pub fn parse_weights(s: &[u8], pos: usize) -> (r: Result<(Vec<Weight>, usize), ParseError>)
    requires
        pos <= s@.len(),
    ensures
        match r {
            Ok((vs, e)) => {
                &&& spec_parse_weights(s@, pos as int) == Some((vs@, e as int))
                &&& pos < e <= s@.len()
                &&& sorted_by(vs@, wkey())
            },
            Err(er) => spec_parse_weights(s@, pos as int) is None,
        },
{
    let tt = arr_numweights();
    let p1 = match expect_tag(s, pos, tt.as_slice()) {
        Ok(p) => p,
        Err(er) => {
            return Err(er);
        },
    };
    let (cnt, p2) = match parse_u32(s, p1) {
        Ok(t) => t,
        Err(er) => {
            return Err(er);
        },
    };
    let (items, e) = parse_weight_list(s, p2);
    let sorted = sort_weights(&items);
    proof {
        lemma_sort_by_props(items@, wkey());
    }
    Ok((sorted, e))
}


/// One `mesh { … }` block: shader string, then the vertex, triangle
/// and weight sub-blocks, each re-sorted by declared index.
pub open spec fn spec_parse_mesh(s: Seq<u8>, pos: int) -> Option<(MeshSpec, int)> {
    match spec_tag(s, pos, tag_mesh()) {
        None => None,
        Some(p1) => match spec_tag(s, p1, tag_lbrace()) {
            None => None,
            Some(p2) => match spec_tag(s, p2, tag_shader()) {
                None => None,
                Some(p3) => match spec_parse_string(s, p3) {
                    None => None,
                    Some((sh, p4)) => match spec_parse_vertices(s, p4) {
                        None => None,
                        Some((vs, p5)) => match spec_parse_triangles(s, p5) {
                            None => None,
                            Some((ts, p6)) => match spec_parse_weights(s, p6) {
                                None => None,
                                Some((ws, p7)) => match spec_tag(s, p7, tag_rbrace()) {
                                    None => None,
                                    Some(p8) => Some(
                                        (
                                            MeshSpec {
                                                shader: sh,
                                                vertices: vs,
                                                triangles: ts,
                                                weights: ws,
                                            },
                                            p8,
                                        ),
                                    ),
                                },
                            },
                        },
                    },
                },
            },
        },
    }
}

/// Parse one `mesh { … }` block.
pub fn parse_mesh(s: &[u8], pos: usize) -> (r: Result<(Mesh, usize), ParseError>)
    requires
        pos <= s@.len(),
    ensures
        match r {
            Ok((m, e)) => {
                &&& spec_parse_mesh(s@, pos as int) == Some((m@, e as int))
                &&& pos < e <= s@.len()
                &&& sorted_by(m.vertices@, vkey())
                &&& sorted_by(m.triangles@, tkey())
                &&& sorted_by(m.weights@, wkey())
            },
            Err(er) => spec_parse_mesh(s@, pos as int) is None,
        },
{
    let tm = arr_mesh();
    let p1 = match expect_tag(s, pos, tm.as_slice()) {
        Ok(p) => p,
        Err(er) => {
            return Err(er);
        },
    };
    let tb = arr_lbrace();
    let p2 = match expect_tag(s, p1, tb.as_slice()) {
        Ok(p) => p,
        Err(er) => {
            return Err(er);
        },
    };
    let ts = arr_shader();
    let p3 = match expect_tag(s, p2, ts.as_slice()) {
        Ok(p) => p,
        Err(er) => {
            return Err(er);
        },
    };
    let (sh, p4) = match parse_string(s, p3) {
        Ok(t) => t,
        Err(er) => {
            return Err(er);
        },
    };
    let (vs, p5) = match parse_vertices(s, p4) {
        Ok(t) => t,
        Err(er) => {
            return Err(er);
        },
    };
    let (tris, p6) = match parse_triangles(s, p5) {
        Ok(t) => t,
        Err(er) => {
            return Err(er);
        },
    };
    let (ws, p7) = match parse_weights(s, p6) {
        Ok(t) => t,
        Err(er) => {
            return Err(er);
        },
    };
    let tc = arr_rbrace();
    let p8 = match expect_tag(s, p7, tc.as_slice()) {
        Ok(p) => p,
        Err(er) => {
            return Err(er);
        },
    };
    Ok((Mesh { shader: sh, vertices: vs, triangles: tris, weights: ws }, p8))
}

/// Zero or more mesh blocks, in file order.
pub open spec fn spec_parse_mesh_list(s: Seq<u8>, pos: int) -> (Seq<MeshSpec>, int)
    decreases s.len() - pos,
{
    match spec_parse_mesh(s, pos) {
        Some((m, p)) => if pos < p <= s.len() {
            let (rest, e) = spec_parse_mesh_list(s, p);
            (seq![m] + rest, e)
        } else {
            (Seq::empty(), pos)
        },
        None => (Seq::empty(), pos),
    }
}

/// Parse mesh blocks until one fails to start.
pub fn parse_meshes(s: &[u8], pos: usize) -> (r: (Vec<Mesh>, usize))
    requires
        pos <= s@.len(),
    ensures
        spec_parse_mesh_list(s@, pos as int).0 == meshes_view(r.0@),
        spec_parse_mesh_list(s@, pos as int).1 == r.1 as int,
        pos <= r.1 <= s@.len(),
{
    let mut out: Vec<Mesh> = Vec::new();
    let mut cur: usize = pos;
    let mut done: bool = false;
    while !done
        invariant
            pos <= cur <= s@.len(),
            spec_parse_mesh_list(s@, pos as int).0 == meshes_view(out@) + spec_parse_mesh_list(
                s@,
                cur as int,
            ).0,
            spec_parse_mesh_list(s@, pos as int).1 == spec_parse_mesh_list(s@, cur as int).1,
            done ==> spec_parse_mesh(s@, cur as int) is None,
        decreases s@.len() - cur, (if done { 0int } else { 1int }),
    {
        match parse_mesh(s, cur) {
            Ok((m, p2)) => {
                proof {
                    assert(meshes_view(out@.push(m)) =~= meshes_view(out@) + seq![m@]);
                    assert((meshes_view(out@) + seq![m@]) + spec_parse_mesh_list(s@, p2 as int).0
                        =~= meshes_view(out@) + (seq![m@] + spec_parse_mesh_list(
                        s@,
                        p2 as int,
                    ).0));
                }
                out.push(m);
                cur = p2;
            },
            Err(_) => {
                done = true;
            },
        }
    }
    proof {
        assert(meshes_view(out@) + Seq::<MeshSpec>::empty() =~= meshes_view(out@));
    }
    (out, cur)
}

/// The whole mesh document: header, declared joint and mesh counts
/// (consumed, not cross-checked), the joints block, the mesh blocks —
/// and then nothing but whitespace to the end of the input.
pub open spec fn spec_parse_md5mesh(s: Seq<u8>) -> Option<Md5MeshSpec> {
    match spec_parse_header(s, 0) {
        None => None,
        Some(((ver, cl), p1)) => match spec_tag(s, p1, tag_numjoints()) {
            None => None,
            Some(p2) => match spec_parse_u32(s, p2) {
                None => None,
                Some((nj, p3)) => match spec_tag(s, p3, tag_nummeshes()) {
                    None => None,
                    Some(p4) => match spec_parse_u32(s, p4) {
                        None => None,
                        Some((nm, p5)) => match spec_parse_joints(s, p5) {
                            None => None,
                            Some((js, p6)) => {
                                let (ms, p7) = spec_parse_mesh_list(s, p6);
                                if spec_skip_ws(s, p7) == s.len() {
                                    Some(
                                        Md5MeshSpec {
                                            version: ver,
                                            command_line: cl,
                                            joints: js,
                                            meshes: ms,
                                        },
                                    )
                                } else {
                                    None
                                }
                            },
                        },
                    },
                },
            },
        },
    }
}

/// Parse a complete mesh document. Succeeds exactly when the grammar
/// matches and nothing but whitespace follows it: trailing bytes are a
/// failure.
pub fn parse_md5mesh(s: &[u8]) -> (r: Result<Md5Mesh, ParseError>)
    ensures
        match r {
            Ok(doc) => spec_parse_md5mesh(s@) == Some(doc@),
            Err(er) => spec_parse_md5mesh(s@) is None,
        },
{
    let ((ver, cl), p1) = match parse_header(s, 0) {
        Ok(t) => t,
        Err(er) => {
            return Err(er);
        },
    };
    let tj = arr_numjoints();
    let p2 = match expect_tag(s, p1, tj.as_slice()) {
        Ok(p) => p,
        Err(er) => {
            return Err(er);
        },
    };
    let (nj, p3) = match parse_u32(s, p2) {
        Ok(t) => t,
        Err(er) => {
            return Err(er);
        },
    };
    let tn = arr_nummeshes();
    let p4 = match expect_tag(s, p3, tn.as_slice()) {
        Ok(p) => p,
        Err(er) => {
            return Err(er);
        },
    };
    let (nm, p5) = match parse_u32(s, p4) {
        Ok(t) => t,
        Err(er) => {
            return Err(er);
        },
    };
    let (js, p6) = match parse_joints(s, p5) {
        Ok(t) => t,
        Err(er) => {
            return Err(er);
        },
    };
    let (ms, p7) = parse_meshes(s, p6);
    let end = skip_ws(s, p7);
    if end != s.len() {
        return Err(ParseError { kind: ErrorKind::Syntax, pos: end });
    }
    Ok(Md5Mesh { version: ver, command_line: cl, joints: js, meshes: ms })
}


/// The vertex declarations of a `numverts` sub-block, in file order.
pub open spec fn spec_vertex_decls(s: Seq<u8>, pos: int) -> Seq<Vertex> {
    match spec_tag(s, pos, tag_numverts()) {
        None => Seq::empty(),
        Some(p1) => match spec_parse_u32(s, p1) {
            None => Seq::empty(),
            Some((cnt, p2)) => spec_parse_vertex_list(s, p2).0,
        },
    }
}

/// The triangle declarations of a `numtris` sub-block, in file order.
pub open spec fn spec_triangle_decls(s: Seq<u8>, pos: int) -> Seq<Triangle> {
    match spec_tag(s, pos, tag_numtris()) {
        None => Seq::empty(),
        Some(p1) => match spec_parse_u32(s, p1) {
            None => Seq::empty(),
            Some((cnt, p2)) => spec_parse_triangle_list(s, p2).0,
        },
    }
}

/// The weight declarations of a `numweights` sub-block, in file order.
pub open spec fn spec_weight_decls(s: Seq<u8>, pos: int) -> Seq<Weight> {
    match spec_tag(s, pos, tag_numweights()) {
        None => Seq::empty(),
        Some(p1) => match spec_parse_u32(s, p1) {
            None => Seq::empty(),
            Some((cnt, p2)) => spec_parse_weight_list(s, p2).0,
        },
    }
}

/// In whatever order a block declares its vertices, triangles and
/// weights — any permutation of the declared indices — the decoded
/// lists come out sorted ascending by declared index, and they are a
/// permutation of the declarations: nothing is lost or invented.
pub proof fn lemma_block_lists_sorted(s: Seq<u8>, pos: int)
    ensures
        spec_parse_vertices(s, pos) matches Some((vs, e)) ==> sorted_by(vs, vkey())
            && vs.to_multiset() == spec_vertex_decls(s, pos).to_multiset(),
        spec_parse_triangles(s, pos) matches Some((ts, e)) ==> sorted_by(ts, tkey())
            && ts.to_multiset() == spec_triangle_decls(s, pos).to_multiset(),
        spec_parse_weights(s, pos) matches Some((ws, e)) ==> sorted_by(ws, wkey())
            && ws.to_multiset() == spec_weight_decls(s, pos).to_multiset(),
{
    if spec_parse_vertices(s, pos) is Some {
        lemma_sort_by_props(spec_vertex_decls(s, pos), vkey());
    }
    if spec_parse_triangles(s, pos) is Some {
        lemma_sort_by_props(spec_triangle_decls(s, pos), tkey());
    }
    if spec_parse_weights(s, pos) is Some {
        lemma_sort_by_props(spec_weight_decls(s, pos), wkey());
    }
}

} // verus!
