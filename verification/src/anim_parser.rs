//! The animation-format grammar: header, joint hierarchy, per-frame
//! bounds, the base pose, and raw-channel frames.

use vstd::prelude::*;
use crate::fixed::Fixed;
use crate::decode::{
    parse_quaternion, parse_vector3, spec_parse_quaternion, spec_parse_vector3,
};
use crate::lexer::{
    ErrorKind, ParseError, expect_tag, parse_dec, parse_i32, parse_string, parse_u32,
    skip_comment, skip_ws, spec_opt_comment, spec_parse_dec, spec_parse_i32, spec_parse_string,
    spec_parse_u32, spec_skip_ws, spec_tag,
};
use crate::quaternion::Quaternion;
use crate::tags::{
    arr_baseframe, arr_bounds, arr_commandline, arr_frame, arr_framerate, arr_hierarchy,
    arr_lbrace, arr_lparen, arr_md5version, arr_numanimatedcomponents, arr_numframes,
    arr_numjoints, arr_rbrace, arr_rparen, tag_baseframe, tag_bounds, tag_commandline, tag_frame,
    tag_framerate, tag_hierarchy, tag_lbrace, tag_lparen, tag_md5version,
    tag_numanimatedcomponents, tag_numframes, tag_numjoints, tag_rbrace, tag_rparen,
};
use crate::vector3::Vector3;

verus! {

/// A hierarchy joint: name, parent index, channel flags, and start
/// index into each frame's raw channel array.
#[derive(Debug, PartialEq)]
pub struct Joint {
    pub name: String,
    pub index: i32,
    pub flag: i32,
    pub start_index: i32,
}

/// The mathematical image of a hierarchy `Joint`.
pub ghost struct JointSpec {
    pub name: Seq<char>,
    pub index: i32,
    pub flag: i32,
    pub start_index: i32,
}

impl View for Joint {
    type V = JointSpec;

    open spec fn view(&self) -> JointSpec {
        JointSpec {
            name: self.name@,
            index: self.index,
            flag: self.flag,
            start_index: self.start_index,
        }
    }
}

/// An axis-aligned bounding volume, one per frame.
#[derive(Clone, Copy, Debug, PartialEq, Eq)]
pub struct Bound {
    pub bound_min: Vector3,
    pub bound_max: Vector3,
}

/// The reference pose: positions and orientations in parallel, one
/// pair per hierarchy joint.
#[derive(Debug, PartialEq)]
pub struct BaseFrame {
    pub position: Vec<Vector3>,
    pub orientation: Vec<Quaternion>,
}

/// The mathematical image of a `BaseFrame`.
pub ghost struct BaseFrameSpec {
    pub position: Seq<Vector3>,
    pub orientation: Seq<Quaternion>,
}

impl View for BaseFrame {
    type V = BaseFrameSpec;

    open spec fn view(&self) -> BaseFrameSpec {
        BaseFrameSpec { position: self.position@, orientation: self.orientation@ }
    }
}

/// One frame: its number and the raw channel values in file order.
#[derive(Debug, PartialEq)]
pub struct Frame {
    pub frame_number: u32,
    pub frame_data: Vec<Fixed>,
}

/// The mathematical image of a `Frame`.
pub ghost struct FrameSpec {
    pub frame_number: u32,
    pub frame_data: Seq<Fixed>,
}

impl View for Frame {
    type V = FrameSpec;

    open spec fn view(&self) -> FrameSpec {
        FrameSpec { frame_number: self.frame_number, frame_data: self.frame_data@ }
    }
}

/// A decoded animation document. The declared counts are carried, not
/// cross-checked against the parsed list lengths.
#[derive(Debug, PartialEq)]
pub struct Md5Anim {
    pub version: i32,
    pub command_line: String,
    pub num_frames: i32,
    pub num_joints: i32,
    pub frame_rate: i32,
    pub num_animated_components: i32,
    pub hierarchies: Vec<Joint>,
    pub bounds: Vec<Bound>,
    pub base_frame: BaseFrame,
    pub frames: Vec<Frame>,
}

/// The mathematical image of a `Md5Anim`.
pub ghost struct Md5AnimSpec {
    pub version: i32,
    pub command_line: Seq<char>,
    pub num_frames: i32,
    pub num_joints: i32,
    pub frame_rate: i32,
    pub num_animated_components: i32,
    pub hierarchies: Seq<JointSpec>,
    pub bounds: Seq<Bound>,
    pub base_frame: BaseFrameSpec,
    pub frames: Seq<FrameSpec>,
}

impl View for Md5Anim {
    type V = Md5AnimSpec;

    open spec fn view(&self) -> Md5AnimSpec {
        Md5AnimSpec {
            version: self.version,
            command_line: self.command_line@,
            num_frames: self.num_frames,
            num_joints: self.num_joints,
            frame_rate: self.frame_rate,
            num_animated_components: self.num_animated_components,
            hierarchies: hierarchy_view(self.hierarchies@),
            bounds: self.bounds@,
            base_frame: self.base_frame@,
            frames: frames_view(self.frames@),
        }
    }
}

/// Elementwise view of a hierarchy joint sequence.
pub open spec fn hierarchy_view(v: Seq<Joint>) -> Seq<JointSpec> {
    Seq::new(v.len(), |i: int| v[i]@)
}

/// Elementwise view of a frame sequence.
pub open spec fn frames_view(v: Seq<Frame>) -> Seq<FrameSpec> {
    Seq::new(v.len(), |i: int| v[i]@)
}

/// The animation header: `MD5Version` and five tagged integers around
/// the quoted command line.
pub open spec fn spec_parse_header(s: Seq<u8>, pos: int) -> Option<
    ((i32, Seq<char>, i32, i32, i32, i32), int),
> {
    match spec_tag(s, pos, tag_md5version()) {
        None => None,
        Some(p1) => match spec_parse_i32(s, p1) {
            None => None,
            Some((ver, p2)) => match spec_tag(s, p2, tag_commandline()) {
                None => None,
                Some(p3) => match spec_parse_string(s, p3) {
                    None => None,
                    Some((cl, p4)) => match spec_tag(s, p4, tag_numframes()) {
                        None => None,
                        Some(p5) => match spec_parse_i32(s, p5) {
                            None => None,
                            Some((nf, p6)) => match spec_tag(s, p6, tag_numjoints()) {
                                None => None,
                                Some(p7) => match spec_parse_i32(s, p7) {
                                    None => None,
                                    Some((nj, p8)) => match spec_tag(s, p8, tag_framerate()) {
                                        None => None,
                                        Some(p9) => match spec_parse_i32(s, p9) {
                                            None => None,
                                            Some((fr, p10)) => match spec_tag(
                                                s,
                                                p10,
                                                tag_numanimatedcomponents(),
                                            ) {
                                                None => None,
                                                Some(p11) => match spec_parse_i32(s, p11) {
                                                    None => None,
                                                    Some((nac, p12)) => Some(
                                                        ((ver, cl, nf, nj, fr, nac), p12),
                                                    ),
                                                },
                                            },
                                        },
                                    },
                                },
                            },
                        },
                    },
                },
            },
        },
    }
}

/// Parse the animation header.
pub fn parse_header(s: &[u8], pos: usize) -> (r: Result<
    ((i32, String, i32, i32, i32, i32), usize),
    ParseError,
>)
    requires
        pos <= s@.len(),
    ensures
        match r {
            Ok((h, e)) => spec_parse_header(s@, pos as int) == Some(
                ((h.0, h.1@, h.2, h.3, h.4, h.5), e as int),
            ) && pos < e <= s@.len(),
            Err(er) => spec_parse_header(s@, pos as int) is None,
        },
{
    let t1 = arr_md5version();
    let p1 = match expect_tag(s, pos, t1.as_slice()) {
        Ok(p) => p,
        Err(er) => {
            return Err(er);
        },
    };
    let (ver, p2) = match parse_i32(s, p1) {
        Ok(t) => t,
        Err(er) => {
            return Err(er);
        },
    };
    let t2 = arr_commandline();
    let p3 = match expect_tag(s, p2, t2.as_slice()) {
        Ok(p) => p,
        Err(er) => {
            return Err(er);
        },
    };
    let (cl, p4) = match parse_string(s, p3) {
        Ok(t) => t,
        Err(er) => {
            return Err(er);
        },
    };
    let t3 = arr_numframes();
    let p5 = match expect_tag(s, p4, t3.as_slice()) {
        Ok(p) => p,
        Err(er) => {
            return Err(er);
        },
    };
    let (nf, p6) = match parse_i32(s, p5) {
        Ok(t) => t,
        Err(er) => {
            return Err(er);
        },
    };
    let t4 = arr_numjoints();
    let p7 = match expect_tag(s, p6, t4.as_slice()) {
        Ok(p) => p,
        Err(er) => {
            return Err(er);
        },
    };
    let (nj, p8) = match parse_i32(s, p7) {
        Ok(t) => t,
        Err(er) => {
            return Err(er);
        },
    };
    let t5 = arr_framerate();
    let p9 = match expect_tag(s, p8, t5.as_slice()) {
        Ok(p) => p,
        Err(er) => {
            return Err(er);
        },
    };
    let (fr, p10) = match parse_i32(s, p9) {
        Ok(t) => t,
        Err(er) => {
            return Err(er);
        },
    };
    let t6 = arr_numanimatedcomponents();
    let p11 = match expect_tag(s, p10, t6.as_slice()) {
        Ok(p) => p,
        Err(er) => {
            return Err(er);
        },
    };
    let (nac, p12) = match parse_i32(s, p11) {
        Ok(t) => t,
        Err(er) => {
            return Err(er);
        },
    };
    Ok(((ver, cl, nf, nj, fr, nac), p12))
}

/// One hierarchy joint declaration: name, parent index, flags, start
/// index, optional trailing comment.
pub open spec fn spec_parse_joint(s: Seq<u8>, pos: int) -> Option<(JointSpec, int)> {
    match spec_parse_string(s, pos) {
        None => None,
        Some((name, p1)) => match spec_parse_i32(s, p1) {
            None => None,
            Some((pi, p2)) => match spec_parse_i32(s, p2) {
                None => None,
                Some((fl, p3)) => match spec_parse_i32(s, p3) {
                    None => None,
                    Some((si, p4)) => Some(
                        (
                            JointSpec { name, index: pi, flag: fl, start_index: si },
                            spec_opt_comment(s, p4),
                        ),
                    ),
                },
            },
        },
    }
}

/// Parse one hierarchy joint declaration.
pub fn parse_joint(s: &[u8], pos: usize) -> (r: Result<(Joint, usize), ParseError>)
    requires
        pos <= s@.len(),
    ensures
        match r {
            Ok((j, e)) => spec_parse_joint(s@, pos as int) == Some((j@, e as int)) && pos < e
                <= s@.len(),
            Err(er) => spec_parse_joint(s@, pos as int) is None,
        },
{
    let (name, p1) = match parse_string(s, pos) {
        Ok(t) => t,
        Err(er) => {
            return Err(er);
        },
    };
    let (pi, p2) = match parse_i32(s, p1) {
        Ok(t) => t,
        Err(er) => {
            return Err(er);
        },
    };
    let (fl, p3) = match parse_i32(s, p2) {
        Ok(t) => t,
        Err(er) => {
            return Err(er);
        },
    };
    let (si, p4) = match parse_i32(s, p3) {
        Ok(t) => t,
        Err(er) => {
            return Err(er);
        },
    };
    let p5 = skip_comment(s, p4);
    Ok((Joint { name, index: pi, flag: fl, start_index: si }, p5))
}

/// Zero or more hierarchy joint declarations, in file order.
pub open spec fn spec_parse_joint_list(s: Seq<u8>, pos: int) -> (Seq<JointSpec>, int)
    decreases s.len() - pos,
{
    match spec_parse_joint(s, pos) {
        Some((j, p)) => if pos < p <= s.len() {
            let (rest, e) = spec_parse_joint_list(s, p);
            (seq![j] + rest, e)
        } else {
            (Seq::empty(), pos)
        },
        None => (Seq::empty(), pos),
    }
}

/// Parse hierarchy joints until one fails to start.
fn parse_joint_list(s: &[u8], pos: usize) -> (r: (Vec<Joint>, usize))
    requires
        pos <= s@.len(),
    ensures
        spec_parse_joint_list(s@, pos as int).0 == hierarchy_view(r.0@),
        spec_parse_joint_list(s@, pos as int).1 == r.1 as int,
        pos <= r.1 <= s@.len(),
{
    let mut out: Vec<Joint> = Vec::new();
    let mut cur: usize = pos;
    let mut done: bool = false;
    while !done
        invariant
            pos <= cur <= s@.len(),
            spec_parse_joint_list(s@, pos as int).0 == hierarchy_view(out@)
                + spec_parse_joint_list(s@, cur as int).0,
            spec_parse_joint_list(s@, pos as int).1 == spec_parse_joint_list(s@, cur as int).1,
            done ==> spec_parse_joint(s@, cur as int) is None,
        decreases s@.len() - cur, (if done { 0int } else { 1int }),
    {
        match parse_joint(s, cur) {
            Ok((j, p2)) => {
                proof {
                    assert(hierarchy_view(out@.push(j)) =~= hierarchy_view(out@) + seq![j@]);
                    assert((hierarchy_view(out@) + seq![j@]) + spec_parse_joint_list(
                        s@,
                        p2 as int,
                    ).0 =~= hierarchy_view(out@) + (seq![j@] + spec_parse_joint_list(
                        s@,
                        p2 as int,
                    ).0));
                }
                out.push(j);
                cur = p2;
            },
            Err(_) => {
                done = true;
            },
        }
    }
    proof {
        assert(hierarchy_view(out@) + Seq::<JointSpec>::empty() =~= hierarchy_view(out@));
    }
    (out, cur)
}

/// The `hierarchy { … }` block: one or more joint declarations.
pub open spec fn spec_parse_hierarchy(s: Seq<u8>, pos: int) -> Option<(Seq<JointSpec>, int)> {
    match spec_tag(s, pos, tag_hierarchy()) {
        None => None,
        Some(p1) => match spec_tag(s, p1, tag_lbrace()) {
            None => None,
            Some(p2) => {
                let (items, e) = spec_parse_joint_list(s, p2);
                if items.len() == 0 {
                    None
                } else {
                    match spec_tag(s, e, tag_rbrace()) {
                        None => None,
                        Some(p3) => Some((items, p3)),
                    }
                }
            },
        },
    }
}

/// Parse the `hierarchy { … }` block.
pub fn parse_hierarchy(s: &[u8], pos: usize) -> (r: Result<(Vec<Joint>, usize), ParseError>)
    requires
        pos <= s@.len(),
    ensures
        match r {
            Ok((js, e)) => spec_parse_hierarchy(s@, pos as int) == Some(
                (hierarchy_view(js@), e as int),
            ) && pos < e <= s@.len(),
            Err(er) => spec_parse_hierarchy(s@, pos as int) is None,
        },
{
    let th = arr_hierarchy();
    let p1 = match expect_tag(s, pos, th.as_slice()) {
        Ok(p) => p,
        Err(er) => {
            return Err(er);
        },
    };
    let tb = arr_lbrace();
    let p2 = match expect_tag(s, p1, tb.as_slice()) {
        Ok(p) => p,
        Err(er) => {
            return Err(er);
        },
    };
    let (items, e) = parse_joint_list(s, p2);
    if items.len() == 0 {
        proof {
            assert(hierarchy_view(items@).len() == 0);
        }
        return Err(ParseError { kind: ErrorKind::Syntax, pos: e });
    }
    let tc = arr_rbrace();
    let p3 = match expect_tag(s, e, tc.as_slice()) {
        Ok(p) => p,
        Err(er) => {
            return Err(er);
        },
    };
    proof {
        assert(hierarchy_view(items@).len() == items@.len());
    }
    Ok((items, p3))
}

/// One bound declaration: two parenthesized vectors, minimum then
/// maximum.
pub open spec fn spec_parse_bound(s: Seq<u8>, pos: int) -> Option<(Bound, int)> {
    match spec_tag(s, pos, tag_lparen()) {
        None => None,
        Some(p1) => match spec_parse_vector3(s, p1) {
            None => None,
            Some((mn, p2)) => match spec_tag(s, p2, tag_rparen()) {
                None => None,
                Some(p3) => match spec_tag(s, p3, tag_lparen()) {
                    None => None,
                    Some(p4) => match spec_parse_vector3(s, p4) {
                        None => None,
                        Some((mx, p5)) => match spec_tag(s, p5, tag_rparen()) {
                            None => None,
                            Some(p6) => Some((Bound { bound_min: mn, bound_max: mx }, p6)),
                        },
                    },
                },
            },
        },
    }
}

/// Parse one bound declaration.
pub fn parse_bound(s: &[u8], pos: usize) -> (r: Result<(Bound, usize), ParseError>)
    requires
        pos <= s@.len(),
    ensures
        match r {
            Ok((b, e)) => spec_parse_bound(s@, pos as int) == Some((b, e as int)) && pos < e
                <= s@.len(),
            Err(er) => spec_parse_bound(s@, pos as int) is None,
        },
{
    let tl = arr_lparen();
    let tr = arr_rparen();
    let p1 = match expect_tag(s, pos, tl.as_slice()) {
        Ok(p) => p,
        Err(er) => {
            return Err(er);
        },
    };
    let (mn, p2) = match parse_vector3(s, p1) {
        Ok(t) => t,
        Err(er) => {
            return Err(er);
        },
    };
    let p3 = match expect_tag(s, p2, tr.as_slice()) {
        Ok(p) => p,
        Err(er) => {
            return Err(er);
        },
    };
    let p4 = match expect_tag(s, p3, tl.as_slice()) {
        Ok(p) => p,
        Err(er) => {
            return Err(er);
        },
    };
    let (mx, p5) = match parse_vector3(s, p4) {
        Ok(t) => t,
        Err(er) => {
            return Err(er);
        },
    };
    let p6 = match expect_tag(s, p5, tr.as_slice()) {
        Ok(p) => p,
        Err(er) => {
            return Err(er);
        },
    };
    Ok((Bound { bound_min: mn, bound_max: mx }, p6))
}

/// Zero or more bound declarations, in file order.
pub open spec fn spec_parse_bound_list(s: Seq<u8>, pos: int) -> (Seq<Bound>, int)
    decreases s.len() - pos,
{
    match spec_parse_bound(s, pos) {
        Some((b, p)) => if pos < p <= s.len() {
            let (rest, e) = spec_parse_bound_list(s, p);
            (seq![b] + rest, e)
        } else {
            (Seq::empty(), pos)
        },
        None => (Seq::empty(), pos),
    }
}

/// Parse bound declarations until one fails to start.
fn parse_bound_list(s: &[u8], pos: usize) -> (r: (Vec<Bound>, usize))
    requires
        pos <= s@.len(),
    ensures
        spec_parse_bound_list(s@, pos as int).0 == r.0@,
        spec_parse_bound_list(s@, pos as int).1 == r.1 as int,
        pos <= r.1 <= s@.len(),
{
    let mut out: Vec<Bound> = Vec::new();
    let mut cur: usize = pos;
    let mut done: bool = false;
    while !done
        invariant
            pos <= cur <= s@.len(),
            spec_parse_bound_list(s@, pos as int).0 == out@ + spec_parse_bound_list(
                s@,
                cur as int,
            ).0,
            spec_parse_bound_list(s@, pos as int).1 == spec_parse_bound_list(s@, cur as int).1,
            done ==> spec_parse_bound(s@, cur as int) is None,
        decreases s@.len() - cur, (if done { 0int } else { 1int }),
    {
        match parse_bound(s, cur) {
            Ok((b, p2)) => {
                proof {
                    assert(out@.push(b) =~= out@ + seq![b]);
                    assert((out@ + seq![b]) + spec_parse_bound_list(s@, p2 as int).0 =~= out@ + (
                    seq![b] + spec_parse_bound_list(s@, p2 as int).0));
                }
                out.push(b);
                cur = p2;
            },
            Err(_) => {
                done = true;
            },
        }
    }
    proof {
        assert(out@ + Seq::<Bound>::empty() =~= out@);
    }
    (out, cur)
}

/// The `bounds { … }` block: one or more bound declarations.
pub open spec fn spec_parse_bounds(s: Seq<u8>, pos: int) -> Option<(Seq<Bound>, int)> {
    match spec_tag(s, pos, tag_bounds()) {
        None => None,
        Some(p1) => match spec_tag(s, p1, tag_lbrace()) {
            None => None,
            Some(p2) => {
                let (items, e) = spec_parse_bound_list(s, p2);
                if items.len() == 0 {
                    None
                } else {
                    match spec_tag(s, e, tag_rbrace()) {
                        None => None,
                        Some(p3) => Some((items, p3)),
                    }
                }
            },
        },
    }
}

/// Parse the `bounds { … }` block.
pub fn parse_bounds(s: &[u8], pos: usize) -> (r: Result<(Vec<Bound>, usize), ParseError>)
    requires
        pos <= s@.len(),
    ensures
        match r {
            Ok((bs, e)) => spec_parse_bounds(s@, pos as int) == Some((bs@, e as int)) && pos < e
                <= s@.len(),
            Err(er) => spec_parse_bounds(s@, pos as int) is None,
        },
{
    let tb = arr_bounds();
    let p1 = match expect_tag(s, pos, tb.as_slice()) {
        Ok(p) => p,
        Err(er) => {
            return Err(er);
        },
    };
    let tl = arr_lbrace();
    let p2 = match expect_tag(s, p1, tl.as_slice()) {
        Ok(p) => p,
        Err(er) => {
            return Err(er);
        },
    };
    let (items, e) = parse_bound_list(s, p2);
    if items.len() == 0 {
        return Err(ParseError { kind: ErrorKind::Syntax, pos: e });
    }
    let tc = arr_rbrace();
    let p3 = match expect_tag(s, e, tc.as_slice()) {
        Ok(p) => p,
        Err(er) => {
            return Err(er);
        },
    };
    Ok((items, p3))
}

/// One base-frame entry: a parenthesized position and a parenthesized
/// orientation.
pub open spec fn spec_pos_and_orientation(s: Seq<u8>, pos: int) -> Option<
    ((Vector3, Quaternion), int),
> {
    match spec_tag(s, pos, tag_lparen()) {
        None => None,
        Some(p1) => match spec_parse_vector3(s, p1) {
            None => None,
            Some((pv, p2)) => match spec_tag(s, p2, tag_rparen()) {
                None => None,
                Some(p3) => match spec_tag(s, p3, tag_lparen()) {
                    None => None,
                    Some(p4) => match spec_parse_quaternion(s, p4) {
                        None => None,
                        Some((q, p5)) => match spec_tag(s, p5, tag_rparen()) {
                            None => None,
                            Some(p6) => Some(((pv, q), p6)),
                        },
                    },
                },
            },
        },
    }
}

/// Parse one base-frame entry.
pub fn pos_and_orientation(s: &[u8], pos: usize) -> (r: Result<
    ((Vector3, Quaternion), usize),
    ParseError,
>)
    requires
        pos <= s@.len(),
    ensures
        match r {
            Ok((t, e)) => spec_pos_and_orientation(s@, pos as int) == Some((t, e as int)) && pos
                < e <= s@.len(),
            Err(er) => spec_pos_and_orientation(s@, pos as int) is None,
        },
{
    let tl = arr_lparen();
    let tr = arr_rparen();
    let p1 = match expect_tag(s, pos, tl.as_slice()) {
        Ok(p) => p,
        Err(er) => {
            return Err(er);
        },
    };
    let (pv, p2) = match parse_vector3(s, p1) {
        Ok(t) => t,
        Err(er) => {
            return Err(er);
        },
    };
    let p3 = match expect_tag(s, p2, tr.as_slice()) {
        Ok(p) => p,
        Err(er) => {
            return Err(er);
        },
    };
    let p4 = match expect_tag(s, p3, tl.as_slice()) {
        Ok(p) => p,
        Err(er) => {
            return Err(er);
        },
    };
    let (q, p5) = match parse_quaternion(s, p4) {
        Ok(t) => t,
        Err(er) => {
            return Err(er);
        },
    };
    let p6 = match expect_tag(s, p5, tr.as_slice()) {
        Ok(p) => p,
        Err(er) => {
            return Err(er);
        },
    };
    Ok(((pv, q), p6))
}

/// Zero or more base-frame entries, in file order.
pub open spec fn spec_parse_pair_list(s: Seq<u8>, pos: int) -> (Seq<(Vector3, Quaternion)>, int)
    decreases s.len() - pos,
{
    match spec_pos_and_orientation(s, pos) {
        Some((t, p)) => if pos < p <= s.len() {
            let (rest, e) = spec_parse_pair_list(s, p);
            (seq![t] + rest, e)
        } else {
            (Seq::empty(), pos)
        },
        None => (Seq::empty(), pos),
    }
}

/// The `baseframe { … }` block: one or more entries, split into the
/// two parallel lists in pairing order.
pub open spec fn spec_parse_baseframe(s: Seq<u8>, pos: int) -> Option<(BaseFrameSpec, int)> {
    match spec_tag(s, pos, tag_baseframe()) {
        None => None,
        Some(p1) => match spec_tag(s, p1, tag_lbrace()) {
            None => None,
            Some(p2) => {
                let (items, e) = spec_parse_pair_list(s, p2);
                if items.len() == 0 {
                    None
                } else {
                    match spec_tag(s, e, tag_rbrace()) {
                        None => None,
                        Some(p3) => Some(
                            (
                                BaseFrameSpec {
                                    position: items.map_values(|t: (Vector3, Quaternion)| t.0),
                                    orientation: items.map_values(
                                        |t: (Vector3, Quaternion)| t.1,
                                    ),
                                },
                                p3,
                            ),
                        ),
                    }
                }
            },
        },
    }
}

/// Parse the `baseframe { … }` block.
pub fn parse_baseframe(s: &[u8], pos: usize) -> (r: Result<(BaseFrame, usize), ParseError>)
    requires
        pos <= s@.len(),
    ensures
        match r {
            Ok((bf, e)) => spec_parse_baseframe(s@, pos as int) == Some((bf@, e as int)) && pos
                < e <= s@.len(),
            Err(er) => spec_parse_baseframe(s@, pos as int) is None,
        },
{
    let tb = arr_baseframe();
    let p1 = match expect_tag(s, pos, tb.as_slice()) {
        Ok(p) => p,
        Err(er) => {
            return Err(er);
        },
    };
    let tl = arr_lbrace();
    let p2 = match expect_tag(s, p1, tl.as_slice()) {
        Ok(p) => p,
        Err(er) => {
            return Err(er);
        },
    };
    let mut posv: Vec<Vector3> = Vec::new();
    let mut oriv: Vec<Quaternion> = Vec::new();
    let mut cur: usize = p2;
    let mut done: bool = false;
    while !done
        invariant
            p2 <= cur <= s@.len(),
            posv@.len() == oriv@.len(),
            spec_parse_pair_list(s@, p2 as int).0.map_values(|t: (Vector3, Quaternion)| t.0)
                == posv@ + spec_parse_pair_list(s@, cur as int).0.map_values(
                |t: (Vector3, Quaternion)| t.0,
            ),
            spec_parse_pair_list(s@, p2 as int).0.map_values(|t: (Vector3, Quaternion)| t.1)
                == oriv@ + spec_parse_pair_list(s@, cur as int).0.map_values(
                |t: (Vector3, Quaternion)| t.1,
            ),
            spec_parse_pair_list(s@, p2 as int).0.len() == posv@.len() + spec_parse_pair_list(
                s@,
                cur as int,
            ).0.len(),
            spec_parse_pair_list(s@, p2 as int).1 == spec_parse_pair_list(s@, cur as int).1,
            done ==> spec_pos_and_orientation(s@, cur as int) is None,
        decreases s@.len() - cur, (if done { 0int } else { 1int }),
    {
        match pos_and_orientation(s, cur) {
            Ok((t, p3)) => {
                proof {
                    let rest = spec_parse_pair_list(s@, p3 as int).0;
                    assert((seq![t] + rest).map_values(|u: (Vector3, Quaternion)| u.0) =~= seq![
                        t.0,
                    ] + rest.map_values(|u: (Vector3, Quaternion)| u.0));
                    assert((seq![t] + rest).map_values(|u: (Vector3, Quaternion)| u.1) =~= seq![
                        t.1,
                    ] + rest.map_values(|u: (Vector3, Quaternion)| u.1));
                    assert(posv@.push(t.0) =~= posv@ + seq![t.0]);
                    assert(oriv@.push(t.1) =~= oriv@ + seq![t.1]);
                    assert((posv@ + seq![t.0]) + rest.map_values(|u: (Vector3, Quaternion)| u.0)
                        =~= posv@ + (seq![t.0] + rest.map_values(
                        |u: (Vector3, Quaternion)| u.0,
                    )));
                    assert((oriv@ + seq![t.1]) + rest.map_values(|u: (Vector3, Quaternion)| u.1)
                        =~= oriv@ + (seq![t.1] + rest.map_values(
                        |u: (Vector3, Quaternion)| u.1,
                    )));
                }
                posv.push(t.0);
                oriv.push(t.1);
                cur = p3;
            },
            Err(_) => {
                done = true;
            },
        }
    }
    proof {
        let emp = Seq::<(Vector3, Quaternion)>::empty();
        assert(emp.map_values(|t: (Vector3, Quaternion)| t.0) =~= Seq::<Vector3>::empty());
        assert(emp.map_values(|t: (Vector3, Quaternion)| t.1) =~= Seq::<Quaternion>::empty());
        assert(posv@ + Seq::<Vector3>::empty() =~= posv@);
        assert(oriv@ + Seq::<Quaternion>::empty() =~= oriv@);
    }
    if posv.len() == 0 {
        return Err(ParseError { kind: ErrorKind::Syntax, pos: cur });
    }
    let tc = arr_rbrace();
    let p3 = match expect_tag(s, cur, tc.as_slice()) {
        Ok(p) => p,
        Err(er) => {
            return Err(er);
        },
    };
    Ok((BaseFrame { position: posv, orientation: oriv }, p3))
}

/// One `frame <n> { … }` block: the frame number and its raw channel
/// values, kept in file order without reinterpretation.
pub open spec fn spec_parse_frame(s: Seq<u8>, pos: int) -> Option<(FrameSpec, int)> {
    match spec_tag(s, pos, tag_frame()) {
        None => None,
        Some(p1) => match spec_parse_u32(s, p1) {
            None => None,
            Some((fnum, p2)) => match spec_tag(s, p2, tag_lbrace()) {
                None => None,
                Some(p3) => {
                    let (vals, e) = spec_parse_dec_list(s, p3);
                    match spec_tag(s, e, tag_rbrace()) {
                        None => None,
                        Some(p4) => Some(
                            (FrameSpec { frame_number: fnum, frame_data: vals }, p4),
                        ),
                    }
                },
            },
        },
    }
}

/// Zero or more decimal literals, in file order.
pub open spec fn spec_parse_dec_list(s: Seq<u8>, pos: int) -> (Seq<Fixed>, int)
    decreases s.len() - pos,
{
    match spec_parse_dec(s, pos) {
        Some((v, p)) => if pos < p <= s.len() {
            let (rest, e) = spec_parse_dec_list(s, p);
            (seq![v] + rest, e)
        } else {
            (Seq::empty(), pos)
        },
        None => (Seq::empty(), pos),
    }
}

/// Parse decimals until one fails to start.
fn parse_dec_list(s: &[u8], pos: usize) -> (r: (Vec<Fixed>, usize))
    requires
        pos <= s@.len(),
    ensures
        spec_parse_dec_list(s@, pos as int).0 == r.0@,
        spec_parse_dec_list(s@, pos as int).1 == r.1 as int,
        pos <= r.1 <= s@.len(),
{
    let mut out: Vec<Fixed> = Vec::new();
    let mut cur: usize = pos;
    let mut done: bool = false;
    while !done
        invariant
            pos <= cur <= s@.len(),
            spec_parse_dec_list(s@, pos as int).0 == out@ + spec_parse_dec_list(
                s@,
                cur as int,
            ).0,
            spec_parse_dec_list(s@, pos as int).1 == spec_parse_dec_list(s@, cur as int).1,
            done ==> spec_parse_dec(s@, cur as int) is None,
        decreases s@.len() - cur, (if done { 0int } else { 1int }),
    {
        match parse_dec(s, cur) {
            Ok((v, p2)) => {
                proof {
                    assert(out@.push(v) =~= out@ + seq![v]);
                    assert((out@ + seq![v]) + spec_parse_dec_list(s@, p2 as int).0 =~= out@ + (
                    seq![v] + spec_parse_dec_list(s@, p2 as int).0));
                }
                out.push(v);
                cur = p2;
            },
            Err(_) => {
                done = true;
            },
        }
    }
    proof {
        assert(out@ + Seq::<Fixed>::empty() =~= out@);
    }
    (out, cur)
}

/// Parse one `frame <n> { … }` block.
pub fn parse_frame(s: &[u8], pos: usize) -> (r: Result<(Frame, usize), ParseError>)
    requires
        pos <= s@.len(),
    ensures
        match r {
            Ok((f, e)) => spec_parse_frame(s@, pos as int) == Some((f@, e as int)) && pos < e
                <= s@.len(),
            Err(er) => spec_parse_frame(s@, pos as int) is None,
        },
{
    let tf = arr_frame();
    let p1 = match expect_tag(s, pos, tf.as_slice()) {
        Ok(p) => p,
        Err(er) => {
            return Err(er);
        },
    };
    let (fnum, p2) = match parse_u32(s, p1) {
        Ok(t) => t,
        Err(er) => {
            return Err(er);
        },
    };
    let tl = arr_lbrace();
    let p3 = match expect_tag(s, p2, tl.as_slice()) {
        Ok(p) => p,
        Err(er) => {
            return Err(er);
        },
    };
    let (vals, e) = parse_dec_list(s, p3);
    let tc = arr_rbrace();
    let p4 = match expect_tag(s, e, tc.as_slice()) {
        Ok(p) => p,
        Err(er) => {
            return Err(er);
        },
    };
    Ok((Frame { frame_number: fnum, frame_data: vals }, p4))
}

/// Zero or more frame blocks, in file order.
pub open spec fn spec_parse_frame_list(s: Seq<u8>, pos: int) -> (Seq<FrameSpec>, int)
    decreases s.len() - pos,
{
    match spec_parse_frame(s, pos) {
        Some((f, p)) => if pos < p <= s.len() {
            let (rest, e) = spec_parse_frame_list(s, p);
            (seq![f] + rest, e)
        } else {
            (Seq::empty(), pos)
        },
        None => (Seq::empty(), pos),
    }
}

/// One or more frame blocks.
pub open spec fn spec_parse_frames(s: Seq<u8>, pos: int) -> Option<(Seq<FrameSpec>, int)> {
    let (items, e) = spec_parse_frame_list(s, pos);
    if items.len() == 0 {
        None
    } else {
        Some((items, e))
    }
}

/// Parse one or more frame blocks.
pub fn parse_frames(s: &[u8], pos: usize) -> (r: Result<(Vec<Frame>, usize), ParseError>)
    requires
        pos <= s@.len(),
    ensures
        match r {
            Ok((fs, e)) => spec_parse_frames(s@, pos as int) == Some(
                (frames_view(fs@), e as int),
            ) && pos <= e <= s@.len(),
            Err(er) => spec_parse_frames(s@, pos as int) is None,
        },
{
    let mut out: Vec<Frame> = Vec::new();
    let mut cur: usize = pos;
    let mut done: bool = false;
    while !done
        invariant
            pos <= cur <= s@.len(),
            spec_parse_frame_list(s@, pos as int).0 == frames_view(out@) + spec_parse_frame_list(
                s@,
                cur as int,
            ).0,
            spec_parse_frame_list(s@, pos as int).1 == spec_parse_frame_list(s@, cur as int).1,
            done ==> spec_parse_frame(s@, cur as int) is None,
        decreases s@.len() - cur, (if done { 0int } else { 1int }),
    {
        match parse_frame(s, cur) {
            Ok((f, p2)) => {
                proof {
                    assert(frames_view(out@.push(f)) =~= frames_view(out@) + seq![f@]);
                    assert((frames_view(out@) + seq![f@]) + spec_parse_frame_list(
                        s@,
                        p2 as int,
                    ).0 =~= frames_view(out@) + (seq![f@] + spec_parse_frame_list(
                        s@,
                        p2 as int,
                    ).0));
                }
                out.push(f);
                cur = p2;
            },
            Err(_) => {
                done = true;
            },
        }
    }
    proof {
        assert(frames_view(out@) + Seq::<FrameSpec>::empty() =~= frames_view(out@));
        assert(frames_view(out@).len() == out@.len());
    }
    if out.len() == 0 {
        return Err(ParseError { kind: ErrorKind::Syntax, pos });
    }
    Ok((out, cur))
}

/// The whole animation document: header, hierarchy, bounds, base
/// frame, frames — and then nothing but whitespace to the end of the
/// input.
pub open spec fn spec_parse_anim(s: Seq<u8>) -> Option<Md5AnimSpec> {
    match spec_parse_header(s, 0) {
        None => None,
        Some((h, p1)) => match spec_parse_hierarchy(s, p1) {
            None => None,
            Some((hs, p2)) => match spec_parse_bounds(s, p2) {
                None => None,
                Some((bs, p3)) => match spec_parse_baseframe(s, p3) {
                    None => None,
                    Some((bf, p4)) => match spec_parse_frames(s, p4) {
                        None => None,
                        Some((fs, p5)) => if spec_skip_ws(s, p5) == s.len() {
                            Some(
                                Md5AnimSpec {
                                    version: h.0,
                                    command_line: h.1,
                                    num_frames: h.2,
                                    num_joints: h.3,
                                    frame_rate: h.4,
                                    num_animated_components: h.5,
                                    hierarchies: hs,
                                    bounds: bs,
                                    base_frame: bf,
                                    frames: fs,
                                },
                            )
                        } else {
                            None
                        },
                    },
                },
            },
        },
    }
}

/// Parse a complete animation document. Succeeds exactly when the
/// grammar matches and nothing but whitespace follows it: trailing
/// bytes are a failure.
pub fn parse_anim(s: &[u8]) -> (r: Result<Md5Anim, ParseError>)
    ensures
        match r {
            Ok(doc) => spec_parse_anim(s@) == Some(doc@),
            Err(er) => spec_parse_anim(s@) is None,
        },
{
    let (h, p1) = match parse_header(s, 0) {
        Ok(t) => t,
        Err(er) => {
            return Err(er);
        },
    };
    let (hs, p2) = match parse_hierarchy(s, p1) {
        Ok(t) => t,
        Err(er) => {
            return Err(er);
        },
    };
    let (bs, p3) = match parse_bounds(s, p2) {
        Ok(t) => t,
        Err(er) => {
            return Err(er);
        },
    };
    let (bf, p4) = match parse_baseframe(s, p3) {
        Ok(t) => t,
        Err(er) => {
            return Err(er);
        },
    };
    let (fs, p5) = match parse_frames(s, p4) {
        Ok(t) => t,
        Err(er) => {
            return Err(er);
        },
    };
    let end = skip_ws(s, p5);
    if end != s.len() {
        return Err(ParseError { kind: ErrorKind::Syntax, pos: end });
    }
    Ok(
        Md5Anim {
            version: h.0,
            command_line: h.1,
            num_frames: h.2,
            num_joints: h.3,
            frame_rate: h.4,
            num_animated_components: h.5,
            hierarchies: hs,
            bounds: bs,
            base_frame: bf,
            frames: fs,
        },
    )
}

} // verus!
