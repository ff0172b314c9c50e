use md5model::fixed::Fixed;
use md5model::format::format_decimal;
use md5model::lexer::{parse_dec, parse_i32, parse_string, parse_u32, ErrorKind};
use md5model::mesh_parser::{self, parse_bias, parse_weight};
use md5model::anim_parser;
use md5model::quaternion::{derived_component, derived_radicand};

fn fxp(mant: i128, exp: u32) -> Fixed {
    Fixed { mant, exp }
}

#[test]
fn decimal_round_trip() {
    // zero-padded input decodes to the exact value 0.001643 and the
    // rendered text decodes back to it
    let (v, rest) = parse_dec(b"000000.001643", 0).unwrap();
    assert_eq!(rest, 13);
    assert_eq!(v, fxp(1643, 6));
    let text = format_decimal(v);
    assert_eq!(text, b"0.001643".to_vec());
    let (v2, rest2) = parse_dec(&text, 0).unwrap();
    assert_eq!(v2, v);
    assert_eq!(rest2, text.len());

    for sample in [
        &b"-0.203020"[..],
        &b"42"[..],
        &b"-7"[..],
        &b"0"[..],
        &b"1.000000"[..],
        &b"123.450"[..],
        &b"0.000000001"[..],
    ] {
        let (w, _) = parse_dec(sample, 0).unwrap();
        let rendered = format_decimal(w);
        let (w2, used) = parse_dec(&rendered, 0).unwrap();
        assert_eq!(w2, w);
        assert_eq!(used, rendered.len());
    }
}

#[test]
fn decimal_formatting_convention() {
    assert_eq!(format_decimal(fxp(0, 0)), b"0".to_vec());
    assert_eq!(format_decimal(fxp(42, 0)), b"42".to_vec());
    assert_eq!(format_decimal(fxp(-20302, 5)), b"-0.20302".to_vec());
    assert_eq!(format_decimal(fxp(312289, 5)), b"3.12289".to_vec());
    assert_eq!(format_decimal(fxp(-1, 0)), b"-1".to_vec());
}

#[test]
fn reconstructed_component_clamps_to_zero() {
    // the stored triple of the first joint of the reference skeleton is
    // over-unit by floating slack: the radicand clamps to exactly zero,
    // and so does the derived component — never a negative or invalid
    // value
    let r = derived_radicand(fxp(-707107, 6), fxp(-242, 6), fxp(-707107, 6));
    assert_eq!(r, fxp(0, 0));
    let c = derived_component(fxp(-707107, 6), fxp(-242, 6), fxp(-707107, 6));
    assert_eq!(c, fxp(0, 0));

    // grossly over-unit triples clamp too
    let r2 = derived_radicand(fxp(2, 0), fxp(0, 0), fxp(0, 0));
    assert_eq!(r2, fxp(0, 0));
    assert!(r2.mant >= 0);

    // within the unit ball the radicand is exact: 1 - 3 * 0.16 = 0.52
    let r3 = derived_radicand(fxp(4, 1), fxp(4, 1), fxp(4, 1));
    assert_eq!(r3, fxp(52, 2));
    // and the component is its nine-place root: sqrt(0.52) = 0.721110255...
    let c3 = derived_component(fxp(4, 1), fxp(4, 1), fxp(4, 1));
    assert_eq!(c3, fxp(721110255, 9));
}

#[test]
fn mesh_lists_sorted_by_declared_index() {
    // declarations in the order [2, 0, 1] decode to [0, 1, 2]
    let block = b"numverts 3
        vert 2 ( 0.5 0.5 ) 4 1
        vert 0 ( 0.125 0.25 ) 0 2
        vert 1 ( 0.75 0.875 ) 2 2";
    let (vs, rest) = mesh_parser::parse_vertices(block, 0).unwrap();
    assert_eq!(rest, block.len());
    assert_eq!(vs.len(), 3);
    assert_eq!(vs[0].index, 0);
    assert_eq!(vs[1].index, 1);
    assert_eq!(vs[2].index, 2);
    assert_eq!(vs[0].start_weight, 0);
    assert_eq!(vs[1].start_weight, 2);
    assert_eq!(vs[2].start_weight, 4);

    let tris = b"numtris 3 tri 1 3 4 5 tri 0 0 1 2 tri 2 6 7 8";
    let (ts, _) = mesh_parser::parse_triangles(tris, 0).unwrap();
    assert_eq!(ts[0].index, 0);
    assert_eq!(ts[0].vertex_indices, (0, 1, 2));
    assert_eq!(ts[1].index, 1);
    assert_eq!(ts[2].index, 2);

    let ws = b"numweights 2 weight 1 0 0.5 ( 0 0 0 ) weight 0 1 0.25 ( 1 1 1 )";
    let (wl, _) = mesh_parser::parse_weights(ws, 0).unwrap();
    assert_eq!(wl[0].index, 0);
    assert_eq!(wl[0].joint_index, 1);
    assert_eq!(wl[1].index, 1);
}

#[test]
fn bias_range_is_enforced() {
    // out-of-range biases are semantic validation failures
    let e = parse_bias(b"1.5", 0).unwrap_err();
    assert_eq!(e.kind, ErrorKind::Semantic);
    let e2 = parse_bias(b"-1.0001", 0).unwrap_err();
    assert_eq!(e2.kind, ErrorKind::Semantic);

    // the closed interval's endpoints are accepted
    let (v, _) = parse_bias(b"1.0", 0).unwrap();
    assert_eq!(v, fxp(1, 0));
    let (w, _) = parse_bias(b"-1.0", 0).unwrap();
    assert_eq!(w, fxp(-1, 0));

    // and so through a whole weight declaration
    let bad = parse_weight(b"weight 0 0 1.5 ( 0 0 0 )", 0).unwrap_err();
    assert_eq!(bad.kind, ErrorKind::Semantic);
    assert!(parse_weight(b"weight 0 0 -1.0 ( 0 0 0 )", 0).is_ok());

    // a comment may trail a weight declaration
    let with_comment = b"weight 0 0 0.5 ( 0 0 0 )\t// note\n";
    let (_, used) = parse_weight(with_comment, 0).unwrap();
    assert_eq!(used, with_comment.len());
}

#[test]
fn mesh_document_scenario() {
    let input = b"MD5Version 10
commandline \"x\"
numJoints 1
numMeshes 1
joints { \"origin\" -1 ( 0 0 0 ) ( 0 0 0 ) }
mesh { shader \"s\" numverts 1 vert 0 ( 0 0 ) 0 1 numtris 1 tri 0 0 0 0 numweights 1 weight 0 0 0.5 ( 0 0 0 ) }
";
    let doc = mesh_parser::parse_md5mesh(input).unwrap();
    assert_eq!(doc.version, 10);
    assert_eq!(doc.command_line, "x");
    assert_eq!(doc.joints.len(), 1);
    let j = &doc.joints[0];
    assert_eq!(j.name, "origin");
    assert_eq!(j.parent_index, -1);
    assert_eq!(j.position.x, fxp(0, 0));
    assert_eq!(j.position.y, fxp(0, 0));
    assert_eq!(j.position.z, fxp(0, 0));
    // stored components all zero: scalar 0, vector (0, 0, 1), the
    // derived third axis component being the square root of 1
    assert_eq!(j.orientation.scal, fxp(0, 0));
    assert_eq!(j.orientation.vec.x, fxp(0, 0));
    assert_eq!(j.orientation.vec.y, fxp(0, 0));
    assert_eq!(j.orientation.vec.z, fxp(1, 0));
    assert_eq!(doc.meshes.len(), 1);
    let m = &doc.meshes[0];
    assert_eq!(m.shader, "s");
    assert_eq!(m.vertices.len(), 1);
    assert_eq!(m.vertices[0].index, 0);
    assert_eq!(m.triangles.len(), 1);
    assert_eq!(m.triangles[0].index, 0);
    assert_eq!(m.weights.len(), 1);
    assert_eq!(m.weights[0].index, 0);
    assert_eq!(m.weights[0].bias, fxp(5, 1));
}

#[test]
fn anim_document_scenario() {
    // the declared counts are consumed, not enforced: one frame with an
    // empty channel list decodes under numAnimatedComponents 0
    let input = b"MD5Version 10
commandline \"x\"
numFrames 1
numJoints 1
frameRate 24
numAnimatedComponents 0
hierarchy { \"origin\" -1 0 0 }
bounds { ( 0 0 0 ) ( 1 1 1 ) }
baseframe { ( 0 0 0 ) ( 0 0 0 ) }
frame 0 { }
";
    let doc = anim_parser::parse_anim(input).unwrap();
    assert_eq!(doc.num_frames, 1);
    assert_eq!(doc.num_joints, 1);
    assert_eq!(doc.frame_rate, 24);
    assert_eq!(doc.num_animated_components, 0);
    assert_eq!(doc.hierarchies.len(), 1);
    assert_eq!(doc.bounds.len(), 1);
    assert_eq!(doc.base_frame.position.len(), 1);
    assert_eq!(doc.base_frame.orientation.len(), 1);
    assert_eq!(doc.frames.len(), 1);
    assert_eq!(doc.frames[0].frame_number, 0);
    assert!(doc.frames[0].frame_data.is_empty());
}

#[test]
fn trailing_bytes_fail_the_document() {
    let good = b"MD5Version 10
commandline \"x\"
numJoints 0
numMeshes 0
joints { }
";
    assert!(mesh_parser::parse_md5mesh(good).is_ok());

    let stray = b"MD5Version 10
commandline \"x\"
numJoints 0
numMeshes 0
joints { }
garbage";
    assert!(mesh_parser::parse_md5mesh(stray).is_err());

    let anim_stray = b"MD5Version 10
commandline \"x\"
numFrames 1
numJoints 1
frameRate 24
numAnimatedComponents 0
hierarchy { \"origin\" -1 0 0 }
bounds { ( 0 0 0 ) ( 1 1 1 ) }
baseframe { ( 0 0 0 ) ( 0 0 0 ) }
frame 0 { }
extra";
    assert!(anim_parser::parse_anim(anim_stray).is_err());
}

#[test]
fn primitive_failure_modes() {
    // a digit run that does not fit the width is a numeric failure
    let e = parse_u32(b"4294967296", 0).unwrap_err();
    assert_eq!(e.kind, ErrorKind::Numeric);
    // the digits are read as a positive number before the sign is
    // applied, so the most negative value is rejected too
    assert!(parse_i32(b"-2147483648", 0).is_err());
    let (n, _) = parse_i32(b"-2147483647", 0).unwrap();
    assert_eq!(n, -2147483647);
    // whitespace may separate the sign from its digits
    let (m, _) = parse_i32(b"- 5", 0).unwrap();
    assert_eq!(m, -5);

    // more than nine fractional digits does not fit the scalar
    let d = parse_dec(b"0.0123456789", 0).unwrap_err();
    assert_eq!(d.kind, ErrorKind::Numeric);

    // an unterminated string is incomplete input
    let s = parse_string(b"\"abc", 0).unwrap_err();
    assert_eq!(s.kind, ErrorKind::Incomplete);
    // a string takes its bytes verbatim up to the closing quote
    let (t, used) = parse_string(b" \"a b\tc\" tail", 0).unwrap();
    assert_eq!(t, "a b\tc");
    assert_eq!(used, 8);

    // a missing digit after a consumed sign fails without a value
    assert!(parse_i32(b"-x", 0).is_err());
    assert!(parse_dec(b"-.5", 0).is_err());

    // a decimal point with no digits after it ends the literal
    let (v, used2) = parse_dec(b"5.", 0).unwrap();
    assert_eq!(v, fxp(5, 0));
    assert_eq!(used2, 1);

    // a missing token is a structural failure
    let g = parse_u32(b"abc", 0).unwrap_err();
    assert_eq!(g.kind, ErrorKind::Syntax);
}

#[test]
fn string_contents_are_decoded_text() {
    // a two-byte sequence decodes to one character, not two
    let (t, _) = parse_string(b"\"caf\xc3\xa9\"", 0).unwrap();
    assert_eq!(t, "caf\u{e9}");
    assert_eq!(t.chars().count(), 4);

    // bytes that are not valid text are rejected
    assert!(parse_string(b"\"\xff\"", 0).is_err());
}
