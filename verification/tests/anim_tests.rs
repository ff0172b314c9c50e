use md5model::anim_parser::{self, BaseFrame, Bound, Frame, Joint, Md5Anim};
use md5model::fixed::Fixed;
use md5model::quaternion::Quaternion;
use md5model::vector3::Vector3;

fn fxa(mant: i128, exp: u32) -> Fixed {
    Fixed { mant, exp }
}

fn v3a(x: Fixed, y: Fixed, z: Fixed) -> Vector3 {
    Vector3 { x, y, z }
}

fn frame_values() -> Vec<Fixed> {
    vec![
        fxa(1643, 6),
        fxa(-604, 6),
        fxa(-707107, 6),
        fxa(-242, 6),
        fxa(-707107, 6),
        fxa(312289, 5),
        fxa(625194, 6),
        fxa(923663, 6),
        fxa(22398, 6),
        fxa(-133633, 6),
        fxa(-852234, 6),
        fxa(386, 6),
        fxa(-1102681, 6),
        fxa(1009, 5),
        fxa(-1203, 6),
        fxa(819, 6),
        fxa(-1678, 6),
        fxa(2600285, 6),
        fxa(-20302, 5),
        fxa(1408, 6),
        fxa(75074, 5),
    ]
}

#[test]
fn md5anim_parser_parse_header() {
    let string = b"MD5Version 10
        commandline \"Exported from Blender by io_export_md5.py by Paul Zirkle\"

        numFrames 141
        numJoints 33
        frameRate 24
        numAnimatedComponents 198";
    let header = (
        10,
        String::from("Exported from Blender by io_export_md5.py by Paul Zirkle"),
        141,
        33,
        24,
        198,
    );
    let (got, rest) = anim_parser::parse_header(string, 0).unwrap();
    assert_eq!(got, header);
    assert_eq!(rest, string.len());
}

#[test]
fn parse_joint() {
    let string = b"\"origin\"\t-1 63 0\t//\n";
    let joint = Joint { name: String::from("origin"), index: -1, flag: 63, start_index: 0 };
    let (got, rest) = anim_parser::parse_joint(string, 0).unwrap();
    assert_eq!(got, joint);
    assert_eq!(rest, string.len());
}

#[test]
fn parse_hierarchy() {
    let string = b"hierarchy {
        \"origin\"\t-1 63 0\t//
        \"sheath\"\t0 63 6\t// origin
        \"sword\"\t1 63 12\t// sheath
        }";
    let mut res = Vec::new();
    res.push(Joint { name: String::from("origin"), index: -1, flag: 63, start_index: 0 });
    res.push(Joint { name: String::from("sheath"), index: 0, flag: 63, start_index: 6 });
    res.push(Joint { name: String::from("sword"), index: 1, flag: 63, start_index: 12 });
    let (got, rest) = anim_parser::parse_hierarchy(string, 0).unwrap();
    assert_eq!(got, res);
    assert_eq!(rest, string.len());
}

#[test]
fn parse_bound() {
    let string = b"\t( -1.634066 -1.634066 -1.634066 ) ( -1.634066 6.444685 5.410537 )";
    let b = Bound {
        bound_min: v3a(fxa(-1634066, 6), fxa(-1634066, 6), fxa(-1634066, 6)),
        bound_max: v3a(fxa(-1634066, 6), fxa(6444685, 6), fxa(5410537, 6)),
    };
    let (got, rest) = anim_parser::parse_bound(string, 0).unwrap();
    assert_eq!(got, b);
    assert_eq!(rest, string.len());
}

#[test]
fn parse_bounds() {
    let string = b"bounds {
        ( -1.634066 -1.634066 -1.634066 ) ( -1.634066 6.444685 5.410537 )
        ( -1.634381 -1.634381 -1.634381 ) ( -1.634381 6.444589 5.410597 )
        ( -1.634190 -1.634190 -1.634190 ) ( -1.634190 6.444603 5.410734 )
        }";
    let mut bounds = Vec::new();
    bounds.push(Bound {
        bound_min: v3a(fxa(-1634066, 6), fxa(-1634066, 6), fxa(-1634066, 6)),
        bound_max: v3a(fxa(-1634066, 6), fxa(6444685, 6), fxa(5410537, 6)),
    });
    bounds.push(Bound {
        bound_min: v3a(fxa(-1634381, 6), fxa(-1634381, 6), fxa(-1634381, 6)),
        bound_max: v3a(fxa(-1634381, 6), fxa(6444589, 6), fxa(5410597, 6)),
    });
    bounds.push(Bound {
        bound_min: v3a(fxa(-163419, 5), fxa(-163419, 5), fxa(-163419, 5)),
        bound_max: v3a(fxa(-163419, 5), fxa(6444603, 6), fxa(5410734, 6)),
    });
    let (got, rest) = anim_parser::parse_bounds(string, 0).unwrap();
    assert_eq!(got, bounds);
    assert_eq!(rest, string.len());
}

#[test]
fn pos_and_orientation() {
    let string = b"
\t    ( 3.122890 0.625194 0.923663 ) ( -0.022398 0.133633 0.852234 )";

    let l = (
        v3a(fxa(312289, 5), fxa(625194, 6), fxa(923663, 6)),
        Quaternion {
            scal: fxa(-22398, 6),
            // sqrt(1 - a^2 - b^2 - c^2) = sqrt(0.255337760151), whose
            // nine-place floor is 0.505309568
            vec: v3a(fxa(133633, 6), fxa(852234, 6), fxa(505309568, 9)),
        },
    );
    let (got, rest) = anim_parser::pos_and_orientation(string, 0).unwrap();
    assert_eq!(got, l);
    assert_eq!(rest, string.len());
}

#[test]
fn parse_baseframe() {
    let string = b"baseframe {
        ( 3.122890 0.625194 0.923663 ) ( -0.022398 0.133633 0.852234 )
        ( 0.000386 -1.102681 0.010090 ) ( 0.001203 -0.000819 0.001678 )
        }";
    let mut position_vector = Vec::new();
    let mut orientation_vector = Vec::new();

    position_vector.push(v3a(fxa(312289, 5), fxa(625194, 6), fxa(923663, 6)));
    position_vector.push(v3a(fxa(386, 6), fxa(-1102681, 6), fxa(1009, 5)));

    orientation_vector.push(Quaternion {
        scal: fxa(-22398, 6),
        vec: v3a(fxa(133633, 6), fxa(852234, 6), fxa(505309568, 9)),
    });
    orientation_vector.push(Quaternion {
        scal: fxa(1203, 6),
        // sqrt(1 - a^2 - b^2 - c^2) = sqrt(0.999995066346), whose
        // nine-place floor is 0.999997533
        vec: v3a(fxa(-819, 6), fxa(1678, 6), fxa(999997533, 9)),
    });

    let r = BaseFrame { position: position_vector, orientation: orientation_vector };

    let (got, rest) = anim_parser::parse_baseframe(string, 0).unwrap();
    assert_eq!(got, r);
    assert_eq!(rest, string.len());
}

#[test]
fn parse_frame() {
    let string = b"frame 0 {
        000000.001643 -0.000604 -0.707107 -0.000242 -0.707107
        3.122890 0.625194 0.923663 0.022398 -0.133633 -0.852234
        0.000386 -1.102681 0.010090 -0.001203 0.000819 -0.001678
        2.600285 -0.203020 0.001408 0.750740
        }";
    let frame = Frame { frame_number: 0, frame_data: frame_values() };

    let (got, rest) = anim_parser::parse_frame(string, 0).unwrap();
    assert_eq!(got, frame);
    assert_eq!(rest, string.len());
}

#[test]
fn parse_frames() {
    let string = b"frame 0 {
        000000.001643 -0.000604 -0.707107 -0.000242 -0.707107
        3.122890 0.625194 0.923663 0.022398 -0.133633 -0.852234
        0.000386 -1.102681 0.010090 -0.001203 0.000819 -0.001678
        2.600285 -0.203020 0.001408 0.750740
        }

        frame 1 {
        000000.001643 -0.000604 -0.707107 -0.000242 -0.707107
        3.122890 0.625194 0.923663 0.022398 -0.133633 -0.852234
        0.000386 -1.102681 0.010090 -0.001203 0.000819 -0.001678
        2.600285 -0.203020 0.001408 0.750740
        }

        frame 2 {
        000000.001643 -0.000604 -0.707107 -0.000242 -0.707107
        3.122890 0.625194 0.923663 0.022398 -0.133633 -0.852234
        0.000386 -1.102681 0.010090 -0.001203 0.000819 -0.001678
        2.600285 -0.203020 0.001408 0.750740
        }";
    let r = vec![
        Frame { frame_number: 0, frame_data: frame_values() },
        Frame { frame_number: 1, frame_data: frame_values() },
        Frame { frame_number: 2, frame_data: frame_values() },
    ];

    let (got, rest) = anim_parser::parse_frames(string, 0).unwrap();
    assert_eq!(got, r);
    assert_eq!(rest, string.len());
}

#[test]
fn parse_anim() {
    let string = b"MD5Version 10
        commandline \"Exported from Blender by io_export_md5.py by Paul Zirkle\"

        numFrames 141
        numJoints 33
        frameRate 24
        numAnimatedComponents 198

        hierarchy {
        \"origin\"\t-1 63 0\t//
        \"sheath\"\t0 63 6\t// origin
        \"sword\"\t1 63 12\t// sheath
        }

        bounds {
        ( -1.634066 -1.634066 -1.634066 ) ( -1.634066 6.444685 5.410537 )
        ( -1.634381 -1.634381 -1.634381 ) ( -1.634381 6.444589 5.410597 )
        ( -1.634190 -1.634190 -1.634190 ) ( -1.634190 6.444603 5.410734 )
        }

        baseframe {
        ( 3.122890 0.625194 0.923663 ) ( -0.022398 0.133633 0.852234 )
        ( 0.000386 -1.102681 0.010090 ) ( 0.001203 -0.000819 0.001678 )
        }

        frame 0 {
        000000.001643 -0.000604 -0.707107 -0.000242 -0.707107
        3.122890 0.625194 0.923663 0.022398 -0.133633 -0.852234
        0.000386 -1.102681 0.010090 -0.001203 0.000819 -0.001678
        2.600285 -0.203020 0.001408 0.750740
        }

        frame 1 {
        000000.001643 -0.000604 -0.707107 -0.000242 -0.707107
        3.122890 0.625194 0.923663 0.022398 -0.133633 -0.852234
        0.000386 -1.102681 0.010090 -0.001203 0.000819 -0.001678
        2.600285 -0.203020 0.001408 0.750740
        }

        frame 2 {
        000000.001643 -0.000604 -0.707107 -0.000242 -0.707107
        3.122890 0.625194 0.923663 0.022398 -0.133633 -0.852234
        0.000386 -1.102681 0.010090 -0.001203 0.000819 -0.001678
        2.600285 -0.203020 0.001408 0.750740
        }
        ";

    let mut hierarchy = Vec::new();
    let mut bounds = Vec::new();
    let mut position_vector = Vec::new();
    let mut orientation_vector = Vec::new();

    hierarchy.push(Joint { name: String::from("origin"), index: -1, flag: 63, start_index: 0 });
    hierarchy.push(Joint { name: String::from("sheath"), index: 0, flag: 63, start_index: 6 });
    hierarchy.push(Joint { name: String::from("sword"), index: 1, flag: 63, start_index: 12 });

    bounds.push(Bound {
        bound_min: v3a(fxa(-1634066, 6), fxa(-1634066, 6), fxa(-1634066, 6)),
        bound_max: v3a(fxa(-1634066, 6), fxa(6444685, 6), fxa(5410537, 6)),
    });
    bounds.push(Bound {
        bound_min: v3a(fxa(-1634381, 6), fxa(-1634381, 6), fxa(-1634381, 6)),
        bound_max: v3a(fxa(-1634381, 6), fxa(6444589, 6), fxa(5410597, 6)),
    });
    bounds.push(Bound {
        bound_min: v3a(fxa(-163419, 5), fxa(-163419, 5), fxa(-163419, 5)),
        bound_max: v3a(fxa(-163419, 5), fxa(6444603, 6), fxa(5410734, 6)),
    });

    position_vector.push(v3a(fxa(312289, 5), fxa(625194, 6), fxa(923663, 6)));
    position_vector.push(v3a(fxa(386, 6), fxa(-1102681, 6), fxa(1009, 5)));

    orientation_vector.push(Quaternion {
        scal: fxa(-22398, 6),
        vec: v3a(fxa(133633, 6), fxa(852234, 6), fxa(505309568, 9)),
    });
    orientation_vector.push(Quaternion {
        scal: fxa(1203, 6),
        vec: v3a(fxa(-819, 6), fxa(1678, 6), fxa(999997533, 9)),
    });
    let baseframe = BaseFrame { position: position_vector, orientation: orientation_vector };

    let frames = vec![
        Frame { frame_number: 0, frame_data: frame_values() },
        Frame { frame_number: 1, frame_data: frame_values() },
        Frame { frame_number: 2, frame_data: frame_values() },
    ];

    let res = Md5Anim {
        version: 10,
        command_line: String::from("Exported from Blender by io_export_md5.py by Paul Zirkle"),
        num_frames: 141,
        num_joints: 33,
        frame_rate: 24,
        num_animated_components: 198,
        hierarchies: hierarchy,
        bounds: bounds,
        base_frame: baseframe,
        frames: frames,
    };

    assert_eq!(anim_parser::parse_anim(string).unwrap(), res);
}
