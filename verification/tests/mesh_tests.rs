use md5model::fixed::Fixed;
use md5model::mesh_parser::{self, Joint, Md5Mesh, Mesh, Triangle, Vertex, Weight};
use md5model::quaternion::Quaternion;
use md5model::vector2::Vector2;
use md5model::vector3::Vector3;

fn fx(mant: i128, exp: u32) -> Fixed {
    Fixed { mant, exp }
}

fn v3(x: Fixed, y: Fixed, z: Fixed) -> Vector3 {
    Vector3 { x, y, z }
}

#[test]
fn md5mesh_parser_parse_header() {
    let string = b"MD5Version 10
            commandline \"Exported from Blender by io_export_md5.py by Paul Zirkle\"";

    let header = (
        10u32,
        String::from("Exported from Blender by io_export_md5.py by Paul Zirkle"),
    );
    let (got, rest) = mesh_parser::parse_header(string, 0).unwrap();
    assert_eq!(got, header);
    assert_eq!(rest, string.len());
}

#[test]
fn parse_joints() {
    let string = b"joints {
            \t\"origin\"\t-1 ( -0.000000 0.001643 -0.000604 ) ( -0.707107 -0.000242 -0.707107 )\t\t// comment
            \t\"sheath\"\t0 ( 1.100481 -0.317714 3.170247 ) ( 0.307041 -0.578615 0.354181 )\t\t// comment
              }";

    let joint1 = Joint {
        name: String::from("origin"),
        parent_index: -1,
        position: v3(fx(0, 0), fx(1643, 6), fx(-604, 6)),
        orientation: Quaternion {
            scal: fx(-707107, 6),
            // the stored triple is over-unit by floating slack, so the
            // derived component's radicand clamps to exactly zero
            vec: v3(fx(-242, 6), fx(-707107, 6), fx(0, 0)),
        },
    };

    let joint2 = Joint {
        name: String::from("sheath"),
        parent_index: 0,
        position: v3(fx(1100481, 6), fx(-317714, 6), fx(3170247, 6)),
        orientation: Quaternion {
            scal: fx(307041, 6),
            // sqrt(1 - a^2 - b^2 - c^2) = sqrt(0.445486325333), whose
            // nine-place floor is 0.667447619
            vec: v3(fx(-578615, 6), fx(354181, 6), fx(667447619, 9)),
        },
    };

    let (got, rest) = mesh_parser::parse_joints(string, 0).unwrap();
    assert_eq!(got, vec![joint1, joint2]);
    assert_eq!(rest, string.len());
}

#[test]
fn parse_vertex() {
    let string = b"vert 0 ( 0.683594 0.455078 ) 0 3";

    let vertex = Vertex {
        index: 0,
        tex_coords: Vector2 { x: fx(683594, 6), y: fx(455078, 6) },
        start_weight: 0,
        weight_count: 3,
    };

    let (got, rest) = mesh_parser::parse_vertex(string, 0).unwrap();
    assert_eq!(got, vertex);
    assert_eq!(rest, string.len());
}

#[test]
fn parse_mesh() {
    let string = b"mesh {
                shader \"bob_body\"

                numverts 1
                vert 0 ( 0.683594 0.455078 ) 0 3

                numtris 628
            \ttri 0 0 2 1

                numweights 859
                weight 0 16 0.333333 ( -0.194917 0.111128 -0.362937 )
            }";

    let vertex = Vertex {
        index: 0,
        tex_coords: Vector2 { x: fx(683594, 6), y: fx(455078, 6) },
        start_weight: 0,
        weight_count: 3,
    };

    let triangle = Triangle { index: 0, vertex_indices: (0, 2, 1) };

    let weight = Weight {
        index: 0,
        joint_index: 16,
        bias: fx(333333, 6),
        position: v3(fx(-194917, 6), fx(111128, 6), fx(-362937, 6)),
    };

    let mesh = Mesh {
        shader: String::from("bob_body"),
        vertices: vec![vertex],
        triangles: vec![triangle],
        weights: vec![weight],
    };

    let (got, rest) = mesh_parser::parse_mesh(string, 0).unwrap();
    assert_eq!(got, mesh);
    assert_eq!(rest, string.len());
}

#[test]
fn parse_md5mesh() {
    let string = b"MD5Version 10
            commandline \"Exported from Blender by io_export_md5.py by Paul Zirkle\"

            numJoints 33
            numMeshes 6

            joints {
            \t\"origin\"\t-1 ( -0.000000 0.001643 -0.000604 ) ( -0.707107 -0.000242 -0.707107 )\t\t//comment
            }

            mesh {
                shader \"bob_body\"

                numverts 1
                vert 0 ( 0.683594 0.455078 ) 0 3

                numtris 1
                tri 0 0 2 1

                numweights 1
                weight 0 16 0.333333 ( -0.194917 0.111128 -0.362937 )
            }

            ";

    let joint = Joint {
        name: String::from("origin"),
        parent_index: -1,
        position: v3(fx(0, 0), fx(1643, 6), fx(-604, 6)),
        orientation: Quaternion {
            scal: fx(-707107, 6),
            vec: v3(fx(-242, 6), fx(-707107, 6), fx(0, 0)),
        },
    };

    let vertex = Vertex {
        index: 0,
        tex_coords: Vector2 { x: fx(683594, 6), y: fx(455078, 6) },
        start_weight: 0,
        weight_count: 3,
    };

    let triangle = Triangle { index: 0, vertex_indices: (0, 2, 1) };

    let weight = Weight {
        index: 0,
        joint_index: 16,
        bias: fx(333333, 6),
        position: v3(fx(-194917, 6), fx(111128, 6), fx(-362937, 6)),
    };

    let mesh = Mesh {
        shader: String::from("bob_body"),
        vertices: vec![vertex],
        triangles: vec![triangle],
        weights: vec![weight],
    };

    let md5mesh = Md5Mesh {
        version: 10,
        command_line: String::from("Exported from Blender by io_export_md5.py by Paul Zirkle"),
        joints: vec![joint],
        meshes: vec![mesh],
    };

    assert_eq!(mesh_parser::parse_md5mesh(string).unwrap(), md5mesh);
}
