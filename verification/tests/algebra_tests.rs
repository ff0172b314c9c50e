use md5model::fixed::Fixed;
use md5model::quaternion::{derived_component, derived_radicand, Quaternion};
use md5model::vector2::Vector2;
use md5model::vector3::Vector3;

fn fxq(mant: i128, exp: u32) -> Fixed {
    Fixed { mant, exp }
}

#[test]
fn add_quaterions() {
    let q1 = Quaternion {
        scal: fxq(1, 0),
        vec: Vector3 { x: fxq(1, 0), y: fxq(1, 0), z: fxq(1, 0) },
    };

    let q2 = Quaternion {
        scal: fxq(1, 0),
        vec: Vector3 { x: fxq(1, 0), y: fxq(1, 0), z: fxq(1, 0) },
    };

    let q3 = Quaternion {
        scal: fxq(0, 0),
        vec: Vector3 { x: fxq(0, 0), y: fxq(0, 0), z: fxq(0, 0) },
    };
    assert_eq!(q1.sub(q2), q3);
}

#[test]
fn vector_arithmetic_is_exact() {
    // one tenth plus two tenths is exactly three tenths
    let a = Vector2 { x: fxq(1, 1), y: fxq(2, 1) };
    let b = Vector2 { x: fxq(2, 1), y: fxq(1, 1) };
    let s = a.add(b);
    assert_eq!(s, Vector2 { x: fxq(3, 1), y: fxq(3, 1) });

    // (1.5, 2) . (2, 0.5) = 3 + 1 = 4
    let u = Vector2 { x: fxq(15, 1), y: fxq(2, 0) };
    let v = Vector2 { x: fxq(2, 0), y: fxq(5, 1) };
    assert_eq!(u.dot(v), fxq(4, 0));

    let w = Vector2 { x: fxq(15, 1), y: fxq(-2, 0) };
    assert_eq!(
        w.scale(fxq(5, 1)),
        Vector2 { x: fxq(75, 2), y: fxq(-1, 0) }
    );
}

#[test]
fn cross_product_components() {
    // the standard basis identity: x cross y = z
    let u = Vector3 { x: fxq(1, 0), y: fxq(0, 0), z: fxq(0, 0) };
    let v = Vector3 { x: fxq(0, 0), y: fxq(1, 0), z: fxq(0, 0) };
    let c = u.cross(v);
    assert_eq!(c, Vector3 { x: fxq(0, 0), y: fxq(0, 0), z: fxq(1, 0) });
    // and anticommutation on the same pair
    assert_eq!(
        v.cross(u),
        Vector3 { x: fxq(0, 0), y: fxq(0, 0), z: fxq(-1, 0) }
    );

    let d = Vector3 { x: fxq(1, 0), y: fxq(2, 0), z: fxq(3, 0) };
    let e = Vector3 { x: fxq(4, 0), y: fxq(5, 0), z: fxq(6, 0) };
    // (2*6 - 3*5, 3*4 - 1*6, 1*5 - 2*4) = (-3, 6, -3)
    assert_eq!(
        d.cross(e),
        Vector3 { x: fxq(-3, 0), y: fxq(6, 0), z: fxq(-3, 0) }
    );
    assert_eq!(d.dot(e), fxq(32, 0));
    // a vector crossed with itself vanishes
    assert_eq!(
        d.cross(d),
        Vector3 { x: fxq(0, 0), y: fxq(0, 0), z: fxq(0, 0) }
    );
}

#[test]
fn hamilton_product_preserves_unit_norm() {
    // two exactly-unit quaternions: 0.6^2 + 0.8^2 = 1
    let p = Quaternion {
        scal: fxq(6, 1),
        vec: Vector3 { x: fxq(8, 1), y: fxq(0, 0), z: fxq(0, 0) },
    };
    let q = Quaternion {
        scal: fxq(6, 1),
        vec: Vector3 { x: fxq(0, 0), y: fxq(8, 1), z: fxq(0, 0) },
    };
    let r = p.mul(q);
    assert_eq!(r.scal, fxq(36, 2));
    assert_eq!(r.vec.x, fxq(48, 2));
    assert_eq!(r.vec.y, fxq(48, 2));
    assert_eq!(r.vec.z, fxq(64, 2));
    // 0.36^2 + 0.48^2 + 0.48^2 + 0.64^2 = 1, exactly
    let norm2 = r
        .scal
        .mul(r.scal)
        .add(r.vec.x.mul(r.vec.x))
        .add(r.vec.y.mul(r.vec.y))
        .add(r.vec.z.mul(r.vec.z));
    assert_eq!(norm2, fxq(1, 0));
}

#[test]
fn quaternion_product_squares_to_minus_one() {
    let i = Quaternion {
        scal: fxq(0, 0),
        vec: Vector3 { x: fxq(1, 0), y: fxq(0, 0), z: fxq(0, 0) },
    };
    let p = i.mul(i);
    assert_eq!(
        p,
        Quaternion {
            scal: fxq(-1, 0),
            vec: Vector3 { x: fxq(0, 0), y: fxq(0, 0), z: fxq(0, 0) },
        }
    );
}

#[test]
fn derived_radicand_is_exact() {
    // 1 - 0.25 - 0.25 - 0.25 = 0.25
    let r = derived_radicand(fxq(5, 1), fxq(5, 1), fxq(5, 1));
    assert_eq!(r, fxq(25, 2));

    // all components zero: the radicand, and the derived component, are one
    assert_eq!(derived_radicand(fxq(0, 0), fxq(0, 0), fxq(0, 0)), fxq(1, 0));
}

#[test]
fn derived_component_is_the_root() {
    // a radicand whose root is a nine-place decimal comes out exact:
    // sqrt(1 - 3 * 0.25) = sqrt(0.25) = 0.5
    assert_eq!(derived_component(fxq(5, 1), fxq(5, 1), fxq(5, 1)), fxq(5, 1));
    assert_eq!(derived_component(fxq(0, 0), fxq(0, 0), fxq(0, 0)), fxq(1, 0));
    // over-unit stored triples clamp to a component of exactly zero
    assert_eq!(derived_component(fxq(2, 0), fxq(0, 0), fxq(0, 0)), fxq(0, 0));
    // an irrational root is floored to nine places:
    // sqrt(1 - 0.25) = sqrt(0.75) = 0.866025403...
    assert_eq!(
        derived_component(fxq(5, 1), fxq(0, 0), fxq(0, 0)),
        fxq(866025403, 9)
    );
}
