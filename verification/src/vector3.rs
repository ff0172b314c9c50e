//! Spatial vectors over exact decimal scalars.

use vstd::prelude::*;
use crate::fixed::{
    Fixed, Rat, lemma_addsub_mant_bound, lemma_fixed_add_ok, lemma_fixed_mul_ok,
    lemma_prod_mant_bound, lemma_rat_eq_trans, lemma_represents_eq, lemma_rq_add_cong,
    rat_of, represents, rq_add, rq_mul, rq_sub, small, val_bound,
};
use crate::vector2::lemma_alg_caps;

verus! {

/// An ordered triple of exact decimal coordinates.
#[derive(Clone, Copy, Debug, PartialEq, Eq)]
pub struct Vector3 {
    pub x: Fixed,
    pub y: Fixed,
    pub z: Fixed,
}

/// The exact rational value of a spatial dot product.
pub open spec fn rq_dot3(u: Vector3, v: Vector3) -> Rat {
    rq_add(
        rq_add(rq_mul(rat_of(u.x), rat_of(v.x)), rq_mul(rat_of(u.y), rat_of(v.y))),
        rq_mul(rat_of(u.z), rat_of(v.z)),
    )
}

/// First component of the cross product, `y z' - z y'`.
pub open spec fn rq_cross_x(u: Vector3, v: Vector3) -> Rat {
    rq_sub(rq_mul(rat_of(u.y), rat_of(v.z)), rq_mul(rat_of(u.z), rat_of(v.y)))
}

/// Second component of the cross product, `z x' - x z'`.
pub open spec fn rq_cross_y(u: Vector3, v: Vector3) -> Rat {
    rq_sub(rq_mul(rat_of(u.z), rat_of(v.x)), rq_mul(rat_of(u.x), rat_of(v.z)))
}

/// Third component of the cross product, `x y' - y x'`.
pub open spec fn rq_cross_z(u: Vector3, v: Vector3) -> Rat {
    rq_sub(rq_mul(rat_of(u.x), rat_of(v.y)), rq_mul(rat_of(u.y), rat_of(v.x)))
}

impl Vector3 {
    /// All three coordinates are well-formed scalars.
    pub open spec fn wf(self) -> bool {
        self.x.wf() && self.y.wf() && self.z.wf()
    }

    /// Coordinates within the range the exact arithmetic supports:
    /// magnitude at most a million, at most six decimal places (the
    /// conventional shape of the formats' literals; the parsers also
    /// accept seven-to-nine-place scalars, which this envelope
    /// excludes for multiplication headroom).
    pub open spec fn in_range(self) -> bool {
        small(self.x, 1000000) && small(self.y, 1000000) && small(self.z, 1000000)
    }

    /// Componentwise exact sum.
    pub fn add(self, rhs: Vector3) -> (r: Vector3)
        requires
            self.in_range(),
            rhs.in_range(),
        ensures
            represents(r.x, rq_add(rat_of(self.x), rat_of(rhs.x))),
            represents(r.y, rq_add(rat_of(self.y), rat_of(rhs.y))),
            represents(r.z, rq_add(rat_of(self.z), rat_of(rhs.z))),
            val_bound(r.x, 2000000, 6),
            val_bound(r.y, 2000000, 6),
            val_bound(r.z, 2000000, 6),
    {
        proof {
            lemma_alg_caps();
            lemma_fixed_add_ok(self.x, rhs.x, 1000000, 6);
            lemma_fixed_add_ok(self.y, rhs.y, 1000000, 6);
            lemma_fixed_add_ok(self.z, rhs.z, 1000000, 6);
        }
        let r = Vector3 { x: self.x.add(rhs.x), y: self.y.add(rhs.y), z: self.z.add(rhs.z) };
        proof {
            lemma_addsub_mant_bound(self.x, rhs.x, r.x, 1000000, 1000000);
            lemma_addsub_mant_bound(self.y, rhs.y, r.y, 1000000, 1000000);
            lemma_addsub_mant_bound(self.z, rhs.z, r.z, 1000000, 1000000);
        }
        r
    }

    /// Componentwise exact difference.
    pub fn sub(self, rhs: Vector3) -> (r: Vector3)
        requires
            self.in_range(),
            rhs.in_range(),
        ensures
            represents(r.x, rq_sub(rat_of(self.x), rat_of(rhs.x))),
            represents(r.y, rq_sub(rat_of(self.y), rat_of(rhs.y))),
            represents(r.z, rq_sub(rat_of(self.z), rat_of(rhs.z))),
            val_bound(r.x, 2000000, 6),
            val_bound(r.y, 2000000, 6),
            val_bound(r.z, 2000000, 6),
    {
        proof {
            lemma_alg_caps();
            lemma_fixed_add_ok(self.x, rhs.x, 1000000, 6);
            lemma_fixed_add_ok(self.y, rhs.y, 1000000, 6);
            lemma_fixed_add_ok(self.z, rhs.z, 1000000, 6);
        }
        let r = Vector3 { x: self.x.sub(rhs.x), y: self.y.sub(rhs.y), z: self.z.sub(rhs.z) };
        proof {
            lemma_addsub_mant_bound(self.x, rhs.x, r.x, 1000000, 1000000);
            lemma_addsub_mant_bound(self.y, rhs.y, r.y, 1000000, 1000000);
            lemma_addsub_mant_bound(self.z, rhs.z, r.z, 1000000, 1000000);
        }
        r
    }

    /// Exact dot product `x x' + y y' + z z'`.
    pub fn dot(self, rhs: Vector3) -> (r: Fixed)
        requires
            self.in_range(),
            rhs.in_range(),
        ensures
            represents(r, rq_dot3(self, rhs)),
            val_bound(r, 3000000000000, 12),
    {
        proof {
            lemma_alg_caps();
            lemma_fixed_mul_ok(self.x, rhs.x, 1000000, 6);
            lemma_fixed_mul_ok(self.y, rhs.y, 1000000, 6);
            lemma_fixed_mul_ok(self.z, rhs.z, 1000000, 6);
        }
        let t1 = self.x.mul(rhs.x);
        let t2 = self.y.mul(rhs.y);
        let t3 = self.z.mul(rhs.z);
        proof {
            lemma_prod_mant_bound(self.x, rhs.x, t1, 1000000, 1000000);
            lemma_prod_mant_bound(self.y, rhs.y, t2, 1000000, 1000000);
            lemma_prod_mant_bound(self.z, rhs.z, t3, 1000000, 1000000);
            lemma_fixed_add_ok(t1, t2, 1000000000000, 12);
        }
        let s1 = t1.add(t2);
        proof {
            lemma_addsub_mant_bound(t1, t2, s1, 1000000000000, 1000000000000);
            lemma_fixed_add_ok(s1, t3, 3000000000000, 12);
        }
        let r = s1.add(t3);
        proof {
            lemma_addsub_mant_bound(s1, t3, r, 2000000000000, 1000000000000);
            let mx = rq_mul(rat_of(self.x), rat_of(rhs.x));
            let my = rq_mul(rat_of(self.y), rat_of(rhs.y));
            let mz = rq_mul(rat_of(self.z), rat_of(rhs.z));
            lemma_rq_add_cong(rat_of(t1), mx, rat_of(t2));
            lemma_rq_add_cong(rat_of(t2), my, mx);
            lemma_rat_eq_trans(
                rq_add(rat_of(t1), rat_of(t2)),
                rq_add(mx, rat_of(t2)),
                rq_add(mx, my),
            );
            lemma_represents_eq(s1, rq_add(rat_of(t1), rat_of(t2)), rq_add(mx, my));
            lemma_rq_add_cong(rat_of(s1), rq_add(mx, my), rat_of(t3));
            lemma_rq_add_cong(rat_of(t3), mz, rq_add(mx, my));
            lemma_rat_eq_trans(
                rq_add(rat_of(s1), rat_of(t3)),
                rq_add(rq_add(mx, my), rat_of(t3)),
                rq_dot3(self, rhs),
            );
            lemma_represents_eq(r, rq_add(rat_of(s1), rat_of(t3)), rq_dot3(self, rhs));
        }
        r
    }

    /// Exact scaling of all three coordinates by `rhs`.
    pub fn scale(self, rhs: Fixed) -> (r: Vector3)
        requires
            self.in_range(),
            small(rhs, 1000000),
        ensures
            represents(r.x, rq_mul(rat_of(self.x), rat_of(rhs))),
            represents(r.y, rq_mul(rat_of(self.y), rat_of(rhs))),
            represents(r.z, rq_mul(rat_of(self.z), rat_of(rhs))),
            val_bound(r.x, 1000000000000, 12),
            val_bound(r.y, 1000000000000, 12),
            val_bound(r.z, 1000000000000, 12),
    {
        proof {
            lemma_alg_caps();
            lemma_fixed_mul_ok(self.x, rhs, 1000000, 6);
            lemma_fixed_mul_ok(self.y, rhs, 1000000, 6);
            lemma_fixed_mul_ok(self.z, rhs, 1000000, 6);
        }
        let r = Vector3 { x: self.x.mul(rhs), y: self.y.mul(rhs), z: self.z.mul(rhs) };
        proof {
            lemma_prod_mant_bound(self.x, rhs, r.x, 1000000, 1000000);
            lemma_prod_mant_bound(self.y, rhs, r.y, 1000000, 1000000);
            lemma_prod_mant_bound(self.z, rhs, r.z, 1000000, 1000000);
        }
        r
    }

    /// Exact standard cross product:
    /// `(y z' - z y', z x' - x z', x y' - y x')`.
    pub fn cross(self, rhs: Vector3) -> (r: Vector3)
        requires
            self.in_range(),
            rhs.in_range(),
        ensures
            represents(r.x, rq_cross_x(self, rhs)),
            represents(r.y, rq_cross_y(self, rhs)),
            represents(r.z, rq_cross_z(self, rhs)),
            val_bound(r.x, 2000000000000, 12),
            val_bound(r.y, 2000000000000, 12),
            val_bound(r.z, 2000000000000, 12),
    {
        let x = cross_term(self.y, rhs.z, self.z, rhs.y);
        let y = cross_term(self.z, rhs.x, self.x, rhs.z);
        let z = cross_term(self.x, rhs.y, self.y, rhs.x);
        Vector3 { x, y, z }
    }
}

/// One cross-product component: the exact value of `a b - c d`.
fn cross_term(a: Fixed, b: Fixed, c: Fixed, d: Fixed) -> (r: Fixed)
    requires
        small(a, 1000000),
        small(b, 1000000),
        small(c, 1000000),
        small(d, 1000000),
    ensures
        represents(r, rq_sub(rq_mul(rat_of(a), rat_of(b)), rq_mul(rat_of(c), rat_of(d)))),
        val_bound(r, 2000000000000, 12),
{
    proof {
        lemma_alg_caps();
        lemma_fixed_mul_ok(a, b, 1000000, 6);
        lemma_fixed_mul_ok(c, d, 1000000, 6);
    }
    let t1 = a.mul(b);
    let t2 = c.mul(d);
    proof {
        lemma_prod_mant_bound(a, b, t1, 1000000, 1000000);
        lemma_prod_mant_bound(c, d, t2, 1000000, 1000000);
        lemma_fixed_add_ok(t1, t2, 1000000000000, 12);
    }
    let r = t1.sub(t2);
    proof {
        lemma_addsub_mant_bound(t1, t2, r, 1000000000000, 1000000000000);
        let m1 = rq_mul(rat_of(a), rat_of(b));
        let m2 = rq_mul(rat_of(c), rat_of(d));
        lemma_rq_add_cong(rat_of(t1), m1, rat_of(t2));
        lemma_rq_add_cong(rat_of(t2), m2, m1);
        lemma_rat_eq_trans(
            rq_sub(rat_of(t1), rat_of(t2)),
            rq_sub(m1, rat_of(t2)),
            rq_sub(m1, m2),
        );
        lemma_represents_eq(r, rq_sub(rat_of(t1), rat_of(t2)), rq_sub(m1, m2));
    }
    r
}

} // verus!
