//! Planar vectors over exact decimal scalars.

use vstd::prelude::*;
use crate::fixed::{
    Fixed, Rat, lemma_addsub_mant_bound, lemma_fixed_add_ok, lemma_fixed_mul_ok,
    lemma_mant_cap_value, lemma_prod_mant_bound, lemma_rat_eq_trans, lemma_represents_eq,
    lemma_rq_add_cong, mant_cap, pow10, rat_of, represents, rq_add, rq_mul, rq_sub, small,
    val_bound,
};

verus! {

/// An ordered pair of exact decimal coordinates.
#[derive(Clone, Copy, Debug, PartialEq, Eq)]
pub struct Vector2 {
    pub x: Fixed,
    pub y: Fixed,
}

impl Vector2 {
    /// Both coordinates are well-formed scalars.
    pub open spec fn wf(self) -> bool {
        self.x.wf() && self.y.wf()
    }

    /// Coordinates within the range the exact arithmetic supports:
    /// magnitude at most a million, at most six decimal places (the
    /// conventional shape of the formats' literals; the parsers also
    /// accept seven-to-nine-place scalars, which this envelope
    /// excludes for multiplication headroom).
    pub open spec fn in_range(self) -> bool {
        small(self.x, 1000000) && small(self.y, 1000000)
    }

    /// Componentwise exact sum.
    pub fn add(self, rhs: Vector2) -> (r: Vector2)
        requires
            self.in_range(),
            rhs.in_range(),
        ensures
            represents(r.x, rq_add(rat_of(self.x), rat_of(rhs.x))),
            represents(r.y, rq_add(rat_of(self.y), rat_of(rhs.y))),
            val_bound(r.x, 2000000, 6),
            val_bound(r.y, 2000000, 6),
    {
        proof {
            lemma_alg_caps();
            lemma_fixed_add_ok(self.x, rhs.x, 1000000, 6);
            lemma_fixed_add_ok(self.y, rhs.y, 1000000, 6);
        }
        let r = Vector2 { x: self.x.add(rhs.x), y: self.y.add(rhs.y) };
        proof {
            lemma_addsub_mant_bound(self.x, rhs.x, r.x, 1000000, 1000000);
            lemma_addsub_mant_bound(self.y, rhs.y, r.y, 1000000, 1000000);
        }
        r
    }

    /// Componentwise exact difference.
    pub fn sub(self, rhs: Vector2) -> (r: Vector2)
        requires
            self.in_range(),
            rhs.in_range(),
        ensures
            represents(r.x, rq_sub(rat_of(self.x), rat_of(rhs.x))),
            represents(r.y, rq_sub(rat_of(self.y), rat_of(rhs.y))),
            val_bound(r.x, 2000000, 6),
            val_bound(r.y, 2000000, 6),
    {
        proof {
            lemma_alg_caps();
            lemma_fixed_add_ok(self.x, rhs.x, 1000000, 6);
            lemma_fixed_add_ok(self.y, rhs.y, 1000000, 6);
        }
        let r = Vector2 { x: self.x.sub(rhs.x), y: self.y.sub(rhs.y) };
        proof {
            lemma_addsub_mant_bound(self.x, rhs.x, r.x, 1000000, 1000000);
            lemma_addsub_mant_bound(self.y, rhs.y, r.y, 1000000, 1000000);
        }
        r
    }

    /// Exact dot product `x x' + y y'`.
    pub fn dot(self, rhs: Vector2) -> (r: Fixed)
        requires
            self.in_range(),
            rhs.in_range(),
        ensures
            represents(r, rq_dot2(self, rhs)),
            val_bound(r, 2000000000000, 12),
    {
        proof {
            lemma_alg_caps();
            lemma_fixed_mul_ok(self.x, rhs.x, 1000000, 6);
            lemma_fixed_mul_ok(self.y, rhs.y, 1000000, 6);
        }
        let t1 = self.x.mul(rhs.x);
        let t2 = self.y.mul(rhs.y);
        proof {
            lemma_prod_mant_bound(self.x, rhs.x, t1, 1000000, 1000000);
            lemma_prod_mant_bound(self.y, rhs.y, t2, 1000000, 1000000);
            lemma_fixed_add_ok(t1, t2, 1000000000000, 12);
        }
        let r = t1.add(t2);
        proof {
            lemma_addsub_mant_bound(t1, t2, r, 1000000000000, 1000000000000);
            lemma_rq_add_cong(rat_of(t1), rq_mul(rat_of(self.x), rat_of(rhs.x)), rat_of(t2));
            lemma_rq_add_cong(
                rat_of(t2),
                rq_mul(rat_of(self.y), rat_of(rhs.y)),
                rq_mul(rat_of(self.x), rat_of(rhs.x)),
            );
            lemma_rat_eq_trans(
                rq_add(rat_of(t1), rat_of(t2)),
                rq_add(rq_mul(rat_of(self.x), rat_of(rhs.x)), rat_of(t2)),
                rq_dot2(self, rhs),
            );
            lemma_represents_eq(r, rq_add(rat_of(t1), rat_of(t2)), rq_dot2(self, rhs));
        }
        r
    }

    /// Exact scaling of both coordinates by `rhs`.
    pub fn scale(self, rhs: Fixed) -> (r: Vector2)
        requires
            self.in_range(),
            small(rhs, 1000000),
        ensures
            represents(r.x, rq_mul(rat_of(self.x), rat_of(rhs))),
            represents(r.y, rq_mul(rat_of(self.y), rat_of(rhs))),
            val_bound(r.x, 1000000000000, 12),
            val_bound(r.y, 1000000000000, 12),
    {
        proof {
            lemma_alg_caps();
            lemma_fixed_mul_ok(self.x, rhs, 1000000, 6);
            lemma_fixed_mul_ok(self.y, rhs, 1000000, 6);
        }
        let r = Vector2 { x: self.x.mul(rhs), y: self.y.mul(rhs) };
        proof {
            lemma_prod_mant_bound(self.x, rhs, r.x, 1000000, 1000000);
            lemma_prod_mant_bound(self.y, rhs, r.y, 1000000, 1000000);
        }
        r
    }
}

/// The exact rational value of a planar dot product.
pub open spec fn rq_dot2(u: Vector2, v: Vector2) -> Rat {
    rq_add(rq_mul(rat_of(u.x), rat_of(v.x)), rq_mul(rat_of(u.y), rat_of(v.y)))
}

/// Numeric facts about the caps the algebra works under.
pub proof fn lemma_alg_caps()
    ensures
        2 * (1000000 * pow10(12)) < mant_cap(),
        (1000000 * 1000000) * pow10(12) < mant_cap(),
        2 * (1000000000000 * pow10(24)) < mant_cap(),
        2 * (3000000000000 * pow10(24)) < mant_cap(),
        2 * (4000000000000 * pow10(24)) < mant_cap(),
        2 * (2000000000000 * pow10(24)) < mant_cap(),
        (1 * 1) * pow10(18) < mant_cap(),
        2 * (1 * pow10(36)) < mant_cap(),
        2 * (2 * pow10(36)) < mant_cap(),
        2 * (3 * pow10(36)) < mant_cap(),
{
    lemma_mant_cap_value();
    assert(pow10(12) == 1000000000000int && pow10(24) == 1000000000000000000000000int && pow10(18)
        == 1000000000000000000int && pow10(36)
        == 1000000000000000000000000000000000000int) by {
        reveal_with_fuel(pow10, 38);
    }
}

} // verus!
