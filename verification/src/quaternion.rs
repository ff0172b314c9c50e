//! Unit rotations over exact decimal scalars.
//!
//! The grammars store only three of a rotation's four components; the
//! fourth is derived as the nonnegative square root of the clamped
//! radicand `max(0, 1 - a² - b² - c²)`. This module computes that
//! radicand exactly (`derived_radicand`) and, since the root is
//! irrational in general, the component itself to nine decimal places
//! (`derived_component`): the unique nonnegative nine-place decimal
//! `r` with `r² ≤ radicand < (r + 10⁻⁹)²`.

use vstd::prelude::*;
use crate::fixed::{
    Fixed, Rat, lemma_addsub_mant_bound, lemma_fixed_add_ok, lemma_fixed_mul_ok,
    lemma_pow10_add, lemma_pow10_pos, lemma_prod_mant_bound, lemma_represents_eq,
    lemma_rq_subst, lemma_val_bound_widen, is_rat, mant_cap, normalize, pow10, pow10_exec,
    rat_of, represents, rq_add, rq_mul, rq_sub, small, val_bound,
};
use crate::vector2::lemma_alg_caps;
use crate::vector3::{Vector3, rq_cross_x, rq_cross_y, rq_cross_z, rq_dot3};

verus! {

/// A scalar part and a vector part.
#[derive(Clone, Copy, Debug, PartialEq, Eq)]
pub struct Quaternion {
    pub scal: Fixed,
    pub vec: Vector3,
}

impl Quaternion {
    /// All four components are well-formed scalars.
    pub open spec fn wf(self) -> bool {
        self.scal.wf() && self.vec.wf()
    }

    /// Components within the range the exact arithmetic supports.
    pub open spec fn in_range(self) -> bool {
        small(self.scal, 1000000) && self.vec.in_range()
    }

    /// Componentwise exact sum.
    pub fn add(self, rhs: Quaternion) -> (r: Quaternion)
        requires
            self.in_range(),
            rhs.in_range(),
        ensures
            represents(r.scal, rq_add(rat_of(self.scal), rat_of(rhs.scal))),
            represents(r.vec.x, rq_add(rat_of(self.vec.x), rat_of(rhs.vec.x))),
            represents(r.vec.y, rq_add(rat_of(self.vec.y), rat_of(rhs.vec.y))),
            represents(r.vec.z, rq_add(rat_of(self.vec.z), rat_of(rhs.vec.z))),
            val_bound(r.scal, 2000000, 6),
            val_bound(r.vec.x, 2000000, 6),
            val_bound(r.vec.y, 2000000, 6),
            val_bound(r.vec.z, 2000000, 6),
    {
        proof {
            lemma_alg_caps();
            lemma_fixed_add_ok(self.scal, rhs.scal, 1000000, 6);
        }
        let scal = self.scal.add(rhs.scal);
        proof {
            lemma_addsub_mant_bound(self.scal, rhs.scal, scal, 1000000, 1000000);
        }
        Quaternion { scal, vec: self.vec.add(rhs.vec) }
    }

    /// Componentwise exact difference.
    pub fn sub(self, rhs: Quaternion) -> (r: Quaternion)
        requires
            self.in_range(),
            rhs.in_range(),
        ensures
            represents(r.scal, rq_sub(rat_of(self.scal), rat_of(rhs.scal))),
            represents(r.vec.x, rq_sub(rat_of(self.vec.x), rat_of(rhs.vec.x))),
            represents(r.vec.y, rq_sub(rat_of(self.vec.y), rat_of(rhs.vec.y))),
            represents(r.vec.z, rq_sub(rat_of(self.vec.z), rat_of(rhs.vec.z))),
            val_bound(r.scal, 2000000, 6),
            val_bound(r.vec.x, 2000000, 6),
            val_bound(r.vec.y, 2000000, 6),
            val_bound(r.vec.z, 2000000, 6),
    {
        proof {
            lemma_alg_caps();
            lemma_fixed_add_ok(self.scal, rhs.scal, 1000000, 6);
        }
        let scal = self.scal.sub(rhs.scal);
        proof {
            lemma_addsub_mant_bound(self.scal, rhs.scal, scal, 1000000, 1000000);
        }
        Quaternion { scal, vec: self.vec.sub(rhs.vec) }
    }

    /// Exact Hamilton product: the scalar is `s s' - v·v'`, the vector
    /// is `v' s + v s' + v × v'`.
    pub fn mul(self, rhs: Quaternion) -> (r: Quaternion)
        requires
            self.in_range(),
            rhs.in_range(),
        ensures
            represents(
                r.scal,
                rq_sub(rq_mul(rat_of(self.scal), rat_of(rhs.scal)), rq_dot3(self.vec, rhs.vec)),
            ),
            represents(
                r.vec.x,
                rq_add(
                    rq_add(
                        rq_mul(rat_of(rhs.vec.x), rat_of(self.scal)),
                        rq_mul(rat_of(self.vec.x), rat_of(rhs.scal)),
                    ),
                    rq_cross_x(self.vec, rhs.vec),
                ),
            ),
            represents(
                r.vec.y,
                rq_add(
                    rq_add(
                        rq_mul(rat_of(rhs.vec.y), rat_of(self.scal)),
                        rq_mul(rat_of(self.vec.y), rat_of(rhs.scal)),
                    ),
                    rq_cross_y(self.vec, rhs.vec),
                ),
            ),
            represents(
                r.vec.z,
                rq_add(
                    rq_add(
                        rq_mul(rat_of(rhs.vec.z), rat_of(self.scal)),
                        rq_mul(rat_of(self.vec.z), rat_of(rhs.scal)),
                    ),
                    rq_cross_z(self.vec, rhs.vec),
                ),
            ),
            val_bound(r.scal, 4000000000000, 12),
            val_bound(r.vec.x, 4000000000000, 12),
            val_bound(r.vec.y, 4000000000000, 12),
            val_bound(r.vec.z, 4000000000000, 12),
    {
        let a1 = self.scal;
        let a2 = rhs.scal;
        proof {
            lemma_alg_caps();
            lemma_fixed_mul_ok(a1, a2, 1000000, 6);
        }
        let t = a1.mul(a2);
        let d = self.vec.dot(rhs.vec);
        proof {
            lemma_prod_mant_bound(a1, a2, t, 1000000, 1000000);
            lemma_val_bound_widen(t, 1000000000000, 3000000000000, 12, 12);
            lemma_fixed_add_ok(t, d, 3000000000000, 12);
        }
        let scal = t.sub(d);
        proof {
            lemma_addsub_mant_bound(t, d, scal, 1000000000000, 3000000000000);
            lemma_rq_subst(
                rat_of(t),
                rat_of(d),
                rq_mul(rat_of(a1), rat_of(a2)),
                rq_dot3(self.vec, rhs.vec),
            );
            lemma_represents_eq(
                scal,
                rq_sub(rat_of(t), rat_of(d)),
                rq_sub(rq_mul(rat_of(a1), rat_of(a2)), rq_dot3(self.vec, rhs.vec)),
            );
        }
        let sv1 = rhs.vec.scale(a1);
        let sv2 = self.vec.scale(a2);
        let cr = self.vec.cross(rhs.vec);
        let x = ham_vec_term(sv1.x, sv2.x, cr.x);
        let y = ham_vec_term(sv1.y, sv2.y, cr.y);
        let z = ham_vec_term(sv1.z, sv2.z, cr.z);
        proof {
            lemma_ham_subst(
                x,
                sv1.x,
                sv2.x,
                cr.x,
                rq_mul(rat_of(rhs.vec.x), rat_of(a1)),
                rq_mul(rat_of(self.vec.x), rat_of(a2)),
                rq_cross_x(self.vec, rhs.vec),
            );
            lemma_ham_subst(
                y,
                sv1.y,
                sv2.y,
                cr.y,
                rq_mul(rat_of(rhs.vec.y), rat_of(a1)),
                rq_mul(rat_of(self.vec.y), rat_of(a2)),
                rq_cross_y(self.vec, rhs.vec),
            );
            lemma_ham_subst(
                z,
                sv1.z,
                sv2.z,
                cr.z,
                rq_mul(rat_of(rhs.vec.z), rat_of(a1)),
                rq_mul(rat_of(self.vec.z), rat_of(a2)),
                rq_cross_z(self.vec, rhs.vec),
            );
        }
        Quaternion { scal, vec: Vector3 { x, y, z } }
    }
}

/// One vector component of the Hamilton product: the exact value of
/// `p + q + c`.
fn ham_vec_term(p: Fixed, q: Fixed, c: Fixed) -> (r: Fixed)
    requires
        val_bound(p, 1000000000000, 12),
        val_bound(q, 1000000000000, 12),
        val_bound(c, 2000000000000, 12),
    ensures
        represents(r, rq_add(rq_add(rat_of(p), rat_of(q)), rat_of(c))),
        val_bound(r, 4000000000000, 12),
{
    proof {
        lemma_alg_caps();
        lemma_fixed_add_ok(p, q, 1000000000000, 12);
    }
    let s1 = p.add(q);
    proof {
        lemma_addsub_mant_bound(p, q, s1, 1000000000000, 1000000000000);
        lemma_val_bound_widen(c, 2000000000000, 2000000000000, 12, 12);
        lemma_fixed_add_ok(s1, c, 2000000000000, 12);
    }
    let r = s1.add(c);
    proof {
        lemma_addsub_mant_bound(s1, c, r, 2000000000000, 2000000000000);
        lemma_rq_subst(rat_of(s1), rat_of(c), rq_add(rat_of(p), rat_of(q)), rat_of(c));
        lemma_represents_eq(
            r,
            rq_add(rat_of(s1), rat_of(c)),
            rq_add(rq_add(rat_of(p), rat_of(q)), rat_of(c)),
        );
    }
    r
}

/// Substituting the exact values of the three summands into a Hamilton
/// vector component.
proof fn lemma_ham_subst(r: Fixed, p: Fixed, q: Fixed, c: Fixed, rp: Rat, rq: Rat, rc: Rat)
    requires
        represents(r, rq_add(rq_add(rat_of(p), rat_of(q)), rat_of(c))),
        rat_eq_of(p, rp),
        rat_eq_of(q, rq),
        rat_eq_of(c, rc),
    ensures
        represents(r, rq_add(rq_add(rp, rq), rc)),
{
    lemma_rq_subst(rat_of(p), rat_of(q), rp, rq);
    lemma_rq_subst(rq_add(rat_of(p), rat_of(q)), rat_of(c), rq_add(rp, rq), rc);
    lemma_represents_eq(r, rq_add(rq_add(rat_of(p), rat_of(q)), rat_of(c)), rq_add(rq_add(rp, rq), rc));
}

/// `f` stands for the rational `r`; spelled as an equality of rationals.
pub open spec fn rat_eq_of(f: Fixed, r: Rat) -> bool {
    crate::fixed::rat_eq(rat_of(f), r)
}


/// The square of `f`, scaled to the common denominator `10^18`.
/// Meaningful for scalars with at most nine decimal places.
pub open spec fn sq_scaled(f: Fixed) -> int {
    (f.mant * f.mant) * pow10((18 - 2 * (f.exp as int)) as nat)
}

/// Numerator, over the denominator `10^18`, of the clamped radicand
/// `max(0, 1 - a² - b² - c²)` of the stored components `a`, `b`, `c`.
pub open spec fn radicand_num(a: Fixed, b: Fixed, c: Fixed) -> int {
    let n = pow10(18) - sq_scaled(a) - sq_scaled(b) - sq_scaled(c);
    if n >= 0 {
        n
    } else {
        0
    }
}

/// The square of the derived fourth component: exactly
/// `max(0, 1 - a² - b² - c²)`, never negative. The clamp to zero is
/// what keeps a slightly over-unit stored triple from producing an
/// invalid rotation.
pub fn derived_radicand(a: Fixed, b: Fixed, c: Fixed) -> (r: Fixed)
    requires
        a.wf(),
        b.wf(),
        c.wf(),
        a.exp <= 9,
        b.exp <= 9,
        c.exp <= 9,
    ensures
        r.wf(),
        r.mant >= 0,
        r.exp <= 18,
        is_rat(r, radicand_num(a, b, c), 18),
{
    proof {
        lemma_sq_scaled_facts(a);
        lemma_sq_scaled_facts(b);
        lemma_sq_scaled_facts(c);
    }
    let ina = a.abs_le_one();
    let inb = b.abs_le_one();
    let inc = c.abs_le_one();
    if !(ina && inb && inc) {
        Fixed::zero()
    } else {
        proof {
            lemma_alg_caps();
            lemma_fixed_mul_ok(a, a, 1, 9);
            lemma_fixed_mul_ok(b, b, 1, 9);
            lemma_fixed_mul_ok(c, c, 1, 9);
        }
        let a2 = a.mul(a);
        let b2 = b.mul(b);
        let c2 = c.mul(c);
        let one = Fixed::one();
        proof {
            lemma_prod_mant_bound(a, a, a2, 1, 1);
            lemma_prod_mant_bound(b, b, b2, 1, 1);
            lemma_prod_mant_bound(c, c, c2, 1, 1);
            lemma_fixed_add_ok(one, a2, 1, 18);
        }
        let s1 = one.sub(a2);
        proof {
            lemma_addsub_mant_bound(one, a2, s1, 1, 1);
            lemma_val_bound_widen(b2, 1, 2, 18, 18);
            lemma_fixed_add_ok(s1, b2, 2, 18);
        }
        let s2 = s1.sub(b2);
        proof {
            lemma_addsub_mant_bound(s1, b2, s2, 2, 1);
            lemma_val_bound_widen(c2, 1, 3, 18, 18);
            lemma_fixed_add_ok(s2, c2, 3, 18);
        }
        let s3 = s2.sub(c2);
        proof {
            let ra = rat_of(a);
            let rb = rat_of(b);
            let rc = rat_of(c);
            let one_r = rat_of(one);
            lemma_rq_subst(one_r, rat_of(a2), one_r, rq_mul(ra, ra));
            lemma_represents_eq(
                s1,
                rq_sub(one_r, rat_of(a2)),
                rq_sub(one_r, rq_mul(ra, ra)),
            );
            lemma_rq_subst(
                rat_of(s1),
                rat_of(b2),
                rq_sub(one_r, rq_mul(ra, ra)),
                rq_mul(rb, rb),
            );
            lemma_represents_eq(
                s2,
                rq_sub(rat_of(s1), rat_of(b2)),
                rq_sub(rq_sub(one_r, rq_mul(ra, ra)), rq_mul(rb, rb)),
            );
            lemma_rq_subst(
                rat_of(s2),
                rat_of(c2),
                rq_sub(rq_sub(one_r, rq_mul(ra, ra)), rq_mul(rb, rb)),
                rq_mul(rc, rc),
            );
            lemma_represents_eq(
                s3,
                rq_sub(rat_of(s2), rat_of(c2)),
                rq_sub(rq_sub(rq_sub(one_r, rq_mul(ra, ra)), rq_mul(rb, rb)), rq_mul(rc, rc)),
            );
            lemma_radicand_rep(a, b, c);
            let nfull = pow10(18) - sq_scaled(a) - sq_scaled(b) - sq_scaled(c);
            lemma_represents_eq(
                s3,
                rq_sub(rq_sub(rq_sub(one_r, rq_mul(ra, ra)), rq_mul(rb, rb)), rq_mul(rc, rc)),
                Rat { n: nfull, d: 18 },
            );
            lemma_pow10_pos(18);
            lemma_pow10_pos(s3.exp as nat);
            assert((s3.mant >= 0) == (nfull >= 0)) by (nonlinear_arith)
                requires
                    s3.mant * pow10(18) == nfull * pow10(s3.exp as nat),
                    pow10(18) >= 1,
                    pow10(s3.exp as nat) >= 1,
            ;
        }
        if s3.mant < 0 {
            Fixed::zero()
        } else {
            s3
        }
    }
}

/// Sign and size of a scaled square: it is never negative, and it
/// exceeds `10^18` exactly when the value's magnitude exceeds one.
proof fn lemma_sq_scaled_facts(f: Fixed)
    requires
        f.wf(),
        f.exp <= 9,
    ensures
        sq_scaled(f) >= 0,
        crate::fixed::abs_i(f.mant as int) > pow10(f.exp as nat) ==> sq_scaled(f) > pow10(18),
        crate::fixed::abs_i(f.mant as int) <= pow10(f.exp as nat) ==> sq_scaled(f) <= pow10(18),
{
    let e2 = (2 * (f.exp as int)) as nat;
    let p = pow10(f.exp as nat);
    let q = pow10((18 - 2 * (f.exp as int)) as nat);
    lemma_pow10_add(f.exp as nat, f.exp as nat);
    lemma_pow10_add(e2, (18 - 2 * (f.exp as int)) as nat);
    lemma_pow10_pos(f.exp as nat);
    lemma_pow10_pos((18 - 2 * (f.exp as int)) as nat);
    assert(pow10(18) == (p * p) * q);
    assert(f.mant * f.mant >= 0) by (nonlinear_arith);
    assert((f.mant * f.mant) * q >= 0) by (nonlinear_arith)
        requires
            f.mant * f.mant >= 0,
            q >= 1,
    ;
    if crate::fixed::abs_i(f.mant as int) > p {
        assert(f.mant * f.mant > p * p) by (nonlinear_arith)
            requires
                crate::fixed::abs_i(f.mant as int) > p,
                p >= 1,
                crate::fixed::abs_i(f.mant as int) == if f.mant >= 0 {
                    f.mant as int
                } else {
                    -(f.mant as int)
                },
        ;
        assert((f.mant * f.mant) * q > (p * p) * q) by (nonlinear_arith)
            requires
                f.mant * f.mant > p * p,
                q >= 1,
        ;
    }
    if crate::fixed::abs_i(f.mant as int) <= p {
        assert(f.mant * f.mant <= p * p) by (nonlinear_arith)
            requires
                crate::fixed::abs_i(f.mant as int) <= p,
                p >= 1,
                crate::fixed::abs_i(f.mant as int) == if f.mant >= 0 {
                    f.mant as int
                } else {
                    -(f.mant as int)
                },
        ;
        assert((f.mant * f.mant) * q <= (p * p) * q) by (nonlinear_arith)
            requires
                f.mant * f.mant <= p * p,
                q >= 1,
        ;
    }
}

/// Cross-multiplied form of `1 - a² - b² - c²` at the common
/// denominator `10^18`.
proof fn lemma_radicand_rep(a: Fixed, b: Fixed, c: Fixed)
    requires
        a.exp <= 9,
        b.exp <= 9,
        c.exp <= 9,
    ensures
        crate::fixed::rat_eq(
            rq_sub(
                rq_sub(
                    rq_sub(Rat { n: 1, d: 0 }, rq_mul(rat_of(a), rat_of(a))),
                    rq_mul(rat_of(b), rat_of(b)),
                ),
                rq_mul(rat_of(c), rat_of(c)),
            ),
            Rat { n: pow10(18) - sq_scaled(a) - sq_scaled(b) - sq_scaled(c), d: 18 },
        ),
{
    let ea = (a.exp + a.exp) as nat;
    let eb = (b.exp + b.exp) as nat;
    let ec = (c.exp + c.exp) as nat;
    let ma2 = a.mant * a.mant;
    let mb2 = b.mant * b.mant;
    let mc2 = c.mant * c.mant;
    let pa = pow10(ea);
    let pb = pow10(eb);
    let pc = pow10(ec);
    let qa = pow10((18 - 2 * (a.exp as int)) as nat);
    let qb = pow10((18 - 2 * (b.exp as int)) as nat);
    let qc = pow10((18 - 2 * (c.exp as int)) as nat);
    let p18 = pow10(18);
    lemma_pow10_add(ea, (18 - 2 * (a.exp as int)) as nat);
    lemma_pow10_add(eb, (18 - 2 * (b.exp as int)) as nat);
    lemma_pow10_add(ec, (18 - 2 * (c.exp as int)) as nat);
    assert(pa * qa == p18);
    assert(pb * qb == p18);
    assert(pc * qc == p18);
    lemma_pow10_add(ea, eb);
    lemma_pow10_add(ea + eb, ec);
    assert(pow10(ea + eb) == pa * pb);
    assert(pow10(ea + eb + ec) == (pa * pb) * pc);
    let lhs = rq_sub(
        rq_sub(rq_sub(Rat { n: 1, d: 0 }, rq_mul(rat_of(a), rat_of(a))), rq_mul(rat_of(b), rat_of(b))),
        rq_mul(rat_of(c), rat_of(c)),
    );
    assert(lhs.d == ea + eb + ec);
    assert(lhs.n == ((1 * pa - ma2 * 1) * pb - mb2 * pa) * pc - mc2 * (pa * pb));
    let n3 = ((pa - ma2) * pb - mb2 * pa) * pc - mc2 * (pa * pb);
    assert(lhs.n == n3);
    let nfull = p18 - ma2 * qa - mb2 * qb - mc2 * qc;
    // expand the nested difference into four monomial terms
    let u = (pa - ma2) * pb - mb2 * pa;
    assert(u == pa * pb - ma2 * pb - mb2 * pa) by (nonlinear_arith)
        requires
            u == (pa - ma2) * pb - mb2 * pa,
    ;
    assert(u * pc == (pa * pb) * pc - (ma2 * pb) * pc - (mb2 * pa) * pc) by (nonlinear_arith)
        requires
            u == pa * pb - ma2 * pb - mb2 * pa,
    ;
    assert((ma2 * pb) * pc == ma2 * (pb * pc)) by (nonlinear_arith);
    assert((mb2 * pa) * pc == mb2 * (pa * pc)) by (nonlinear_arith);
    assert(n3 == ((pa * pb) * pc) - ma2 * (pb * pc) - mb2 * (pa * pc) - mc2 * (pa * pb));
    // cross-multiplied goal, term by term
    assert(n3 * p18 == ((pa * pb) * pc) * p18 - (ma2 * (pb * pc)) * p18 - (mb2 * (pa * pc)) * p18
        - (mc2 * (pa * pb)) * p18) by (nonlinear_arith)
        requires
            n3 == ((pa * pb) * pc) - ma2 * (pb * pc) - mb2 * (pa * pc) - mc2 * (pa * pb),
    ;
    assert(nfull * ((pa * pb) * pc) == p18 * ((pa * pb) * pc) - (ma2 * qa) * ((pa * pb) * pc) - (
    mb2 * qb) * ((pa * pb) * pc) - (mc2 * qc) * ((pa * pb) * pc)) by (nonlinear_arith)
        requires
            nfull == p18 - ma2 * qa - mb2 * qb - mc2 * qc,
    ;
    lemma_radicand_term(ma2, qa, pa, pb * pc);
    assert((pa * (pb * pc)) == ((pa * pb) * pc)) by (nonlinear_arith);
    lemma_radicand_term(mb2, qb, pb, pa * pc);
    assert((pb * (pa * pc)) == ((pa * pb) * pc)) by (nonlinear_arith);
    lemma_radicand_term(mc2, qc, pc, pa * pb);
    assert((pc * (pa * pb)) == ((pa * pb) * pc)) by (nonlinear_arith);
    assert(((pa * pb) * pc) * p18 == p18 * ((pa * pb) * pc)) by (nonlinear_arith);
    assert(n3 * p18 == nfull * ((pa * pb) * pc));
}

/// One radicand term moved to the common denominator: when
/// `q * p == 10^18`, `(m q) (p w) == (m w) 10^18`.
proof fn lemma_radicand_term(m: int, q: int, p: int, w: int)
    ensures
        (m * q) * (p * w) == (m * w) * (q * p),
{
    assert((m * q) * (p * w) == (m * w) * (q * p)) by (nonlinear_arith);
}


/// A scaled square is never negative.
pub proof fn lemma_sq_scaled_nonneg(f: Fixed)
    requires
        f.wf(),
        f.exp <= 9,
    ensures
        sq_scaled(f) >= 0,
{
    lemma_sq_scaled_facts(f);
}


/// The integer square root: the unique `r` with `r² ≤ n < (r+1)²`.
pub open spec fn spec_isqrt(n: int) -> int {
    choose|r: int| 0 <= r && #[trigger] (r * r) <= n < (r + 1) * (r + 1)
}

/// Every nonnegative integer has an integer square root.
pub proof fn lemma_isqrt_exists(n: int)
    requires
        n >= 0,
    ensures
        exists|r: int| 0 <= r && #[trigger] (r * r) <= n < (r + 1) * (r + 1),
    decreases n,
{
    if n == 0 {
        assert(0 <= 0 && 0 * 0 <= 0 < (0 + 1) * (0 + 1)) by (nonlinear_arith);
    } else {
        lemma_isqrt_exists(n - 1);
        let p = choose|r: int| 0 <= r && #[trigger] (r * r) <= n - 1 < (r + 1) * (r + 1);
        if (p + 1) * (p + 1) <= n {
            assert(0 <= p + 1 && (p + 1) * (p + 1) <= n < (p + 2) * (p + 2)) by (nonlinear_arith)
                requires
                    0 <= p,
                    n - 1 < (p + 1) * (p + 1) <= n,
            ;
        } else {
            assert(0 <= p && p * p <= n < (p + 1) * (p + 1));
        }
    }
}

/// The integer square root's defining facts, and the bound that a root
/// of at most `10^18` is at most `10^9`.
pub proof fn lemma_isqrt_props(n: int)
    requires
        0 <= n,
    ensures
        0 <= spec_isqrt(n),
        spec_isqrt(n) * spec_isqrt(n) <= n,
        n < (spec_isqrt(n) + 1) * (spec_isqrt(n) + 1),
        n <= pow10(18) ==> spec_isqrt(n) <= pow10(9),
        n == 0 ==> spec_isqrt(n) == 0,
{
    lemma_isqrt_exists(n);
    let m = spec_isqrt(n);
    assert(0 <= m && m * m <= n < (m + 1) * (m + 1));
    if n <= pow10(18) {
        assert(pow10(18) == pow10(9) * pow10(9)) by {
            lemma_pow10_add(9, 9);
        }
        lemma_pow10_pos(9);
        assert(m <= pow10(9)) by (nonlinear_arith)
            requires
                0 <= m,
                m * m <= pow10(9) * pow10(9),
                pow10(9) >= 1,
        ;
    }
    if n == 0 {
        assert(m == 0) by (nonlinear_arith)
            requires
                0 <= m,
                m * m <= 0,
        ;
    }
}

/// Any integer satisfying the root's defining facts is the root.
pub proof fn lemma_isqrt_unique(n: int, r: int)
    requires
        0 <= r,
        r * r <= n,
        n < (r + 1) * (r + 1),
    ensures
        r == spec_isqrt(n),
{
    lemma_isqrt_props(n);
    let m = spec_isqrt(n);
    assert(r == m) by (nonlinear_arith)
        requires
            0 <= r,
            0 <= m,
            r * r <= n < (r + 1) * (r + 1),
            m * m <= n < (m + 1) * (m + 1),
    ;
}

/// Integer square root of a value up to `10^18`, by bisection.
fn isqrt_18(n: i128) -> (r: i128)
    requires
        0 <= n <= pow10(18),
    ensures
        0 <= r <= pow10(9),
        r as int == spec_isqrt(n as int),
        r * r <= n < (r + 1) * (r + 1),
{
    proof {
        assert(pow10(9) == 1000000000int && pow10(18) == 1000000000000000000int) by {
            reveal_with_fuel(pow10, 19);
        }
    }
    let mut lo: i128 = 0;
    let mut hi: i128 = 1000000001;
    proof {
        assert(n < hi * hi) by (nonlinear_arith)
            requires
                n <= 1000000000000000000i128,
                hi == 1000000001i128,
        ;
    }
    while lo + 1 < hi
        invariant
            0 <= lo < hi <= 1000000001,
            lo * lo <= n,
            n < hi * hi,
        decreases hi - lo,
    {
        let mid: i128 = lo + (hi - lo) / 2;
        proof {
            assert(lo < mid < hi);
            assert(mid * mid <= 1000000000000000000i128 + 3000000001i128) by (nonlinear_arith)
                requires
                    0 <= mid <= 1000000001i128,
            ;
        }
        if mid * mid <= n {
            lo = mid;
        } else {
            hi = mid;
        }
    }
    proof {
        assert(hi == lo + 1);
        lemma_isqrt_unique(n as int, lo as int);
    }
    lo
}

/// The derived fourth component, to nine decimal places: the unique
/// nonnegative nine-place decimal `r` with
/// `r² ≤ max(0, 1 - a² - b² - c²) < (r + 10⁻⁹)²`
/// (at the common denominator `10¹⁸` both inequalities read over the
/// radicand numerator and the scaled root). When the stored triple is
/// over-unit the radicand is zero and the component exactly `0`; when
/// the radicand's root is itself a nine-place decimal — `1`, `0.5` —
/// the component is exact.
#[verifier::rlimit(50)]
pub fn derived_component(a: Fixed, b: Fixed, c: Fixed) -> (r: Fixed)
    requires
        a.wf(),
        b.wf(),
        c.wf(),
        a.exp <= 9,
        b.exp <= 9,
        c.exp <= 9,
    ensures
        r.wf(),
        r.mant >= 0,
        r.exp <= 9,
        is_rat(r, spec_isqrt(radicand_num(a, b, c)), 9),
{
    let z = derived_radicand(a, b, c);
    proof {
        lemma_sq_scaled_facts(a);
        lemma_sq_scaled_facts(b);
        lemma_sq_scaled_facts(c);
        lemma_pow10_pos(18);
        lemma_pow10_pos(z.exp as nat);
        lemma_pow10_pos((18 - z.exp) as nat);
        crate::fixed::lemma_is_rat_bound(z, radicand_num(a, b, c), 18, 1);
        lemma_pow10_add(z.exp as nat, (18 - z.exp) as nat);
        crate::fixed::lemma_mant_cap_value();
        assert(pow10(18) < mant_cap()) by {
            reveal_with_fuel(pow10, 38);
        }
        assert(z.mant * pow10((18 - z.exp) as nat) <= pow10(z.exp as nat) * pow10(
            (18 - z.exp) as nat,
        )) by (nonlinear_arith)
            requires
                z.mant <= pow10(z.exp as nat),
                pow10((18 - z.exp) as nat) >= 1,
        ;
        assert(z.mant * pow10((18 - z.exp) as nat) >= 0) by (nonlinear_arith)
            requires
                z.mant >= 0,
                pow10((18 - z.exp) as nat) >= 1,
        ;
    }
    let scale: i128 = pow10_exec(18 - z.exp);
    let n: i128 = z.mant * scale;
    proof {
        // n is the radicand numerator itself: cancel the common power
        assert((n as int) * pow10(z.exp as nat) == (z.mant * pow10(z.exp as nat)) * pow10(
            (18 - z.exp) as nat,
        )) by (nonlinear_arith)
            requires
                n == z.mant * pow10((18 - z.exp) as nat),
        ;
        assert(z.mant * pow10(18) == radicand_num(a, b, c) * pow10(z.exp as nat));
        assert((z.mant * pow10(z.exp as nat)) * pow10((18 - z.exp) as nat) == z.mant * pow10(18))
            by (nonlinear_arith)
            requires
                pow10(z.exp as nat) * pow10((18 - z.exp) as nat) == pow10(18),
        ;
        assert((radicand_num(a, b, c) * pow10(z.exp as nat)) == (n as int) * pow10(z.exp as nat))
            by (nonlinear_arith)
            requires
                (n as int) * pow10(z.exp as nat) == z.mant * pow10(18),
                z.mant * pow10(18) == radicand_num(a, b, c) * pow10(z.exp as nat),
        ;
        crate::fixed::lemma_cancel_eq(n as int, radicand_num(a, b, c), pow10(z.exp as nat));
    }
    let m = isqrt_18(n);
    proof {
        crate::fixed::lemma_pow10_mono(9, 18);
    }
    let r = normalize(m, 9);
    proof {
        lemma_pow10_pos(9);
        lemma_pow10_pos(r.exp as nat);
        assert(r.mant >= 0) by (nonlinear_arith)
            requires
                r.mant * pow10(9) == (m as int) * pow10(r.exp as nat),
                m >= 0,
                pow10(9) >= 1,
                pow10(r.exp as nat) >= 1,
        ;
    }
    r
}

/// What the decoder stores for the derived fourth component, as a law:
/// the clamped radicand is `1 - a² - b² - c²` whenever the stored
/// triple lies within the unit ball and exactly zero — never a
/// negative or invalid value — when floating slack pushes it outside;
/// and the stored component is the integer square root of its
/// numerator, scaled: `m² ≤ radicand-numerator < (m+1)²` with
/// `0 ≤ m ≤ 10⁹`, zero exactly when the radicand is zero.
pub proof fn lemma_derived_component_root(a: Fixed, b: Fixed, c: Fixed)
    requires
        a.wf(),
        b.wf(),
        c.wf(),
        a.exp <= 9,
        b.exp <= 9,
        c.exp <= 9,
    ensures
        radicand_num(a, b, c) >= 0,
        sq_scaled(a) + sq_scaled(b) + sq_scaled(c) <= pow10(18) ==> radicand_num(a, b, c)
            == pow10(18) - sq_scaled(a) - sq_scaled(b) - sq_scaled(c),
        sq_scaled(a) + sq_scaled(b) + sq_scaled(c) > pow10(18) ==> radicand_num(a, b, c) == 0,
        0 <= spec_isqrt(radicand_num(a, b, c)) <= pow10(9),
        spec_isqrt(radicand_num(a, b, c)) * spec_isqrt(radicand_num(a, b, c)) <= radicand_num(
            a,
            b,
            c,
        ),
        radicand_num(a, b, c) < (spec_isqrt(radicand_num(a, b, c)) + 1) * (spec_isqrt(
            radicand_num(a, b, c),
        ) + 1),
        radicand_num(a, b, c) == 0 ==> spec_isqrt(radicand_num(a, b, c)) == 0,
{
    lemma_sq_scaled_facts(a);
    lemma_sq_scaled_facts(b);
    lemma_sq_scaled_facts(c);
    lemma_pow10_pos(18);
    assert(radicand_num(a, b, c) <= pow10(18));
    lemma_isqrt_props(radicand_num(a, b, c));
}

} // verus!
