//! Exact decimal scalars.
//!
//! Every numeric literal of the grammars is a finite decimal, so a scalar
//! is kept as `mant / 10^exp` with integer `mant`. The representation is
//! canonical (no trailing zero in the mantissa while `exp > 0`, and zero
//! is `0 / 10^0`), so two well-formed scalars are equal as rationals if
//! and only if they are equal as structures (`lemma_canonical`).

use vstd::prelude::*;
use vstd::arithmetic::div_mod::lemma_mod_multiples_basic;
use vstd::arithmetic::mul::{
    lemma_mul_is_distributive_add_other_way, lemma_mul_is_distributive_sub_other_way,
};

verus! {

/// Magnitude of an integer.
pub open spec fn abs_i(m: int) -> int {
    if m >= 0 {
        m
    } else {
        -m
    }
}

/// Largest exponent a well-formed scalar may carry.
pub const EXP_MAX: u32 = 36;

/// `10^e`.
pub open spec fn pow10(e: nat) -> int
    decreases e,
{
    if e == 0 {
        1
    } else {
        10 * pow10((e - 1) as nat)
    }
}

/// Exclusive bound on the magnitude of a well-formed mantissa: `10^37`.
pub open spec fn mant_cap() -> int {
    pow10(37)
}

/// The mantissa cap written out; in particular it fits an `i128`.
pub proof fn lemma_mant_cap_value()
    ensures
        mant_cap() == 10000000000000000000000000000000000000int,
        mant_cap() < i128::MAX,
{
    reveal_with_fuel(pow10, 38);
}

/// A scalar with the exact rational value `mant / 10^exp`.
#[derive(Clone, Copy, Debug, PartialEq, Eq)]
pub struct Fixed {
    pub mant: i128,
    pub exp: u32,
}

impl Fixed {
    /// Well-formed: bounded and canonical.
    pub open spec fn wf(self) -> bool {
        &&& self.exp <= EXP_MAX
        &&& -mant_cap() < self.mant < mant_cap()
        &&& (self.mant == 0 ==> self.exp == 0)
        &&& (self.exp > 0 ==> self.mant % 10 != 0)
    }
}

/// `r` represents the rational number `n / 10^e`.
pub open spec fn is_rat(r: Fixed, n: int, e: nat) -> bool {
    r.mant * pow10(e) == n * pow10(r.exp as nat)
}

pub proof fn lemma_pow10_pos(e: nat)
    ensures
        pow10(e) >= 1,
    decreases e,
{
    if e > 0 {
        lemma_pow10_pos((e - 1) as nat);
    }
}

pub proof fn lemma_pow10_add(a: nat, b: nat)
    ensures
        pow10(a + b) == pow10(a) * pow10(b),
    decreases a,
{
    if a == 0 {
    } else {
        lemma_pow10_add((a - 1) as nat, b);
        assert(pow10(a + b) == 10 * pow10((a + b - 1) as nat));
        assert(10 * (pow10((a - 1) as nat) * pow10(b)) == (10 * pow10((a - 1) as nat)) * pow10(b))
            by (nonlinear_arith);
    }
}

pub proof fn lemma_pow10_mono(a: nat, b: nat)
    requires
        a <= b,
    ensures
        pow10(a) <= pow10(b),
{
    lemma_pow10_add(a, (b - a) as nat);
    lemma_pow10_pos(a);
    lemma_pow10_pos((b - a) as nat);
    assert(pow10(a) * 1 <= pow10(a) * pow10((b - a) as nat)) by (nonlinear_arith)
        requires
            pow10(a) >= 1,
            pow10((b - a) as nat) >= 1,
    ;
}

/// Multiplication by a positive number cancels in an equality.
pub proof fn lemma_cancel_eq(a: int, b: int, c: int)
    requires
        c >= 1,
        a * c == b * c,
    ensures
        a == b,
{
    assert(a == b) by (nonlinear_arith)
        requires
            c >= 1,
            a * c == b * c,
    ;
}

/// Multiplication by a positive number cancels in an inequality.
pub proof fn lemma_cancel_le(a: int, b: int, c: int)
    requires
        c >= 1,
        a * c <= b * c,
    ensures
        a <= b,
{
    assert(a <= b) by (nonlinear_arith)
        requires
            c >= 1,
            a * c <= b * c,
    ;
}

/// A well-formed scalar is determined by its rational value: the
/// representation is canonical.
pub proof fn lemma_canonical(a: Fixed, b: Fixed)
    requires
        a.wf(),
        b.wf(),
        a.mant * pow10(b.exp as nat) == b.mant * pow10(a.exp as nat),
    ensures
        a == b,
{
    if a.exp <= b.exp {
        lemma_canonical_le(a, b);
    } else {
        lemma_canonical_le(b, a);
    }
}

proof fn lemma_canonical_le(a: Fixed, b: Fixed)
    requires
        a.wf(),
        b.wf(),
        a.exp <= b.exp,
        a.mant * pow10(b.exp as nat) == b.mant * pow10(a.exp as nat),
    ensures
        a == b,
{
    let k = (b.exp - a.exp) as nat;
    lemma_pow10_add(a.exp as nat, k);
    lemma_pow10_pos(a.exp as nat);
    lemma_pow10_pos(k);
    assert(a.mant * (pow10(a.exp as nat) * pow10(k)) == (a.mant * pow10(k)) * pow10(a.exp as nat))
        by (nonlinear_arith);
    lemma_cancel_eq(a.mant * pow10(k), b.mant as int, pow10(a.exp as nat));
    if k > 0 {
        lemma_pow10_add(1, (k - 1) as nat);
        let t = a.mant * pow10((k - 1) as nat);
        assert(a.mant * pow10(k) == t * 10) by (nonlinear_arith)
            requires
                pow10(k) == 10 * pow10((k - 1) as nat),
                t == a.mant * pow10((k - 1) as nat),
        ;
        lemma_mod_multiples_basic(t, 10);
        assert(b.mant % 10 == 0);
        assert(false);
    }
    lemma_cancel_eq(a.mant as int, b.mant as int, pow10(a.exp as nat));
}

/// A rational has at most one well-formed representation.
pub proof fn lemma_is_rat_unique(a: Fixed, b: Fixed, n: int, e: nat)
    requires
        a.wf(),
        b.wf(),
        is_rat(a, n, e),
        is_rat(b, n, e),
    ensures
        a == b,
{
    lemma_pow10_pos(e);
    assert((a.mant * pow10(b.exp as nat)) * pow10(e) == (b.mant * pow10(a.exp as nat)) * pow10(e))
        by (nonlinear_arith)
        requires
            a.mant * pow10(e) == n * pow10(a.exp as nat),
            b.mant * pow10(e) == n * pow10(b.exp as nat),
    ;
    lemma_cancel_eq(
        a.mant * pow10(b.exp as nat),
        b.mant * pow10(a.exp as nat),
        pow10(e),
    );
    lemma_canonical(a, b);
}

/// The same value seen at another denominator.
pub proof fn lemma_is_rat_change(r: Fixed, n: int, e: nat, n2: int, e2: nat)
    requires
        is_rat(r, n, e),
        n * pow10(e2) == n2 * pow10(e),
    ensures
        is_rat(r, n2, e2),
{
    lemma_pow10_pos(e);
    assert((r.mant * pow10(e2)) * pow10(e) == (n2 * pow10(r.exp as nat)) * pow10(e))
        by (nonlinear_arith)
        requires
            r.mant * pow10(e) == n * pow10(r.exp as nat),
            n * pow10(e2) == n2 * pow10(e),
    ;
    lemma_cancel_eq(r.mant * pow10(e2), n2 * pow10(r.exp as nat), pow10(e));
}

/// A bound on the value gives a bound on the mantissa.
pub proof fn lemma_is_rat_bound(r: Fixed, n: int, e: nat, k: int)
    requires
        is_rat(r, n, e),
        k >= 0,
        -(k * pow10(e)) <= n <= k * pow10(e),
    ensures
        -(k * pow10(r.exp as nat)) <= r.mant <= k * pow10(r.exp as nat),
{
    lemma_pow10_pos(e);
    lemma_pow10_pos(r.exp as nat);
    assert(r.mant * pow10(e) <= (k * pow10(r.exp as nat)) * pow10(e)) by (nonlinear_arith)
        requires
            r.mant * pow10(e) == n * pow10(r.exp as nat),
            n <= k * pow10(e),
            pow10(r.exp as nat) >= 1,
            pow10(e) >= 1,
    ;
    lemma_cancel_le(r.mant as int, k * pow10(r.exp as nat), pow10(e));
    assert((-(k * pow10(r.exp as nat))) * pow10(e) <= r.mant * pow10(e)) by (nonlinear_arith)
        requires
            r.mant * pow10(e) == n * pow10(r.exp as nat),
            -(k * pow10(e)) <= n,
            pow10(r.exp as nat) >= 1,
            pow10(e) >= 1,
    ;
    lemma_cancel_le(-(k * pow10(r.exp as nat)), r.mant as int, pow10(e));
}

/// `10^e` as a machine integer.
pub fn pow10_exec(e: u32) -> (r: i128)
    requires
        e <= 37,
    ensures
        r == pow10(e as nat),
{
    let mut r: i128 = 1;
    let mut i: u32 = 0;
    while i < e
        invariant
            i <= e,
            e <= 37,
            r == pow10(i as nat),
            1 <= r,
        decreases e - i,
    {
        proof {
            lemma_pow10_mono((i + 1) as nat, 37);
            lemma_pow10_pos(i as nat);
            assert(pow10(37) < i128::MAX) by {
                reveal_with_fuel(pow10, 38);
            }
        }
        r = r * 10;
        i = i + 1;
    }
    r
}

/// Canonical form of `m0 / 10^e0`.
pub fn normalize(m0: i128, e0: u32) -> (r: Fixed)
    requires
        e0 <= EXP_MAX,
        -mant_cap() < m0 < mant_cap(),
    ensures
        r.wf(),
        r.exp <= e0,
        is_rat(r, m0 as int, e0 as nat),
        -(if m0 >= 0 { m0 as int } else { -(m0 as int) }) <= r.mant <= (if m0 >= 0 {
            m0 as int
        } else {
            -(m0 as int)
        }),
{
    proof {
        lemma_mant_cap_value();
    }
    let neg: bool = m0 < 0;
    let mut u: i128 = if neg { -m0 } else { m0 };
    let mut e: u32 = e0;
    while e > 0 && u % 10 == 0
        invariant
            e <= e0 <= EXP_MAX,
            0 <= u <= (if m0 >= 0 { m0 as int } else { -(m0 as int) }),
            u < mant_cap(),
            u * pow10(e0 as nat) == (if neg { -(m0 as int) } else { m0 as int }) * pow10(e as nat),
        decreases e,
    {
        proof {
            lemma_pow10_add(1, (e - 1) as nat);
            assert((u / 10) * pow10(e0 as nat) * 10 == u * pow10(e0 as nat)) by (nonlinear_arith)
                requires
                    u % 10 == 0,
                    u >= 0,
            ;
            assert((if neg { -(m0 as int) } else { m0 as int }) * pow10(e as nat) == (if neg {
                -m0
            } else {
                m0 as int
            }) * pow10((e - 1) as nat) * 10) by (nonlinear_arith)
                requires
                    pow10(e as nat) == 10 * pow10((e - 1) as nat),
            ;
        }
        u = u / 10;
        e = e - 1;
    }
    let m: i128 = if neg { -u } else { u };
    proof {
        if neg {
            assert(m * pow10(e0 as nat) == m0 * pow10(e as nat)) by (nonlinear_arith)
                requires
                    m == -u,
                    u * pow10(e0 as nat) == (-m0) * pow10(e as nat),
            ;
        }
        if u == 0 && e != 0 {
            lemma_pow10_pos(e0 as nat);
            lemma_pow10_pos(e as nat);
            assert(m0 == 0) by (nonlinear_arith)
                requires
                    m0 * pow10(e as nat) == 0,
                    pow10(e as nat) >= 1,
            ;
        }
        if e > 0 {
            assert(u % 10 != 0);
            assert(m % 10 != 0);
        }
    }
    let r = Fixed { mant: m, exp: e };
    proof {
        lemma_is_rat_change_back(r, m0 as int, e0 as nat, e as nat);
    }
    r
}

proof fn lemma_is_rat_change_back(r: Fixed, m0: int, e0: nat, e: nat)
    requires
        r.mant * pow10(e0) == m0 * pow10(e),
        r.exp as nat == e,
    ensures
        is_rat(r, m0, e0),
{
}

impl Fixed {
    /// The scalar `0`.
    pub fn zero() -> (r: Fixed)
        ensures
            r == (Fixed { mant: 0 as i128, exp: 0 as u32 }),
            r.wf(),
    {
        proof {
            lemma_pow10_pos(37);
        }
        Fixed { mant: 0, exp: 0 }
    }

    /// The scalar `1`.
    pub fn one() -> (r: Fixed)
        ensures
            r == (Fixed { mant: 1 as i128, exp: 0 as u32 }),
            r.wf(),
    {
        proof {
            lemma_mant_cap_value();
        }
        Fixed { mant: 1, exp: 0 }
    }

    /// Exact negation.
    pub fn neg(self) -> (r: Fixed)
        requires
            self.wf(),
        ensures
            r.wf(),
            r.mant == -self.mant,
            r.exp == self.exp,
    {
        proof {
            lemma_mant_cap_value();
        }
        Fixed { mant: -self.mant, exp: self.exp }
    }

    /// Exact sum: `a/10^ea + b/10^eb == (a 10^eb + b 10^ea) / 10^(ea+eb)`.
    pub fn add(self, rhs: Fixed) -> (r: Fixed)
        requires
            self.wf(),
            rhs.wf(),
            abs_i(self.mant as int) * pow10(rhs.exp as nat) + abs_i(rhs.mant as int) * pow10(
                self.exp as nat,
            ) < mant_cap(),
        ensures
            r.wf(),
            r.exp <= (if self.exp >= rhs.exp { self.exp } else { rhs.exp }),
            represents(r, rq_add(rat_of(self), rat_of(rhs))),
    {
        let e: u32 = if self.exp >= rhs.exp {
            self.exp
        } else {
            rhs.exp
        };
        proof {
            lemma_mant_cap_value();
            lemma_scale_bound(self.mant as int, (e - self.exp) as nat, rhs.exp as nat);
            lemma_scale_bound(rhs.mant as int, (e - rhs.exp) as nat, self.exp as nat);
        }
        let p1: i128 = pow10_exec(e - self.exp);
        let p2: i128 = pow10_exec(e - rhs.exp);
        let s: i128 = self.mant * p1 + rhs.mant * p2;
        let r = normalize(s, e);
        proof {
            lemma_add_rep(self, rhs, e as nat, s as int);
            lemma_is_rat_change(
                r,
                s as int,
                e as nat,
                self.mant * pow10(rhs.exp as nat) + rhs.mant * pow10(self.exp as nat),
                (self.exp + rhs.exp) as nat,
            );
        }
        r
    }

    /// Exact difference.
    pub fn sub(self, rhs: Fixed) -> (r: Fixed)
        requires
            self.wf(),
            rhs.wf(),
            abs_i(self.mant as int) * pow10(rhs.exp as nat) + abs_i(rhs.mant as int) * pow10(
                self.exp as nat,
            ) < mant_cap(),
        ensures
            r.wf(),
            r.exp <= (if self.exp >= rhs.exp { self.exp } else { rhs.exp }),
            represents(r, rq_sub(rat_of(self), rat_of(rhs))),
    {
        let t = rhs.neg();
        let r = self.add(t);
        proof {
            assert((-(rhs.mant as int)) * pow10(self.exp as nat) == -(rhs.mant * pow10(
                self.exp as nat,
            ))) by (nonlinear_arith);
            assert(abs_i(-(rhs.mant as int)) == abs_i(rhs.mant as int));
        }
        r
    }

    /// Exact product: `(a/10^ea) * (b/10^eb) == a b / 10^(ea+eb)`.
    pub fn mul(self, rhs: Fixed) -> (r: Fixed)
        requires
            self.wf(),
            rhs.wf(),
            self.exp + rhs.exp <= EXP_MAX,
            -mant_cap() < self.mant * rhs.mant < mant_cap(),
        ensures
            r.wf(),
            r.exp <= self.exp + rhs.exp,
            represents(r, rq_mul(rat_of(self), rat_of(rhs))),
    {
        proof {
            lemma_mant_cap_value();
        }
        let p: i128 = self.mant * rhs.mant;
        normalize(p, self.exp + rhs.exp)
    }

    /// Whether the value lies in the closed interval `[-1, 1]`, that is,
    /// whether the mantissa magnitude is at most `10^exp`.
    pub fn abs_le_one(self) -> (r: bool)
        requires
            self.wf(),
        ensures
            r == (abs_i(self.mant as int) <= pow10(self.exp as nat)),
    {
        proof {
            lemma_mant_cap_value();
        }
        let p: i128 = pow10_exec(self.exp);
        if self.mant < 0 {
            -self.mant <= p
        } else {
            self.mant <= p
        }
    }
}

/// Scaling by at most `10^cap` keeps a mantissa under `|m| * 10^cap`.
proof fn lemma_scale_bound(m: int, d: nat, cap: nat)
    requires
        d <= cap,
    ensures
        m * pow10(d) <= abs_i(m) * pow10(cap),
        -(abs_i(m) * pow10(cap)) <= m * pow10(d),
        0 <= abs_i(m) * pow10(cap),
{
    lemma_pow10_mono(d, cap);
    lemma_pow10_pos(d);
    assert(m * pow10(d) <= abs_i(m) * pow10(cap) && -(abs_i(m) * pow10(cap)) <= m * pow10(d)
        && 0 <= abs_i(m) * pow10(cap)) by (nonlinear_arith)
        requires
            1 <= pow10(d) <= pow10(cap),
            abs_i(m) == if m >= 0 { m } else { -m },
    ;
}

/// The aligned sum at exponent `e` equals the cross-multiplied sum at
/// exponent `ea + eb`.
proof fn lemma_add_rep(a: Fixed, b: Fixed, e: nat, s: int)
    requires
        a.exp as nat <= e,
        b.exp as nat <= e,
        s == a.mant * pow10((e - a.exp) as nat) + b.mant * pow10((e - b.exp) as nat),
    ensures
        s * pow10((a.exp + b.exp) as nat) == (a.mant * pow10(b.exp as nat) + b.mant * pow10(
            a.exp as nat,
        )) * pow10(e),
{
    let ea = a.exp as nat;
    let eb = b.exp as nat;
    let pa = pow10((e - ea) as nat);
    let pb = pow10((e - eb) as nat);
    let p = pow10(ea + eb);
    lemma_pow10_add((e - ea) as nat, ea + eb);
    lemma_pow10_add(eb, e);
    lemma_pow10_add((e - eb) as nat, ea + eb);
    lemma_pow10_add(ea, e);
    assert((e - ea) + (ea + eb) == eb + e);
    assert((e - eb) + (ea + eb) == ea + e);
    assert(pa * p == pow10(eb) * pow10(e));
    assert(pb * p == pow10(ea) * pow10(e));
    assert(s * p == (a.mant * pa) * p + (b.mant * pb) * p) by (nonlinear_arith)
        requires
            s == a.mant * pa + b.mant * pb,
    ;
    assert((a.mant * pa) * p == a.mant * (pa * p)) by (nonlinear_arith);
    assert((b.mant * pb) * p == b.mant * (pb * p)) by (nonlinear_arith);
    assert(a.mant * (pow10(eb) * pow10(e)) == (a.mant * pow10(eb)) * pow10(e))
        by (nonlinear_arith);
    assert(b.mant * (pow10(ea) * pow10(e)) == (b.mant * pow10(ea)) * pow10(e))
        by (nonlinear_arith);
    assert((a.mant * pow10(eb)) * pow10(e) + (b.mant * pow10(ea)) * pow10(e) == (a.mant * pow10(
        eb,
    ) + b.mant * pow10(ea)) * pow10(e)) by (nonlinear_arith);
}


/// A rational number written as `n / 10^d`; the ghost arithmetic the
/// scalar contracts are stated over.
pub ghost struct Rat {
    pub n: int,
    pub d: nat,
}

/// The rational a scalar stands for.
pub open spec fn rat_of(f: Fixed) -> Rat {
    Rat { n: f.mant as int, d: f.exp as nat }
}

/// Exact rational sum.
pub open spec fn rq_add(a: Rat, b: Rat) -> Rat {
    Rat { n: a.n * pow10(b.d) + b.n * pow10(a.d), d: a.d + b.d }
}

/// Exact rational difference.
pub open spec fn rq_sub(a: Rat, b: Rat) -> Rat {
    Rat { n: a.n * pow10(b.d) - b.n * pow10(a.d), d: a.d + b.d }
}

/// Exact rational product.
pub open spec fn rq_mul(a: Rat, b: Rat) -> Rat {
    Rat { n: a.n * b.n, d: a.d + b.d }
}

/// Equality of rationals, by cross multiplication.
pub open spec fn rat_eq(a: Rat, b: Rat) -> bool {
    a.n * pow10(b.d) == b.n * pow10(a.d)
}

/// `f` stands for the rational `r`.
pub open spec fn represents(f: Fixed, r: Rat) -> bool {
    is_rat(f, r.n, r.d)
}

pub proof fn lemma_rat_eq_trans(a: Rat, b: Rat, c: Rat)
    requires
        rat_eq(a, b),
        rat_eq(b, c),
    ensures
        rat_eq(a, c),
{
    lemma_pow10_pos(b.d);
    assert((a.n * pow10(c.d)) * pow10(b.d) == (c.n * pow10(a.d)) * pow10(b.d)) by (nonlinear_arith)
        requires
            a.n * pow10(b.d) == b.n * pow10(a.d),
            b.n * pow10(c.d) == c.n * pow10(b.d),
    ;
    lemma_cancel_eq(a.n * pow10(c.d), c.n * pow10(a.d), pow10(b.d));
}

/// Products of four factors may pair up either way.
proof fn lemma_swap4(x: int, y: int, z: int, w: int)
    ensures
        (x * y) * (z * w) == (x * z) * (y * w),
{
    assert((x * y) * (z * w) == (x * z) * (y * w)) by (nonlinear_arith);
}

/// Equal rationals may replace one another as the left operand of a sum.
pub proof fn lemma_rq_add_cong(a: Rat, a2: Rat, b: Rat)
    requires
        rat_eq(a, a2),
    ensures
        rat_eq(rq_add(a, b), rq_add(a2, b)),
        rat_eq(rq_add(b, a), rq_add(b, a2)),
        rat_eq(rq_sub(a, b), rq_sub(a2, b)),
        rat_eq(rq_sub(b, a), rq_sub(b, a2)),
{
    let pa = pow10(a.d);
    let pa2 = pow10(a2.d);
    let pb = pow10(b.d);
    lemma_pow10_add(a2.d, b.d);
    lemma_pow10_add(a.d, b.d);
    let t1 = a.n * pb;
    let t2 = b.n * pa;
    let u1 = a2.n * pb;
    let u2 = b.n * pa2;
    lemma_mul_is_distributive_add_other_way(pa2 * pb, t1, t2);
    lemma_mul_is_distributive_sub_other_way(pa2 * pb, t1, t2);
    lemma_mul_is_distributive_add_other_way(pa * pb, u1, u2);
    lemma_mul_is_distributive_sub_other_way(pa * pb, u1, u2);
    lemma_swap4(a.n, pb, pa2, pb);
    lemma_swap4(b.n, pa, pa2, pb);
    lemma_swap4(a2.n, pb, pa, pb);
    lemma_swap4(b.n, pa2, pa, pb);
    assert((a.n * pa2) * (pb * pb) == (a2.n * pa) * (pb * pb));
    lemma_swap4(a2.n, pa, pb, pb);
    lemma_swap4(a2.n, pb, pa, pb);
    assert(t1 * (pa2 * pb) == u1 * (pa * pb));
    assert(t2 * (pa2 * pb) == u2 * (pa * pb));
    assert(rat_eq(rq_add(a, b), rq_add(a2, b)));
    assert(rat_eq(rq_sub(a, b), rq_sub(a2, b)));
    assert(rq_add(b, a) == rq_add(a, b));
    assert(rq_add(b, a2) == rq_add(a2, b));
    let v1 = b.n * pa;
    let v2 = a.n * pb;
    let w1 = b.n * pa2;
    let w2 = a2.n * pb;
    lemma_mul_is_distributive_sub_other_way(pb * pa2, v1, v2);
    lemma_mul_is_distributive_sub_other_way(pb * pa, w1, w2);
    lemma_swap4(b.n, pa, pb, pa2);
    lemma_swap4(b.n, pa2, pb, pa);
    assert(v1 * (pb * pa2) == w1 * (pb * pa)) by (nonlinear_arith)
        requires
            v1 == b.n * pa,
            w1 == b.n * pa2,
    ;
    lemma_swap4(a.n, pb, pb, pa2);
    lemma_swap4(a2.n, pb, pb, pa);
    assert((a.n * pb) * (pb * pa2) == (a.n * pa2) * (pb * pb)) by (nonlinear_arith);
    assert((a2.n * pb) * (pb * pa) == (a2.n * pa) * (pb * pb)) by (nonlinear_arith);
    assert(v2 * (pb * pa2) == w2 * (pb * pa));
    assert(rat_eq(rq_sub(b, a), rq_sub(b, a2)));
}

/// Equal rationals may replace one another as a factor.
pub proof fn lemma_rq_mul_cong(a: Rat, a2: Rat, b: Rat)
    requires
        rat_eq(a, a2),
    ensures
        rat_eq(rq_mul(a, b), rq_mul(a2, b)),
        rat_eq(rq_mul(b, a), rq_mul(b, a2)),
{
    let pa = pow10(a.d);
    let pa2 = pow10(a2.d);
    let pb = pow10(b.d);
    lemma_pow10_add(a2.d, b.d);
    lemma_pow10_add(a.d, b.d);
    lemma_swap4(a.n, b.n, pa2, pb);
    lemma_swap4(a2.n, pa, b.n, pb);
    assert((a.n * pa2) * (b.n * pb) == (a2.n * pa) * (b.n * pb));
    assert((a2.n * pa) * (b.n * pb) == (b.n * pb) * (a2.n * pa)) by (nonlinear_arith);
    lemma_swap4(b.n, a.n, pb, pa2);
    assert((b.n * pb) * (a.n * pa2) == (b.n * pb) * (a2.n * pa));
    lemma_swap4(b.n, pb, a2.n, pa);
    assert(rat_eq(rq_mul(a, b), rq_mul(a2, b)));
    assert(rat_eq(rq_mul(b, a), rq_mul(b, a2)));
}

/// A scalar standing for a rational stands for every equal rational.
pub proof fn lemma_represents_eq(f: Fixed, r1: Rat, r2: Rat)
    requires
        represents(f, r1),
        rat_eq(r1, r2),
    ensures
        represents(f, r2),
{
    lemma_is_rat_change(f, r1.n, r1.d, r2.n, r2.d);
}

/// Magnitude bound `k`: the value lies in `[-k, k]` and carries at most
/// six decimal places.
pub open spec fn small(f: Fixed, k: int) -> bool {
    &&& f.wf()
    &&& f.exp <= 6
    &&& -(k * pow10(f.exp as nat)) <= f.mant <= k * pow10(f.exp as nat)
}

/// A product of values bounded by `ka` and `kb` is bounded by `ka * kb`.
pub proof fn lemma_prod_mant_bound(a: Fixed, b: Fixed, r: Fixed, ka: int, kb: int)
    requires
        ka >= 0,
        kb >= 0,
        -(ka * pow10(a.exp as nat)) <= a.mant <= ka * pow10(a.exp as nat),
        -(kb * pow10(b.exp as nat)) <= b.mant <= kb * pow10(b.exp as nat),
        represents(r, rq_mul(rat_of(a), rat_of(b))),
    ensures
        -((ka * kb) * pow10(r.exp as nat)) <= r.mant <= (ka * kb) * pow10(r.exp as nat),
{
    let e = (a.exp + b.exp) as nat;
    lemma_pow10_add(a.exp as nat, b.exp as nat);
    lemma_pow10_pos(a.exp as nat);
    lemma_pow10_pos(b.exp as nat);
    assert(-((ka * kb) * pow10(e)) <= a.mant * b.mant <= (ka * kb) * pow10(e))
        by (nonlinear_arith)
        requires
            ka >= 0,
            kb >= 0,
            pow10(a.exp as nat) >= 1,
            pow10(b.exp as nat) >= 1,
            -(ka * pow10(a.exp as nat)) <= a.mant <= ka * pow10(a.exp as nat),
            -(kb * pow10(b.exp as nat)) <= b.mant <= kb * pow10(b.exp as nat),
            pow10(e) == pow10(a.exp as nat) * pow10(b.exp as nat),
    ;
    lemma_is_rat_bound(r, a.mant * b.mant, e, ka * kb);
}

/// A sum (or difference) of values bounded by `ka` and `kb` is bounded
/// by `ka + kb`.
pub proof fn lemma_addsub_mant_bound(a: Fixed, b: Fixed, r: Fixed, ka: int, kb: int)
    requires
        ka >= 0,
        kb >= 0,
        -(ka * pow10(a.exp as nat)) <= a.mant <= ka * pow10(a.exp as nat),
        -(kb * pow10(b.exp as nat)) <= b.mant <= kb * pow10(b.exp as nat),
        represents(r, rq_add(rat_of(a), rat_of(b))) || represents(
            r,
            rq_sub(rat_of(a), rat_of(b)),
        ),
    ensures
        -((ka + kb) * pow10(r.exp as nat)) <= r.mant <= (ka + kb) * pow10(r.exp as nat),
{
    let e = (a.exp + b.exp) as nat;
    lemma_pow10_add(a.exp as nat, b.exp as nat);
    lemma_pow10_pos(a.exp as nat);
    lemma_pow10_pos(b.exp as nat);
    let np = a.mant * pow10(b.exp as nat) + b.mant * pow10(a.exp as nat);
    let nm = a.mant * pow10(b.exp as nat) - b.mant * pow10(a.exp as nat);
    assert(-((ka + kb) * pow10(e)) <= np <= (ka + kb) * pow10(e) && -((ka + kb) * pow10(e)) <= nm
        <= (ka + kb) * pow10(e)) by (nonlinear_arith)
        requires
            ka >= 0,
            kb >= 0,
            pow10(a.exp as nat) >= 1,
            pow10(b.exp as nat) >= 1,
            np == a.mant * pow10(b.exp as nat) + b.mant * pow10(a.exp as nat),
            nm == a.mant * pow10(b.exp as nat) - b.mant * pow10(a.exp as nat),
            -(ka * pow10(a.exp as nat)) <= a.mant <= ka * pow10(a.exp as nat),
            -(kb * pow10(b.exp as nat)) <= b.mant <= kb * pow10(b.exp as nat),
            pow10(e) == pow10(a.exp as nat) * pow10(b.exp as nat),
    ;
    if represents(r, rq_add(rat_of(a), rat_of(b))) {
        lemma_is_rat_bound(r, np, e, ka + kb);
    } else {
        lemma_is_rat_bound(r, nm, e, ka + kb);
    }
}


/// The value of `f` lies in `[-k, k]` and its exponent is at most `e`.
pub open spec fn val_bound(f: Fixed, k: int, e: nat) -> bool {
    &&& f.wf()
    &&& f.exp as nat <= e
    &&& -(k * pow10(f.exp as nat)) <= f.mant <= k * pow10(f.exp as nat)
}

/// Operands bounded by `k` with exponents at most `e` satisfy the
/// overflow precondition of `add` and `sub`.
pub proof fn lemma_fixed_add_ok(a: Fixed, b: Fixed, k: int, e: nat)
    requires
        k >= 0,
        val_bound(a, k, e),
        val_bound(b, k, e),
        2 * (k * pow10(e + e)) < mant_cap(),
    ensures
        abs_i(a.mant as int) * pow10(b.exp as nat) + abs_i(b.mant as int) * pow10(a.exp as nat)
            < mant_cap(),
{
    lemma_pow10_add(a.exp as nat, b.exp as nat);
    lemma_pow10_mono((a.exp + b.exp) as nat, e + e);
    lemma_pow10_pos(a.exp as nat);
    lemma_pow10_pos(b.exp as nat);
    assert(abs_i(a.mant as int) * pow10(b.exp as nat) + abs_i(b.mant as int) * pow10(a.exp as nat)
        <= 2 * (k * pow10(e + e))) by (nonlinear_arith)
        requires
            k >= 0,
            pow10(a.exp as nat) >= 1,
            pow10(b.exp as nat) >= 1,
            0 <= abs_i(a.mant as int) <= k * pow10(a.exp as nat),
            0 <= abs_i(b.mant as int) <= k * pow10(b.exp as nat),
            pow10(a.exp as nat) * pow10(b.exp as nat) == pow10((a.exp + b.exp) as nat),
            pow10((a.exp + b.exp) as nat) <= pow10(e + e),
    ;
}

/// Operands bounded by `k` with exponents at most `e` satisfy the
/// overflow precondition of `mul`.
pub proof fn lemma_fixed_mul_ok(a: Fixed, b: Fixed, k: int, e: nat)
    requires
        k >= 0,
        val_bound(a, k, e),
        val_bound(b, k, e),
        e + e <= EXP_MAX,
        (k * k) * pow10(e + e) < mant_cap(),
    ensures
        a.exp + b.exp <= EXP_MAX,
        -mant_cap() < a.mant * b.mant < mant_cap(),
{
    lemma_pow10_add(a.exp as nat, b.exp as nat);
    lemma_pow10_mono((a.exp + b.exp) as nat, e + e);
    lemma_pow10_pos(a.exp as nat);
    lemma_pow10_pos(b.exp as nat);
    lemma_pow10_pos(e + e);
    assert(-((k * k) * pow10(e + e)) <= a.mant * b.mant <= (k * k) * pow10(e + e))
        by (nonlinear_arith)
        requires
            k >= 0,
            pow10(a.exp as nat) >= 1,
            pow10(b.exp as nat) >= 1,
            -(k * pow10(a.exp as nat)) <= a.mant <= k * pow10(a.exp as nat),
            -(k * pow10(b.exp as nat)) <= b.mant <= k * pow10(b.exp as nat),
            pow10(a.exp as nat) * pow10(b.exp as nat) == pow10((a.exp + b.exp) as nat),
            pow10((a.exp + b.exp) as nat) <= pow10(e + e),
    ;
}


/// Both operands of a sum, difference or product may be replaced by
/// equal rationals.
pub proof fn lemma_rq_subst(a: Rat, b: Rat, a2: Rat, b2: Rat)
    requires
        rat_eq(a, a2),
        rat_eq(b, b2),
    ensures
        rat_eq(rq_add(a, b), rq_add(a2, b2)),
        rat_eq(rq_sub(a, b), rq_sub(a2, b2)),
        rat_eq(rq_mul(a, b), rq_mul(a2, b2)),
{
    lemma_rq_add_cong(a, a2, b);
    lemma_rq_add_cong(b, b2, a2);
    lemma_rat_eq_trans(rq_add(a, b), rq_add(a2, b), rq_add(a2, b2));
    lemma_rat_eq_trans(rq_sub(a, b), rq_sub(a2, b), rq_sub(a2, b2));
    lemma_rq_mul_cong(a, a2, b);
    lemma_rq_mul_cong(b, b2, a2);
    lemma_rat_eq_trans(rq_mul(a, b), rq_mul(a2, b), rq_mul(a2, b2));
}

/// A value bound may be relaxed.
pub proof fn lemma_val_bound_widen(f: Fixed, k1: int, k2: int, e1: nat, e2: nat)
    requires
        val_bound(f, k1, e1),
        0 <= k1 <= k2,
        e1 <= e2,
    ensures
        val_bound(f, k2, e2),
{
    lemma_pow10_pos(f.exp as nat);
    assert(k1 * pow10(f.exp as nat) <= k2 * pow10(f.exp as nat)) by (nonlinear_arith)
        requires
            k1 <= k2,
            pow10(f.exp as nat) >= 1,
    ;
}

} // verus!



