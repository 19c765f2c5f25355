//! Three-component vectors over fixed-point scalars.
//!
//! A scalar is an `i64` counting units of `1 / ONE`; the value `ONE` stands
//! for 1.0. Components of a vector in range stay within `LIMIT`, which keeps
//! every dot product and every product of two dot products inside `i128`.
use vstd::prelude::*;

verus! {

/// The fixed-point unit: the scalar 1.0.
pub const ONE: i64 = 10000;

/// The largest magnitude of a component of a vector in range.
pub const LIMIT: i64 = 268435456;

/// Floor division by a positive divisor (Euclidean division in `int`).
pub open spec fn fdiv(a: int, b: int) -> int {
    a / b
}

/// Fixed-point product of two scalars, rounded down.
pub open spec fn fmul(a: int, b: int) -> int {
    fdiv(a * b, ONE as int)
}

pub open spec fn in_bound(a: int) -> bool {
    -(LIMIT as int) <= a <= LIMIT as int
}

/// `r` is the integer square root of `n`, rounded down.
pub open spec fn is_floor_sqrt(n: int, r: int) -> bool {
    0 <= r && r * r <= n && n < (r + 1) * (r + 1)
}

/// The integer square root of a non-negative `n`, rounded down.
pub open spec fn floor_sqrt(n: int) -> int {
    choose|r: int| #[trigger] is_floor_sqrt(n, r)
}

pub proof fn lemma_floor_sqrt_exists(n: int)
    requires
        n >= 0,
    ensures
        exists|r: int| #[trigger] is_floor_sqrt(n, r),
    decreases n,
{
    if n == 0 {
        assert(is_floor_sqrt(0, 0));
    } else {
        lemma_floor_sqrt_exists(n - 1);
        let r = choose|r: int| #[trigger] is_floor_sqrt(n - 1, r);
        if n < (r + 1) * (r + 1) {
            assert(is_floor_sqrt(n, r));
        } else {
            assert((r + 1) * (r + 1) == n);
            assert(n < (r + 2) * (r + 2)) by (nonlinear_arith)
                requires
                    (r + 1) * (r + 1) == n,
                    r >= 0,
            ;
            assert(is_floor_sqrt(n, r + 1));
        }
    }
}

proof fn lemma_floor_sqrt_unique(n: int, r1: int, r2: int)
    requires
        is_floor_sqrt(n, r1),
        is_floor_sqrt(n, r2),
    ensures
        r1 == r2,
{
    if r1 < r2 {
        assert((r1 + 1) * (r1 + 1) <= r2 * r2) by (nonlinear_arith)
            requires
                0 <= r1 < r2,
        ;
    } else if r2 < r1 {
        assert((r2 + 1) * (r2 + 1) <= r1 * r1) by (nonlinear_arith)
            requires
                0 <= r2 < r1,
        ;
    }
}

/// Every relation `is_floor_sqrt(n, r)` pins `r` down to `floor_sqrt(n)`.
pub proof fn lemma_floor_sqrt(n: int, r: int)
    requires
        n >= 0,
        is_floor_sqrt(n, r),
    ensures
        floor_sqrt(n) == r,
{
    lemma_floor_sqrt_exists(n);
    lemma_floor_sqrt_unique(n, floor_sqrt(n), r);
}

/// Integer square root by bisection.
pub fn isqrt(n: i128) -> (r: i128)
    requires
        0 <= n < 0x4000000000000000000000000000000,
    ensures
        r == floor_sqrt(n as int),
        0 <= r <= 0x2000000000000000,
{
    let mut lo: i128 = 0;
    let mut hi: i128 = 0x2000000000000000;
    assert(n < hi * hi) by (nonlinear_arith)
        requires
            hi == 0x2000000000000000,
            n < 0x4000000000000000000000000000000,
    ;
    while hi - lo > 1
        invariant
            0 <= lo < hi <= 0x2000000000000000,
            lo * lo <= n < hi * hi,
        decreases hi - lo,
    {
        let mid: i128 = lo + (hi - lo) / 2;
        assert(mid * mid <= 0x2000000000000000 * 0x2000000000000000) by (nonlinear_arith)
            requires
                0 <= mid <= 0x2000000000000000,
        ;
        if mid * mid <= n {
            lo = mid;
        } else {
            hi = mid;
        }
    }
    proof {
        lemma_floor_sqrt(n as int, lo as int);
    }
    lo
}

/// Floor division of a signed value by a positive divisor.
pub fn div_floor(a: i128, b: i128) -> (r: i128)
    requires
        0 < b <= 0x40000000000000000000000000000000,
        -0x40000000000000000000000000000000 <= a <= 0x40000000000000000000000000000000,
    ensures
        r == fdiv(a as int, b as int),
{
    if a >= 0 {
        a / b
    } else {
        let q: i128 = (-a - 1 + b) / b;
        proof {
            let na = -a;
            let qq = (na + b - 1) / (b as int);
            let rr = (na + b - 1) % (b as int);
            assert(b * qq + rr == na + b - 1 && 0 <= rr < b) by (nonlinear_arith)
                requires
                    b > 0,
                    qq == (na + b - 1) / (b as int),
                    rr == (na + b - 1) % (b as int),
            ;
            assert(a == b * (-qq) + (b - 1 - rr)) by (nonlinear_arith)
                requires
                    b * qq + rr == na + b - 1,
                    na == -a,
            ;
            assert((a as int) / (b as int) == -qq) by (nonlinear_arith)
                requires
                    a == b * (-qq) + (b - 1 - rr),
                    0 <= b - 1 - rr < b,
                    b > 0,
            ;
        }
        -q
    }
}

/// A vector of three fixed-point scalars: a point, a direction or a color.
#[derive(Copy, Clone, Debug, PartialEq, Eq, Structural)]
pub struct Vec3 {
    pub x: i64,
    pub y: i64,
    pub z: i64,
}

/// Dot product over the integers.
pub open spec fn dot_spec(a: Vec3, b: Vec3) -> int {
    a.x * b.x + a.y * b.y + a.z * b.z
}

impl Vec3 {
    /// Every component lies within `LIMIT`.
    pub open spec fn in_range(self) -> bool {
        in_bound(self.x as int) && in_bound(self.y as int) && in_bound(self.z as int)
    }

    /// Every component lies within `k` in magnitude.
    pub open spec fn within(self, k: int) -> bool {
        -k <= self.x <= k && -k <= self.y <= k && -k <= self.z <= k
    }

    pub fn new(x: i64, y: i64, z: i64) -> (r: Vec3)
        ensures
            r == (Vec3 { x, y, z }),
    {
        Vec3 { x, y, z }
    }

    pub fn x(&self) -> (r: i64)
        ensures
            r == self.x,
    {
        self.x
    }

    pub fn y(&self) -> (r: i64)
        ensures
            r == self.y,
    {
        self.y
    }

    pub fn z(&self) -> (r: i64)
        ensures
            r == self.z,
    {
        self.z
    }

    /// Builds a vector from wide components, or `None` where one is out of range.
    pub fn from_wide(x: i128, y: i128, z: i128) -> (r: Option<Vec3>)
        ensures
            r.is_some() <==> (in_bound(x as int) && in_bound(y as int) && in_bound(z as int)),
            r.is_some() ==> r.unwrap().x == x && r.unwrap().y == y && r.unwrap().z == z,
    {
        if -(LIMIT as i128) <= x && x <= LIMIT as i128 && -(LIMIT as i128) <= y && y
            <= LIMIT as i128 && -(LIMIT as i128) <= z && z <= LIMIT as i128 {
            Some(Vec3 { x: x as i64, y: y as i64, z: z as i64 })
        } else {
            None
        }
    }

    pub fn add(self, o: Vec3) -> (r: Vec3)
        requires
            self.in_range(),
            o.in_range(),
        ensures
            r.x == self.x + o.x,
            r.y == self.y + o.y,
            r.z == self.z + o.z,
    {
        Vec3 { x: self.x + o.x, y: self.y + o.y, z: self.z + o.z }
    }

    pub fn sub(self, o: Vec3) -> (r: Vec3)
        requires
            self.in_range(),
            o.in_range(),
        ensures
            r.x == self.x - o.x,
            r.y == self.y - o.y,
            r.z == self.z - o.z,
    {
        Vec3 { x: self.x - o.x, y: self.y - o.y, z: self.z - o.z }
    }

    /// Dot product, exact.
    pub fn dot(self, o: Vec3) -> (r: i128)
        requires
            self.in_range(),
            o.in_range(),
        ensures
            r == dot_spec(self, o),
            -0x1000000000000000 <= r <= 0x1000000000000000,
    {
        proof {
            lemma_bounded_product(self.x as int, o.x as int);
            lemma_bounded_product(self.y as int, o.y as int);
            lemma_bounded_product(self.z as int, o.z as int);
        }
        (self.x as i128) * (o.x as i128) + (self.y as i128) * (o.y as i128) + (self.z as i128)
            * (o.z as i128)
    }

    /// Squared length, exact.
    pub fn squared_length(self) -> (r: i128)
        requires
            self.in_range(),
        ensures
            r == dot_spec(self, self),
            0 <= r <= 0x1000000000000000,
    {
        proof {
            lemma_square_nonneg(self.x as int);
            lemma_square_nonneg(self.y as int);
            lemma_square_nonneg(self.z as int);
        }
        self.dot(self)
    }

    /// Cross product, exact.
    pub fn cross(self, o: Vec3) -> (r: (i128, i128, i128))
        requires
            self.in_range(),
            o.in_range(),
        ensures
            r.0 == self.y * o.z - self.z * o.y,
            r.1 == self.z * o.x - self.x * o.z,
            r.2 == self.x * o.y - self.y * o.x,
    {
        proof {
            lemma_bounded_product(self.y as int, o.z as int);
            lemma_bounded_product(self.z as int, o.y as int);
            lemma_bounded_product(self.z as int, o.x as int);
            lemma_bounded_product(self.x as int, o.z as int);
            lemma_bounded_product(self.x as int, o.y as int);
            lemma_bounded_product(self.y as int, o.x as int);
        }
        (
            (self.y as i128) * (o.z as i128) - (self.z as i128) * (o.y as i128),
            (self.z as i128) * (o.x as i128) - (self.x as i128) * (o.z as i128),
            (self.x as i128) * (o.y as i128) - (self.y as i128) * (o.x as i128),
        )
    }

    /// Component-wise fixed-point product (color attenuation).
    pub fn mul(self, o: Vec3) -> (r: (i128, i128, i128))
        requires
            self.in_range(),
            o.in_range(),
        ensures
            r.0 == fmul(self.x as int, o.x as int),
            r.1 == fmul(self.y as int, o.y as int),
            r.2 == fmul(self.z as int, o.z as int),
    {
        (scale_mul(self.x, o.x), scale_mul(self.y, o.y), scale_mul(self.z, o.z))
    }

    /// Multiplies every component by the fixed-point scalar `k`.
    pub fn scale(self, k: i64) -> (r: (i128, i128, i128))
        requires
            self.in_range(),
            in_bound(k as int),
        ensures
            r.0 == fmul(k as int, self.x as int),
            r.1 == fmul(k as int, self.y as int),
            r.2 == fmul(k as int, self.z as int),
    {
        (scale_mul(k, self.x), scale_mul(k, self.y), scale_mul(k, self.z))
    }
}

proof fn lemma_square_nonneg(a: int)
    ensures
        a * a >= 0,
{
    assert(a * a >= 0) by (nonlinear_arith);
}

pub proof fn lemma_bounded_product(a: int, b: int)
    requires
        in_bound(a),
        in_bound(b),
    ensures
        -0x100000000000000 <= a * b <= 0x100000000000000,
{
    assert(-0x100000000000000 <= a * b <= 0x100000000000000) by (nonlinear_arith)
        requires
            -268435456 <= a <= 268435456,
            -268435456 <= b <= 268435456,
    ;
}

/// Fixed-point product of any two scalars.
pub fn fixed_mul(a: i64, b: i64) -> (r: i128)
    ensures
        r == fmul(a as int, b as int),
{
    assert(-0x40000000000000000000000000000000 <= a * b <= 0x40000000000000000000000000000000)
        by (nonlinear_arith)
        requires
            -0x8000000000000000 <= a <= 0x7fffffffffffffff,
            -0x8000000000000000 <= b <= 0x7fffffffffffffff,
    ;
    div_floor((a as i128) * (b as i128), ONE as i128)
}

/// Fixed-point product of two wide scalars.
pub fn fixed_mul_wide(a: i128, b: i128) -> (r: i128)
    requires
        -0x4000000000000000 <= a <= 0x4000000000000000,
        -0x4000000000000000 <= b <= 0x4000000000000000,
    ensures
        r == fmul(a as int, b as int),
{
    assert(-0x10000000000000000000000000000000 <= a * b <= 0x10000000000000000000000000000000)
        by (nonlinear_arith)
        requires
            -0x4000000000000000 <= a <= 0x4000000000000000,
            -0x4000000000000000 <= b <= 0x4000000000000000,
    ;
    div_floor(a * b, ONE as i128)
}

/// A fixed-point product is no larger in magnitude than the plain product bound.
pub proof fn lemma_fmul_bound(a: int, b: int, m: int, n: int)
    requires
        -m <= a <= m,
        -n <= b <= n,
    ensures
        -(m * n) - 1 <= fmul(a, b) <= m * n,
{
    assert(-(m * n) <= a * b <= m * n) by (nonlinear_arith)
        requires
            -m <= a <= m,
            -n <= b <= n,
    ;
    let p = a * b;
    assert(-(m * n) - 1 <= p / 10000 <= m * n) by (nonlinear_arith)
        requires
            -(m * n) <= p <= m * n,
    ;
}

/// A scalar of magnitude at most `m` times a vector component of magnitude at
/// most `k` (in units of `ONE`) stays within `m k`, give or take one.
pub proof fn lemma_fmul_scale(a: int, b: int, m: int, k: int)
    requires
        -m <= a <= m,
        -k * ONE <= b <= k * ONE,
        m >= 0,
        k >= 0,
    ensures
        -(m * k) - 1 <= fmul(a, b) <= m * k,
{
    assert(-(m * k * 10000) <= a * b <= m * k * 10000) by (nonlinear_arith)
        requires
            -m <= a <= m,
            -k * 10000 <= b <= k * 10000,
            m >= 0,
            k >= 0,
    ;
    let p = a * b;
    let mk = m * k;
    assert(-mk - 1 <= p / 10000 <= mk) by (nonlinear_arith)
        requires
            -(mk * 10000) <= p <= mk * 10000,
            mk == m * k,
            m * k * 10000 == mk * 10000,
    ;
}

/// Fixed-point product of two in-range scalars.
pub fn scale_mul(a: i64, b: i64) -> (r: i128)
    requires
        in_bound(a as int),
        in_bound(b as int),
    ensures
        r == fmul(a as int, b as int),
        -0x100000000000000 <= r <= 0x100000000000000,
{
    proof {
        lemma_bounded_product(a as int, b as int);
    }
    let r = div_floor((a as i128) * (b as i128), ONE as i128);
    proof {
        let p = a * b;
        assert(-0x100000000000000 <= p / 10000 <= 0x100000000000000) by (nonlinear_arith)
            requires
                -0x100000000000000 <= p <= 0x100000000000000,
        ;
    }
    r
}

} // verus!
