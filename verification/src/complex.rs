//! Complex numbers with exact integer parts, and the escape time of the orbit
//! `z -> z * z + c` that starts at `c`.

use vstd::prelude::*;
use crate::vector::{storable, product_difference, product_sum};

verus! {

/// A complex number with mathematical integers for its parts: the model of a
/// [`Complex`].
pub struct Gauss {
    pub re: int,
    pub im: int,
}

/// Componentwise sum.
pub open spec fn gauss_sum(a: Gauss, b: Gauss) -> Gauss {
    Gauss { re: a.re + b.re, im: a.im + b.im }
}

/// Componentwise difference.
pub open spec fn gauss_diff(a: Gauss, b: Gauss) -> Gauss {
    Gauss { re: a.re - b.re, im: a.im - b.im }
}

/// The complex product.
pub open spec fn gauss_prod(a: Gauss, b: Gauss) -> Gauss {
    Gauss { re: a.re * b.re - a.im * b.im, im: a.re * b.im + a.im * b.re }
}

/// The stored form of a complex number: `Some` exactly when both parts fit.
pub open spec fn pack_complex(g: Gauss) -> Option<Complex> {
    if storable(g.re) && storable(g.im) {
        Some(Complex { real: g.re as i64, lateral: g.im as i64 })
    } else {
        None
    }
}

/// The `n`-th point of the orbit of `c`: it starts at `c`, and each point is
/// the square of the one before, plus `c`.
pub open spec fn orbit(c: Gauss, n: nat) -> Gauss
    decreases n,
{
    if n == 0 {
        c
    } else {
        gauss_sum(gauss_prod(orbit(c, (n - 1) as nat), orbit(c, (n - 1) as nat)), c)
    }
}

/// Whether `z` lies outside the circle of radius two: from there an orbit
/// never comes back.
pub open spec fn escaped(z: Gauss) -> bool {
    z.re * z.re + z.im * z.im > 4
}

/// The number of steps that [`mandelbrot`] follows an orbit for.
pub const STEP_BUDGET: u32 = 50;

/// A complex number; `lateral` is its imaginary part.
#[derive(Clone, Copy, Debug, PartialEq, Eq, Structural)]
pub struct Complex {
    pub real: i64,
    pub lateral: i64,
}

impl View for Complex {
    type V = Gauss;

    open spec fn view(&self) -> Gauss {
        Gauss { re: self.real as int, im: self.lateral as int }
    }
}

/// How the orbit of a point ended.
#[derive(Clone, Copy, Debug, PartialEq, Eq, Structural)]
pub enum Escape {
    /// The orbit left the circle of radius two; the step at which it was
    /// first outside.
    Diverged(u32),
    /// The orbit stayed inside for every step of the budget.
    BudgetExhausted,
}

/// Builds a complex number from two parts that may each be missing.
fn gather(re: Option<i64>, im: Option<i64>) -> (r: Option<Complex>)
    ensures
        r == match (re, im) {
            (Some(a), Some(b)) => Some(Complex { real: a, lateral: b }),
            _ => None,
        },
{
    match (re, im) {
        (Some(a), Some(b)) => Some(Complex { real: a, lateral: b }),
        _ => None,
    }
}

impl Complex {
    /// The sum with `num`.
    pub fn add(&self, num: &Complex) -> (r: Option<Complex>)
        ensures
            r == pack_complex(gauss_sum(self@, num@)),
    {
        gather(self.real.checked_add(num.real), self.lateral.checked_add(num.lateral))
    }

    /// This number minus `num`.
    pub fn sub(&self, num: &Complex) -> (r: Option<Complex>)
        ensures
            r == pack_complex(gauss_diff(self@, num@)),
    {
        gather(self.real.checked_sub(num.real), self.lateral.checked_sub(num.lateral))
    }

    /// The product with `num`.
    pub fn mul(&self, num: &Complex) -> (r: Option<Complex>)
        ensures
            r == pack_complex(gauss_prod(self@, num@)),
    {
        gather(
            product_difference(self.real, num.real, self.lateral, num.lateral),
            product_sum(self.real, num.lateral, self.lateral, num.real),
        )
    }

    /// Whether this number lies outside the circle of radius two.
    pub fn has_escaped(&self) -> (b: bool)
        ensures
            b == escaped(self@),
    {
        let re: i64 = self.real;
        let im: i64 = self.lateral;
        if re < -2 || re > 2 || im < -2 || im > 2 {
            assert(re * re + im * im > 4) by (nonlinear_arith)
                requires
                    re < -2 || re > 2 || im < -2 || im > 2,
            ;
            true
        } else {
            assert(0 <= re * re <= 4 && 0 <= im * im <= 4) by (nonlinear_arith)
                requires
                    -2 <= re <= 2,
                    -2 <= im <= 2,
            ;
            re * re + im * im > 4
        }
    }

    /// The next point of the orbit of `c` after `self`, both inside the circle
    /// of radius two.
    fn orbit_step(&self, c: &Complex) -> (next: Complex)
        requires
            !escaped(self@),
            !escaped(c@),
        ensures
            next@ == gauss_sum(gauss_prod(self@, self@), c@),
    {
        let re: i64 = self.real;
        let im: i64 = self.lateral;
        proof {
            lemma_inside_is_small(self@);
            lemma_inside_is_small(c@);
            assert(-4 <= re * re <= 4 && -4 <= im * im <= 4 && -4 <= re * im <= 4 && re * im == im
                * re) by (nonlinear_arith)
                requires
                    -2 <= re <= 2,
                    -2 <= im <= 2,
            ;
        }
        Complex { real: re * re - im * im + c.real, lateral: re * im + im * re + c.lateral }
    }
}

/// A point inside the circle of radius two has both parts between -2 and 2.
proof fn lemma_inside_is_small(z: Gauss)
    requires
        !escaped(z),
    ensures
        -2 <= z.re <= 2,
        -2 <= z.im <= 2,
{
    assert(-2 <= z.re <= 2 && -2 <= z.im <= 2) by (nonlinear_arith)
        requires
            z.re * z.re + z.im * z.im <= 4,
    ;
}

/// Whether `r` is the escape time of `c` within `budget` steps: the first
/// step, counted from zero for `c` itself, at which the orbit lies outside the
/// circle of radius two, or the report that there is none up to `budget`.
pub open spec fn is_escape_time(c: Gauss, budget: u32, r: Escape) -> bool {
    match r {
        Escape::Diverged(n) => {
            &&& n <= budget
            &&& escaped(orbit(c, n as nat))
            &&& forall|k: nat| k < n ==> !escaped(#[trigger] orbit(c, k))
        },
        Escape::BudgetExhausted => forall|k: nat| k <= budget ==> !escaped(#[trigger] orbit(c, k)),
    }
}

/// Follows the orbit of `c` for at most `budget` steps and reports the first
/// step, counted from zero for `c` itself, at which it lies outside the circle
/// of radius two.
pub fn escape_time(c: &Complex, budget: u32) -> (r: Escape)
    ensures
        is_escape_time(c@, budget, r),
{
    if c.has_escaped() {
        return Escape::Diverged(0);
    }
    let mut z: Complex = *c;
    let mut n: u32 = 0;
    while n < budget
        invariant
            n <= budget,
            z@ == orbit(c@, n as nat),
            !escaped(c@),
            forall|k: nat| k <= n ==> !escaped(#[trigger] orbit(c@, k)),
        decreases budget - n,
    {
        z = z.orbit_step(c);
        n = n + 1;
        if z.has_escaped() {
            return Escape::Diverged(n);
        }
    }
    Escape::BudgetExhausted
}

/// The escape time of `num` within [`STEP_BUDGET`] steps.
pub fn mandelbrot(num: &Complex) -> (r: Escape)
    ensures
        is_escape_time(num@, STEP_BUDGET, r),
{
    escape_time(num, STEP_BUDGET)
}

/// The orbit of zero stays at zero, so it never escapes, whatever the budget.
pub proof fn lemma_origin_never_escapes(n: nat)
    ensures
        orbit(Gauss { re: 0, im: 0 }, n) == (Gauss { re: 0, im: 0 }),
        !escaped(orbit(Gauss { re: 0, im: 0 }, n)),
    decreases n,
{
    if n > 0 {
        lemma_origin_never_escapes((n - 1) as nat);
    }
}

/// The orbit of zero exhausts every budget.
pub proof fn lemma_origin_exhausts_every_budget(budget: u32, r: Escape)
    requires
        is_escape_time(Gauss { re: 0, im: 0 }, budget, r),
    ensures
        r == Escape::BudgetExhausted,
{
    if let Escape::Diverged(n) = r {
        lemma_origin_never_escapes(n as nat);
    }
}

/// A point outside the circle of radius two has escape time zero.
pub proof fn lemma_outside_escapes_at_once(c: Gauss, budget: u32, r: Escape)
    requires
        escaped(c),
        is_escape_time(c, budget, r),
    ensures
        r == Escape::Diverged(0),
{
    assert(orbit(c, 0) == c);
}

/// The escape time of a point is unique: two answers that are both the
/// escape time of `c` within `budget` are the same answer.
pub proof fn lemma_escape_is_determined(c: Gauss, budget: u32, a: Escape, b: Escape)
    requires
        is_escape_time(c, budget, a),
        is_escape_time(c, budget, b),
    ensures
        a == b,
{
    match (a, b) {
        (Escape::Diverged(m), Escape::Diverged(n)) => {
            if m < n {
                assert(!escaped(orbit(c, m as nat)));
            } else if n < m {
                assert(!escaped(orbit(c, n as nat)));
            }
        },
        (Escape::Diverged(m), Escape::BudgetExhausted) => {
            assert(!escaped(orbit(c, m as nat)));
        },
        (Escape::BudgetExhausted, Escape::Diverged(n)) => {
            assert(!escaped(orbit(c, n as nat)));
        },
        (Escape::BudgetExhausted, Escape::BudgetExhausted) => {},
    }
}

} // verus!
