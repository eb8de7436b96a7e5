use ray_tracer::complex::{escape_time, mandelbrot, Complex, Escape, STEP_BUDGET};

fn c(real: i64, lateral: i64) -> Complex {
    Complex { real, lateral }
}

#[test]
fn complex_product() {
    assert_eq!(c(1, 4).mul(&c(5, 1)), Some(c(1, 21)));
    assert_eq!(c(0, 1).mul(&c(0, 1)), Some(c(-1, 0)));
    assert_eq!(c(2, 3).mul(&c(2, -3)), Some(c(13, 0)));
}

#[test]
fn complex_sum_and_difference() {
    assert_eq!(c(1, 4).add(&c(5, 1)), Some(c(6, 5)));
    assert_eq!(c(1, 4).sub(&c(5, 1)), Some(c(-4, 3)));
}

#[test]
fn complex_results_that_do_not_fit_are_none() {
    assert_eq!(c(i64::MAX, 0).add(&c(1, 0)), None);
    assert_eq!(c(0, i64::MIN).sub(&c(0, 1)), None);
    assert_eq!(c(i64::MAX, 0).mul(&c(2, 0)), None);
    assert_eq!(c(i64::MAX, 0).mul(&c(0, 2)), None);
    assert_eq!(c(i64::MIN, i64::MIN).mul(&c(i64::MIN, i64::MAX)), None);
    assert_eq!(c(i64::MAX, i64::MAX).mul(&c(1, 1)), None);
    assert_eq!(c(i64::MAX, i64::MAX).mul(&c(1, -1)), None);
    assert_eq!(c(i64::MAX, i64::MAX).mul(&c(0, 1)), Some(c(-i64::MAX, i64::MAX)));
}

#[test]
fn circle_of_radius_two_is_inside() {
    assert!(!c(0, 0).has_escaped());
    assert!(!c(2, 0).has_escaped());
    assert!(!c(0, -2).has_escaped());
    assert!(!c(1, 1).has_escaped());
    assert!(c(2, 1).has_escaped());
    assert!(c(-1, 2).has_escaped());
    assert!(c(2, 2).has_escaped());
    assert!(c(3, 0).has_escaped());
    assert!(c(0, -3).has_escaped());
    assert!(c(i64::MIN, i64::MAX).has_escaped());
}

#[test]
fn origin_never_diverges() {
    assert_eq!(escape_time(&c(0, 0), 0), Escape::BudgetExhausted);
    assert_eq!(escape_time(&c(0, 0), 1), Escape::BudgetExhausted);
    assert_eq!(escape_time(&c(0, 0), 50), Escape::BudgetExhausted);
    assert_eq!(escape_time(&c(0, 0), 100_000), Escape::BudgetExhausted);
    assert_eq!(mandelbrot(&c(0, 0)), Escape::BudgetExhausted);
}

#[test]
fn two_plus_two_i_diverges_at_once() {
    assert_eq!(escape_time(&c(2, 2), 50), Escape::Diverged(0));
    assert_eq!(escape_time(&c(2, 2), 0), Escape::Diverged(0));
    assert_eq!(mandelbrot(&c(2, 2)), Escape::Diverged(0));
}

#[test]
fn escape_time_counts_steps_from_the_start() {
    // 1, 2, 5
    assert_eq!(escape_time(&c(1, 0), 50), Escape::Diverged(2));
    // 1 + i, 1 + 3i
    assert_eq!(escape_time(&c(1, 1), 50), Escape::Diverged(1));
    // 2, 6
    assert_eq!(escape_time(&c(2, 0), 50), Escape::Diverged(1));
    // -1 - i, -1 + i, -1 - 3i
    assert_eq!(escape_time(&c(-1, -1), 50), Escape::Diverged(2));
}

#[test]
fn budget_cuts_the_orbit_short() {
    assert_eq!(escape_time(&c(1, 0), 0), Escape::BudgetExhausted);
    assert_eq!(escape_time(&c(1, 0), 1), Escape::BudgetExhausted);
    assert_eq!(escape_time(&c(1, 0), 2), Escape::Diverged(2));
    assert_eq!(escape_time(&c(1, 1), 0), Escape::BudgetExhausted);
}

#[test]
fn bounded_orbits_exhaust_the_budget() {
    // -1, 0, -1, 0, ...
    assert_eq!(escape_time(&c(-1, 0), 1000), Escape::BudgetExhausted);
    // -2, 2, 2, ...: on the circle, never outside
    assert_eq!(escape_time(&c(-2, 0), 1000), Escape::BudgetExhausted);
    // i, -1 + i, -i, -1 + i, ...
    assert_eq!(escape_time(&c(0, 1), 1000), Escape::BudgetExhausted);
    assert_eq!(mandelbrot(&c(0, -1)), Escape::BudgetExhausted);
}

#[test]
fn far_points_diverge_without_overflow() {
    assert_eq!(escape_time(&c(i64::MAX, i64::MIN), 50), Escape::Diverged(0));
    assert_eq!(mandelbrot(&c(i64::MIN, 0)), Escape::Diverged(0));
}

#[test]
fn mandelbrot_uses_the_fixed_budget() {
    assert_eq!(STEP_BUDGET, 50);
    for re in -3i64..=3 {
        for im in -3i64..=3 {
            assert_eq!(mandelbrot(&c(re, im)), escape_time(&c(re, im), STEP_BUDGET));
        }
    }
}
