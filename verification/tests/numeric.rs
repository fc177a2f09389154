use eatmud::numeric::{irr, IrrError};
use eatmud::FIXED_SCALE;

#[test]
fn test_irr() {
    let days_array: Vec<i64> = vec![720, 360, 0];
    let investment_array: Vec<i64> = vec![FIXED_SCALE, 2 * FIXED_SCALE, 0];
    let end_value = 8 * FIXED_SCALE;
    let x0 = 0;
    let res = irr(&days_array, &investment_array, end_value, x0).unwrap();
    // the exact rate is 1: 1 * (1 + 1)^2 + 2 * (1 + 1)^1 = 8
    assert!((res - FIXED_SCALE).abs() < FIXED_SCALE / 100);
}

#[test]
fn test_irr_small_rate() {
    // 100 at one year and 50 at the end reaching 160 solves to exactly 10%:
    // 100 * 1.1 + 50 = 160
    let days_array: Vec<i64> = vec![360, 0];
    let investment_array: Vec<i64> = vec![100 * FIXED_SCALE, 50 * FIXED_SCALE];
    let end_value = 160 * FIXED_SCALE;
    let res = irr(&days_array, &investment_array, end_value, 0).unwrap();
    assert!((res - FIXED_SCALE / 10).abs() < FIXED_SCALE / 1000);
}

#[test]
fn test_irr_degenerate() {
    let days_array: Vec<i64> = vec![360, 0];
    let investment_array: Vec<i64> = vec![0, 0];
    let res = irr(&days_array, &investment_array, FIXED_SCALE, 0);
    assert_eq!(res, Err(IrrError::DegenerateInput));
}

#[test]
fn test_irr_no_convergence() {
    // a single flow at day zero is insensitive to the rate: the derivative
    // vanishes and no root can be found
    let days_array: Vec<i64> = vec![0];
    let investment_array: Vec<i64> = vec![FIXED_SCALE];
    let res = irr(&days_array, &investment_array, 2 * FIXED_SCALE, 0);
    assert_eq!(res, Err(IrrError::NoConvergence));
}

#[test]
fn test_irr_nonzero_guess() {
    // the same flows solve to the same rate from a different initial guess
    let days_array: Vec<i64> = vec![720, 360, 0];
    let investment_array: Vec<i64> = vec![FIXED_SCALE, 2 * FIXED_SCALE, 0];
    let end_value = 8 * FIXED_SCALE;
    let res = irr(&days_array, &investment_array, end_value, FIXED_SCALE / 2).unwrap();
    assert!((res - FIXED_SCALE).abs() < FIXED_SCALE / 100);
}
