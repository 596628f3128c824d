use nn::{calc_cost, dcost};

fn pairs(v: &[(f32, f32)]) -> Vec<(u32, u32)> {
    v.iter().map(|(x, y)| (x.to_bits(), y.to_bits())).collect()
}

#[test]
fn dcost_exact_value() {
    // pairs (x, 2x): derivative of the squared error at w = 0.5 is
    // mean of 2*x*(x*0.5 - 2x) = mean of -3x^2
    let data = pairs(&[(1.0, 2.0), (2.0, 4.0)]);
    let d = f32::from_bits(dcost(0.5f32.to_bits(), &data[..]));
    let expected = (2.0f32 * 1.0 * (1.0 * 0.5 - 2.0) + 2.0 * 2.0 * (2.0 * 0.5 - 4.0)) / 2.0;
    assert_eq!(d, expected);
}

#[test]
fn dcost_zero_at_the_optimum() {
    let data = pairs(&[(1.0, 2.0), (2.0, 4.0), (3.0, 6.0), (4.0, 8.0)]);
    let d = f32::from_bits(dcost(2.0f32.to_bits(), &data[..]));
    assert_eq!(d, 0.0);
}

#[test]
fn calc_cost_uses_the_last_pair() {
    // each pair's error overwrites the one before it
    let data = pairs(&[(1.0, 2.0), (2.0, 4.0)]);
    let c = f32::from_bits(calc_cost(0.5f32.to_bits(), &data[..]));
    let d = 2.0f32 * 0.5 - 4.0;
    assert_eq!(c, d * d / 2.0);
}

#[test]
fn calc_cost_zero_at_the_optimum() {
    let data = pairs(&[(1.0, 2.0), (2.0, 4.0), (3.0, 6.0), (4.0, 8.0)]);
    let c = f32::from_bits(calc_cost(2.0f32.to_bits(), &data[..]));
    assert_eq!(c, 0.0);
}

#[test]
fn gradient_descent_fits_the_doubling_line() {
    let data = pairs(&[(1.0, 2.0), (2.0, 4.0), (3.0, 6.0), (4.0, 8.0)]);
    let mut w: f32 = 0.1;
    for _ in 0..50 {
        let dw = f32::from_bits(dcost(w.to_bits(), &data[..]));
        w -= 0.1 * dw;
    }
    assert!((w - 2.0).abs() < 1e-3);
}
