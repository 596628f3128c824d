use nn::sigmoid;

#[test]
fn sigmoid_test_0() {
    let actual = sigmoid(0_f32.to_bits());
    let expected = 0.5f32;
    assert_eq!(expected, f32::from_bits(actual));
}

#[test]
fn sigmoid_test_1() {
    let actual = sigmoid(1_f32.to_bits());
    let expected = 0.73105857_f32;
    assert_eq!(expected, f32::from_bits(actual));
}

#[test]
fn sigmoid_test_minus_1() {
    let actual = sigmoid((-1_f32).to_bits());
    let expected = 0.268941421_f32;
    assert_eq!(expected, f32::from_bits(actual));
}

#[test]
fn nn_test_sigmoid_test_0() {
    let actual = sigmoid(0_f32.to_bits());
    let expected = 0.5f32;
    assert_eq!(expected, f32::from_bits(actual));
}

#[test]
fn nn_test_sigmoid_test_1() {
    let actual = sigmoid(1_f32.to_bits());
    let expected = 0.73105857_f32;
    assert_eq!(expected, f32::from_bits(actual));
}

#[test]
fn nn_test_sigmoid_test_minus_1() {
    let actual = sigmoid((-1_f32).to_bits());
    let expected = 0.268941421_f32;
    assert_eq!(expected, f32::from_bits(actual));
}

#[test]
fn sigmoid_monotonic_and_in_unit_interval() {
    // far outside this range single precision saturates: sigmoid of 20.0
    // rounds to exactly 1.0, because e^-20 is smaller than the gap between
    // 1.0 and the next representable value
    let xs: [f32; 9] = [-10.0, -5.0, -1.0, -0.25, 0.0, 0.25, 1.0, 5.0, 10.0];
    let mut prev: f32 = -1.0;
    for x in xs {
        let y = f32::from_bits(sigmoid(x.to_bits()));
        assert!(y > 0.0 && y < 1.0);
        assert!(y > prev);
        prev = y;
    }
}
