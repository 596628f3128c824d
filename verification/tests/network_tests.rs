use nn::{NNArch, NNMatrix};
use rand::SeedableRng;

fn bits(v: &[f32]) -> Vec<u32> {
    v.iter().map(|x| x.to_bits()).collect()
}

const AND_DATA: [f32; 12] = [0.0, 0.0, 0.0, 0.0, 1.0, 0.0, 1.0, 0.0, 0.0, 1.0, 1.0, 1.0];

fn and_dataset() -> (NNMatrix, NNMatrix) {
    let td = bits(&AND_DATA);
    let df_input = NNMatrix::new(Some(&td[..]), 4, 2, 3);
    let df_output = NNMatrix::new(Some(&td[2..]), 4, 1, 3);
    (df_input, df_output)
}

#[test]
fn create_shapes_and_zeroes() {
    let net = NNArch::create(&[2, 3, 1]);
    assert_eq!(net.layer_count(), 2);
    assert_eq!(net.get_input().cols(), 2);
    assert_eq!(net.get_input().rows(), 1);
    assert_eq!(net.get_output().cols(), 1);
    assert_eq!(f32::from_bits(net.get_output().get_at(0, 0)), 0.0);
}

#[test]
fn forward_with_zero_weights_gives_one_half() {
    let mut net = NNArch::create(&[2, 2, 1]);
    net.forward();
    // sigmoid of a zero pre-activation is exactly one half, at every layer
    assert_eq!(f32::from_bits(net.get_output().get_at(0, 0)), 0.5);
}

#[test]
fn forward_deterministic() {
    let mut net = NNArch::create(&[2, 2, 1]);
    let mut rng = rand::rngs::StdRng::seed_from_u64(3);
    net.randomize(&mut rng);
    let (df_input, _) = and_dataset();
    net.get_input_mut().copy_row_from(&df_input, 2);
    net.forward();
    let first = net.get_output().get_row(0);
    net.get_input_mut().copy_row_from(&df_input, 2);
    net.forward();
    let second = net.get_output().get_row(0);
    assert_eq!(first, second);
}

#[test]
fn cost_exact_for_zero_weights() {
    // every prediction is exactly 0.5, so each sample contributes
    // (label - 0.5)^2 and the mean over the four rows is exact
    let mut net = NNArch::create(&[2, 2, 1]);
    let (df_input, df_output) = and_dataset();
    let c = f32::from_bits(net.cost(&df_input, &df_output));
    let expected = ((0.0f32 - 0.5) * (0.0 - 0.5) * 3.0 + (1.0 - 0.5) * (1.0 - 0.5)) / 4.0;
    assert_eq!(c, expected);
}

#[test]
fn cost_nonnegative_for_random_networks() {
    let (df_input, df_output) = and_dataset();
    for seed in 0..8u64 {
        let mut net = NNArch::create(&[2, 3, 1]);
        let mut rng = rand::rngs::StdRng::seed_from_u64(seed);
        net.randomize_range(&mut rng, (-4.0f32).to_bits(), 4.0f32.to_bits());
        let c = f32::from_bits(net.cost(&df_input, &df_output));
        assert!(c >= 0.0);
    }
}

#[test]
fn cost_zero_iff_predictions_match_labels() {
    // label each row with the network's own prediction: the cost vanishes
    let mut net = NNArch::create(&[2, 2, 1]);
    let mut rng = rand::rngs::StdRng::seed_from_u64(9);
    net.randomize(&mut rng);
    let (df_input, _) = and_dataset();
    let mut labels: Vec<u32> = Vec::new();
    for row in 0..4 {
        net.get_input_mut().copy_row_from(&df_input, row);
        net.forward();
        labels.push(net.get_output().get_at(0, 0));
    }
    let df_output = NNMatrix::new(Some(&labels[..]), 4, 1, 1);
    let c = f32::from_bits(net.cost(&df_input, &df_output));
    assert_eq!(c, 0.0);
    // and a label that differs makes it strictly positive
    labels[0] = (f32::from_bits(labels[0]) + 0.25).to_bits();
    let df_output2 = NNMatrix::new(Some(&labels[..]), 4, 1, 1);
    let c2 = f32::from_bits(net.cost(&df_input, &df_output2));
    assert!(c2 > 0.0);
}

#[test]
fn zeroed_resets_the_whole_stack() {
    let mut net = NNArch::create(&[2, 2, 1]);
    let mut rng = rand::rngs::StdRng::seed_from_u64(5);
    net.randomize(&mut rng);
    net.zeroed();
    net.forward();
    assert_eq!(f32::from_bits(net.get_output().get_at(0, 0)), 0.5);
}

fn parameter_bits(net: &NNArch) -> Vec<u32> {
    let mut out: Vec<u32> = Vec::new();
    for l in 0..net.layer_count() {
        let w = net.get_weight(l);
        for r in 0..w.rows() {
            for c in 0..w.cols() {
                out.push(w.get_at(r, c));
            }
        }
        let b = net.get_bias(l);
        for c in 0..b.cols() {
            out.push(b.get_at(0, c));
        }
    }
    out
}

#[test]
fn learn_with_zero_rate_changes_nothing() {
    let (df_input, df_output) = and_dataset();
    let mut net = NNArch::create(&[2, 2, 1]);
    let mut rng = rand::rngs::StdRng::seed_from_u64(21);
    net.randomize(&mut rng);
    let mut gradient = NNArch::create(&[2, 2, 1]);
    net.backprop(&mut gradient, &df_input, &df_output);

    let before = parameter_bits(&net);
    net.learn(&gradient, 0.0f32.to_bits());
    let after = parameter_bits(&net);
    // bit-for-bit: the update with rate zero left every parameter unchanged
    assert_eq!(before, after);
}

#[test]
fn finite_diff_and_backprop_agree() {
    let (df_input, df_output) = and_dataset();
    let mut net = NNArch::create(&[2, 2, 1]);
    let mut rng = rand::rngs::StdRng::seed_from_u64(17);
    net.randomize(&mut rng);

    let mut g_fd = NNArch::create(&[2, 2, 1]);
    let mut g_bp = NNArch::create(&[2, 2, 1]);
    let eps = 1e-2f32;
    net.finite_diff(&mut g_fd, &df_input, &df_output, eps.to_bits());
    net.backprop(&mut g_bp, &df_input, &df_output);

    // every weight and bias gradient cell agrees within a tolerance
    // proportional to the perturbation
    let tol = 5.0 * eps;
    for l in 0..2usize {
        let wf = g_fd.get_weight(l);
        let wb = g_bp.get_weight(l);
        for r in 0..wf.rows() {
            for c in 0..wf.cols() {
                let a = f32::from_bits(wf.get_at(r, c));
                let b = f32::from_bits(wb.get_at(r, c));
                assert!((a - b).abs() < tol, "weight gradient mismatch: {a} vs {b}");
            }
        }
        let bf = g_fd.get_bias(l);
        let bb = g_bp.get_bias(l);
        for c in 0..bf.cols() {
            let a = f32::from_bits(bf.get_at(0, c));
            let b = f32::from_bits(bb.get_at(0, c));
            assert!((a - b).abs() < tol, "bias gradient mismatch: {a} vs {b}");
        }
    }
}
