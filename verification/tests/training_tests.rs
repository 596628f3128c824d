use nn::{NNArch, NNMatrix};
use rand::SeedableRng;

fn bits(v: &[f32]) -> Vec<u32> {
    v.iter().map(|x| x.to_bits()).collect()
}

fn dataset(rows: &[f32]) -> (NNMatrix, NNMatrix) {
    let td = bits(rows);
    let df_input = NNMatrix::new(Some(&td[..]), 4, 2, 3);
    let df_output = NNMatrix::new(Some(&td[2..]), 4, 1, 3);
    (df_input, df_output)
}

fn train(net: &mut NNArch, df_input: &NNMatrix, df_output: &NNMatrix, iters: usize, rate: f32) {
    let widths: Vec<usize> = {
        let mut w = vec![net.get_input().cols()];
        for l in 0..net.layer_count() {
            w.push(net.get_weight(l).cols());
        }
        w
    };
    let mut gradient = NNArch::create(&widths[..]);
    for _ in 0..iters {
        net.backprop(&mut gradient, df_input, df_output);
        net.learn(&gradient, rate.to_bits());
    }
}

fn predictions(net: &mut NNArch, df_input: &NNMatrix) -> Vec<f32> {
    let mut out = Vec::new();
    for row in 0..df_input.rows() {
        net.get_input_mut().copy_row_from(df_input, row);
        net.forward();
        out.push(f32::from_bits(net.get_output().get_at(0, 0)));
    }
    out
}

const AND_ROWS: [f32; 12] = [0.0, 0.0, 0.0, 0.0, 1.0, 0.0, 1.0, 0.0, 0.0, 1.0, 1.0, 1.0];
const XOR_ROWS: [f32; 12] = [0.0, 0.0, 0.0, 0.0, 1.0, 1.0, 1.0, 0.0, 1.0, 1.0, 1.0, 0.0];

#[test]
fn and_gate_is_learned() {
    let (df_input, df_output) = dataset(&AND_ROWS);
    let mut net = NNArch::create(&[2, 2, 1]);
    let mut rng = rand::rngs::StdRng::seed_from_u64(1);
    net.randomize(&mut rng);
    train(&mut net, &df_input, &df_output, 10_000, 1.0);
    let preds = predictions(&mut net, &df_input);
    let labels = [0.0f32, 0.0, 0.0, 1.0];
    for (p, l) in preds.iter().zip(labels.iter()) {
        assert!((p - l).abs() < 0.1, "prediction {p} too far from label {l}");
    }
}

#[test]
fn xor_needs_a_hidden_layer() {
    let (df_input, df_output) = dataset(&XOR_ROWS);

    // a single-layer network cannot drive the cost near zero
    let mut flat = NNArch::create(&[2, 1]);
    let mut rng = rand::rngs::StdRng::seed_from_u64(1);
    flat.randomize(&mut rng);
    train(&mut flat, &df_input, &df_output, 4_000, 1.0);
    let flat_cost = f32::from_bits(flat.cost(&df_input, &df_output));
    assert!(flat_cost > 0.15);

    // one hidden layer of width two is enough
    let mut deep = NNArch::create(&[2, 2, 1]);
    let mut rng2 = rand::rngs::StdRng::seed_from_u64(1);
    deep.randomize(&mut rng2);
    train(&mut deep, &df_input, &df_output, 12_000, 1.0);
    let deep_cost = f32::from_bits(deep.cost(&df_input, &df_output));
    assert!(deep_cost < 0.05);
}

#[test]
fn training_decreases_cost() {
    let (df_input, df_output) = dataset(&AND_ROWS);
    let mut net = NNArch::create(&[2, 2, 1]);
    let mut rng = rand::rngs::StdRng::seed_from_u64(33);
    net.randomize(&mut rng);
    let before = f32::from_bits(net.cost(&df_input, &df_output));
    train(&mut net, &df_input, &df_output, 200, 1.0);
    let after = f32::from_bits(net.cost(&df_input, &df_output));
    assert!(after < before);
}
