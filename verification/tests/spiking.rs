use qlang_hybrid::readout::{can_predict, highest, predict, softmax_arguments, total, MLPReadout};
use qlang_hybrid::scalar::Scalar;
use qlang_hybrid::spiking::{
    lowered_threshold, reported_loss, spike_dim, spike_rates, HybridSpikingClassifier,
};

fn s(x: f32) -> Scalar {
    Scalar::from_bits(x.to_bits())
}

fn f(x: Scalar) -> f32 {
    f32::from_bits(x.to_bits())
}

fn all(xs: &[f32]) -> Vec<Scalar> {
    xs.iter().map(|&x| s(x)).collect()
}

fn plain(xs: &[Scalar]) -> Vec<f32> {
    xs.iter().map(|&x| f(x)).collect()
}

fn sines(angles: &[Scalar]) -> Vec<Scalar> {
    angles.iter().map(|&a| s(f(a).sin())).collect()
}

fn exps(arguments: &[Scalar]) -> Vec<Scalar> {
    arguments.iter().map(|&a| s(f(a).exp())).collect()
}

fn new_readout(n_input: usize, hidden_size: usize, n_classes: usize, seed: f32) -> MLPReadout {
    MLPReadout::new(
        n_input,
        hidden_size,
        n_classes,
        &sines(&MLPReadout::hidden_angles(n_input, hidden_size, s(seed))),
        &sines(&MLPReadout::output_angles(hidden_size, n_classes, s(seed))),
        s((2.0 / n_input as f64).sqrt() as f32),
        s((2.0 / hidden_size as f64).sqrt() as f32),
    )
}

/// A small network of spiking neurons: each one adds up what comes in, spikes at its threshold,
/// and starts again.
struct Net {
    layers: Vec<usize>,
    thresholds: Vec<Vec<f32>>,
}

impl Net {
    fn new(layers: &[usize]) -> Net {
        Net {
            layers: layers.to_vec(),
            thresholds: layers[1..].iter().map(|&n| vec![1.0; n]).collect(),
        }
    }

    fn run(&self, input: &[f32], timesteps: usize) -> Vec<u32> {
        let mut charge: Vec<Vec<f32>> = self.layers[1..].iter().map(|&n| vec![0.0; n]).collect();
        let mut counts = vec![0u32; *self.layers.last().unwrap()];
        for _ in 0..timesteps {
            let mut signal = input.to_vec();
            for l in 0..charge.len() {
                let mut out = vec![0.0; charge[l].len()];
                for j in 0..charge[l].len() {
                    for (i, x) in signal.iter().enumerate() {
                        charge[l][j] += x * (((i * 7 + j * 13) % 11) as f32) * 0.02;
                    }
                    if charge[l][j] >= self.thresholds[l][j] {
                        charge[l][j] = 0.0;
                        out[j] = 1.0;
                    }
                }
                signal = out;
            }
            for (c, x) in counts.iter_mut().zip(&signal) {
                *c += *x as u32;
            }
        }
        counts
    }
}

fn new_classifier(
    layers: &[usize],
    readout_hidden: usize,
    n_classes: usize,
    timesteps: usize,
    seed: f32,
) -> HybridSpikingClassifier<Net> {
    let readout = new_readout(spike_dim(layers), readout_hidden, n_classes, seed);
    HybridSpikingClassifier::new(Net::new(layers), readout, timesteps)
}

fn train_step(
    c: &mut HybridSpikingClassifier<Net>,
    input: &[f32],
    target: u8,
    lr_mlp: f32,
) -> f32 {
    let counts = c.snn.run(input, c.timesteps);
    let observation = c.observe(&counts);
    let e = exps(&observation.arguments);
    let ln_sum = s(f(total(&e)).ln());
    let loss = c.train_step(&observation, &e, ln_sum, target, s(lr_mlp));
    let counts = c.snn.run(input, c.timesteps);
    if c.gives_label(&counts, target) {
        for layer in &mut c.snn.thresholds {
            for t in layer {
                *t = f(lowered_threshold(s(*t)));
            }
        }
    }
    f(loss)
}

#[test]
fn mlp_readout_forward() {
    let mlp = new_readout(16, 32, 10, 42.0);
    let spikes = vec![s(0.5f32); 16];
    let (logits, hidden) = mlp.forward(&spikes);

    assert_eq!(logits.len(), 10);
    assert_eq!(hidden.len(), 32);
    assert!(hidden.iter().all(|&h| f(h) >= 0.0), "ReLU should be non-negative");
}

#[test]
fn hybrid_forward_and_classify() {
    let classify = new_classifier(&[16, 32, 10], 64, 10, 50, 42.0);

    let input = vec![0.5f32; 16];
    let counts = classify.snn.run(&input, classify.timesteps);
    let logits = classify.forward(&counts);
    assert_eq!(logits.len(), 10);

    let pred = classify.classify(&counts);
    assert!(pred < 10, "Prediction should be valid class");
}

#[test]
fn hybrid_training_reduces_loss() {
    let mut classify = new_classifier(&[16, 32, 10], 64, 10, 50, 42.0);

    let input = vec![0.5f32; 16];
    let target = 5u8;

    let loss_before = train_step(&mut classify, &input, target, 0.01);
    let loss_after = train_step(&mut classify, &input, target, 0.01);

    println!("Loss before: {:.4}, after: {:.4}", loss_before, loss_after);
    assert!(loss_after.is_finite(), "Loss should be finite");
}

#[test]
fn hybrid_accuracy_improves_with_training() {
    let n_input = 32;
    let n_classes = 10;
    let n_samples = 200;
    let mut readout = new_readout(n_input, 128, n_classes, 42.0);

    let mut all_inputs: Vec<Vec<Scalar>> = Vec::new();
    let mut labels: Vec<u8> = Vec::new();
    for sample in 0..n_samples {
        let class = sample % n_classes;
        let input: Vec<Scalar> = (0..n_input)
            .map(|i| {
                let base = ((i as u32 + class as u32 * 7).wrapping_mul(13) % 17) as f32 / 17.0;
                let noise = ((i as u32 * 19 + sample as u32 * 31) % 100) as f32 / 100.0;
                s(base * 0.7 + noise * 0.3)
            })
            .collect();
        all_inputs.push(input);
        labels.push(class as u8);
    }

    for _epoch in 0..50 {
        for sample in 0..n_samples {
            let (logits, hidden) = readout.forward(&all_inputs[sample]);
            let e = exps(&softmax_arguments(&logits));
            let d_output = readout.loss_gradient(&e, labels[sample] as usize);
            readout.backward_and_update(&all_inputs[sample], &hidden, &d_output, s(0.05));
        }
    }

    let mut correct = 0usize;
    for sample in 0..n_samples {
        let (logits, _) = readout.forward(&all_inputs[sample]);
        assert!(can_predict(&logits));
        if predict(&logits) == labels[sample] as usize {
            correct += 1;
        }
    }
    let acc = correct as f32 / n_samples as f32;
    assert!(acc >= 0.90, "BPTT should reach >=90%, got {:.1}%", acc * 100.0);

    let flat: Vec<Scalar> = all_inputs.concat();
    assert!(readout.can_judge(&flat, n_samples, n_input));
    assert_eq!(f(readout.accuracy(&flat, &labels, n_samples, n_input)), acc);
}

/// The same network in ordinary floating point.
struct Plain {
    w_hidden: Vec<f32>,
    w_output: Vec<f32>,
    b_hidden: Vec<f32>,
    b_output: Vec<f32>,
    hs: usize,
    oc: usize,
}

impl Plain {
    fn of(m: &MLPReadout) -> Plain {
        Plain {
            w_hidden: plain(&m.w_hidden),
            w_output: plain(&m.w_output),
            b_hidden: plain(&m.b_hidden),
            b_output: plain(&m.b_output),
            hs: m.hidden_size,
            oc: m.n_classes,
        }
    }

    fn forward(&self, x: &[f32]) -> (Vec<f32>, Vec<f32>) {
        let mut hidden = vec![0.0f32; self.hs];
        for j in 0..self.hs {
            let mut sum = self.b_hidden[j];
            for i in 0..x.len() {
                sum += x[i] * self.w_hidden[i * self.hs + j];
            }
            hidden[j] = sum.max(0.0);
        }
        let mut logits = vec![0.0f32; self.oc];
        for j in 0..self.oc {
            let mut sum = self.b_output[j];
            for i in 0..self.hs {
                sum += hidden[i] * self.w_output[i * self.oc + j];
            }
            logits[j] = sum;
        }
        (logits, hidden)
    }

    fn update(&mut self, x: &[f32], hidden: &[f32], d: &[f32], lr: f32) {
        let mut dh = vec![0.0f32; self.hs];
        for i in 0..self.hs {
            for j in 0..self.oc {
                dh[i] += d[j] * self.w_output[i * self.oc + j];
            }
            if hidden[i] <= 0.0 {
                dh[i] = 0.0;
            }
        }
        for i in 0..self.hs {
            for j in 0..self.oc {
                self.w_output[i * self.oc + j] -= lr * (d[j] * hidden[i]).max(-1.0).min(1.0);
            }
        }
        for j in 0..self.oc {
            self.b_output[j] -= lr * d[j];
        }
        for i in 0..x.len() {
            for j in 0..self.hs {
                self.w_hidden[i * self.hs + j] -= lr * (dh[j] * x[i]).max(-1.0).min(1.0);
            }
        }
        for j in 0..self.hs {
            self.b_hidden[j] -= lr * dh[j];
        }
    }
}

#[test]
fn training_agrees_with_ordinary_floats() {
    let mut m = new_readout(6, 9, 4, 3.5);
    let mut p = Plain::of(&m);
    for step in 0..40 {
        let x: Vec<f32> = (0..6).map(|i| ((i * 5 + step * 3) % 7) as f32 / 3.0 - 0.4).collect();
        let (logits, hidden) = m.forward(&all(&x));
        let (pl, ph) = p.forward(&x);
        assert_eq!(plain(&logits), pl);
        assert_eq!(plain(&hidden), ph);
        let e = exps(&softmax_arguments(&logits));
        let d = m.loss_gradient(&e, step % 4);
        let top = pl.iter().cloned().fold(f32::NEG_INFINITY, f32::max);
        let pe: Vec<f32> = pl.iter().map(|l| (l - top).exp()).collect();
        let sum: f32 = pe.iter().sum();
        let mut pd: Vec<f32> = pe.iter().map(|v| v / sum).collect();
        pd[step % 4] -= 1.0;
        assert_eq!(plain(&d), pd);
        m.backward_and_update(&all(&x), &hidden, &d, s(0.3));
        p.update(&x, &ph, &pd, 0.3);
        let q = Plain::of(&m);
        assert_eq!(q.w_hidden, p.w_hidden);
        assert_eq!(q.w_output, p.w_output);
        assert_eq!(q.b_hidden, p.b_hidden);
        assert_eq!(q.b_output, p.b_output);
    }
}

#[test]
fn new_readout_has_scaled_sines_and_no_biases() {
    let m = new_readout(2, 3, 2, 1.5);
    let scale = (2.0f64 / 2.0).sqrt() as f32;
    for (i, w) in m.w_hidden.iter().enumerate() {
        assert_eq!(f(*w), (i as f32 * 1.5).sin() * scale);
    }
    let scale = (2.0f64 / 3.0).sqrt() as f32;
    for (i, w) in m.w_output.iter().enumerate() {
        assert_eq!(f(*w), (i as f32 * 2.5).sin() * scale);
    }
    assert_eq!(plain(&m.b_hidden), vec![0.0; 3]);
    assert_eq!(plain(&m.b_output), vec![0.0; 2]);
    assert_eq!(m.param_count(), 6 + 6 + 3 + 2);
}

#[test]
fn gradients_are_clipped() {
    let mut m = MLPReadout {
        w_hidden: all(&[1.0]),
        w_output: all(&[0.5]),
        b_hidden: all(&[0.0]),
        b_output: all(&[0.0]),
        n_input: 1,
        hidden_size: 1,
        n_classes: 1,
    };
    m.backward_and_update(&all(&[100.0]), &all(&[100.0]), &all(&[3.0]), s(0.5));
    assert_eq!(f(m.w_output[0]), 0.0);
    assert_eq!(f(m.b_output[0]), -1.5);
    assert_eq!(f(m.w_hidden[0]), 0.5);
    assert_eq!(f(m.b_hidden[0]), -0.75);
}

#[test]
fn inactive_neurons_keep_their_weights() {
    let mut m = MLPReadout {
        w_hidden: all(&[1.0, -1.0]),
        w_output: all(&[0.5, 0.5]),
        b_hidden: all(&[0.0, 0.0]),
        b_output: all(&[0.0]),
        n_input: 1,
        hidden_size: 2,
        n_classes: 1,
    };
    let (_, hidden) = m.forward(&all(&[2.0]));
    assert_eq!(plain(&hidden), vec![2.0, 0.0]);
    m.backward_and_update(&all(&[2.0]), &hidden, &all(&[0.25]), s(1.0));
    assert_eq!(f(m.w_hidden[1]), -1.0);
    assert_eq!(f(m.b_hidden[1]), 0.0);
    assert_eq!(f(m.w_hidden[0]), 0.75);
}

#[test]
fn last_of_equal_scores_is_predicted() {
    assert_eq!(predict(&all(&[1.0, 3.0, 3.0, 2.0])), 2);
    assert_eq!(predict(&all(&[-1.0])), 0);
    assert_eq!(predict(&[]), 0);
    assert!(can_predict(&all(&[f32::NAN])));
    assert!(!can_predict(&all(&[0.0, f32::NAN])));
}

#[test]
fn highest_passes_over_what_is_no_number() {
    assert_eq!(f(highest(&all(&[1.0, f32::NAN, 2.0]))), 2.0);
    assert_eq!(f(highest(&[])), f32::NEG_INFINITY);
    assert_eq!(f(total(&all(&[1.0, 2.5]))), 3.5);
}

#[test]
fn accuracy_counts_the_right_classes() {
    let m = MLPReadout {
        w_hidden: all(&[1.0, 0.0, 0.0, 1.0]),
        w_output: all(&[1.0, 0.0, 0.0, 1.0]),
        b_hidden: all(&[0.0, 0.0]),
        b_output: all(&[0.0, 0.0]),
        n_input: 2,
        hidden_size: 2,
        n_classes: 2,
    };
    let inputs = all(&[1.0, 0.0, 0.0, 1.0, 1.0, 0.5]);
    assert_eq!(f(m.accuracy(&inputs, &[0, 1, 1], 3, 2)), 2.0 / 3.0);
    assert_eq!(f(m.accuracy(&inputs, &[], 0, 2)), 0.0);
    let c = HybridSpikingClassifier::new((), m, 10);
    let samples = vec![vec![10u32, 0], vec![0, 10], vec![10, 5]];
    assert_eq!(f(c.accuracy(&samples, &[0, 1, 1])), 2.0 / 3.0);
    assert_eq!(f(c.accuracy(&[], &[])), 0.0);
    assert_eq!(c.param_count(100), 112);
}

#[test]
fn rates_are_counts_by_timesteps() {
    assert_eq!(plain(&spike_rates(&[0, 25, 50], 50)), vec![0.0, 0.5, 1.0]);
    assert_eq!(plain(&spike_rates(&[3], 0)), vec![3.0]);
    assert_eq!(plain(&spike_rates(&[1], 3)), vec![1.0 / 3.0]);
}

#[test]
fn readout_reads_the_last_layer() {
    assert_eq!(spike_dim(&[784, 256, 128]), 128);
    assert_eq!(spike_dim(&[]), 10);
}

#[test]
fn loss_is_limited() {
    assert_eq!(f(reported_loss(s(0.5), s(2.0), s(1.25))), 2.75);
    assert_eq!(f(reported_loss(s(-50.0), s(2.0), s(1.0))), 10.0);
    assert_eq!(f(reported_loss(s(f32::NEG_INFINITY), s(2.0), s(1.0))), 10.0);
    assert_eq!(f(reported_loss(s(5.0), s(2.0), s(1.0))), 0.0);
    assert_eq!(f(reported_loss(s(f32::NAN), s(2.0), s(1.0))), 0.0);
    assert_eq!(reported_loss(s(2.0), s(2.0), s(0.0)), Scalar::zero());
}

#[test]
fn loss_of_the_only_class_is_zero() {
    let mut c = new_classifier(&[2, 1], 1, 1, 1, 42.0);
    assert_eq!(train_step(&mut c, &[0.5, 0.5], 0, 0.01), 0.0);
}

#[test]
fn loss_is_the_cross_entropy() {
    let mut c = new_classifier(&[4, 3], 8, 3, 20, 1.0);
    let input = vec![0.9f32; 4];
    for target in 0..3u8 {
        let logits = plain(&c.forward(&c.snn.run(&input, c.timesteps)));
        let top = logits.iter().cloned().fold(f32::NEG_INFINITY, f32::max);
        let sum: f32 = logits.iter().map(|l| (l - top).exp()).sum();
        let probability = (logits[target as usize] - top).exp() / sum;
        let loss = train_step(&mut c, &input, target, 0.01);
        assert!((loss + probability.ln()).abs() < 1e-5);
    }
}

#[test]
fn longer_vectors_are_read_as_far_as_needed() {
    let mut m = new_readout(2, 3, 2, 1.5);
    let spikes = all(&[0.25, 0.5]);
    let (logits, hidden) = m.forward(&spikes);
    for v in [&mut m.w_hidden, &mut m.w_output, &mut m.b_hidden, &mut m.b_output] {
        v.push(s(9.0));
    }
    assert_eq!(m.forward(&spikes), (logits, hidden));
}

#[test]
fn thresholds_are_lowered_by_a_hundredth() {
    assert_eq!(f(lowered_threshold(s(1.0))), 0.99);
    assert_eq!(f(lowered_threshold(s(0.5))), 0.5 * 0.99);
}

#[test]
fn right_answers_lower_the_thresholds() {
    let mut c = new_classifier(&[4, 3], 8, 3, 20, 1.0);
    let input = vec![0.9f32; 4];
    let counts = c.snn.run(&input, c.timesteps);
    let label = c.classify(&counts) as u8;
    train_step(&mut c, &input, label, 0.01);
    assert_eq!(c.snn.thresholds[0][0], 0.99);
}
