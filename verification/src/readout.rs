//! The trainable readout: a network with one hidden layer that turns spike rates into a score
//! for each class, and learns from the gradient of its loss.

use crate::counts::law_ratio_is_a_share;
use crate::ranking::{
    all_numbers, last_highest, law_last_highest_is_unique, pick_last_highest,
};
use crate::scalar::{INFINITY_BITS, ONE_BITS, SIGN_BIT, Scalar};
use vstd::arithmetic::div_mod::lemma_fundamental_div_mod_converse;
use vstd::prelude::*;

verus! {

/// The readout. Weights are stored by the neuron they come from: those of input `i`, or of hidden
/// neuron `i`, stand together.
#[derive(Debug, Clone)]
pub struct MLPReadout {
    pub w_hidden: Vec<Scalar>,
    pub w_output: Vec<Scalar>,
    pub b_hidden: Vec<Scalar>,
    pub b_output: Vec<Scalar>,
    pub n_input: usize,
    pub hidden_size: usize,
    pub n_classes: usize,
}

/// Zero.
pub open spec fn nought() -> Scalar {
    Scalar { bits: 0 }
}

/// One.
pub open spec fn unit() -> Scalar {
    Scalar { bits: ONE_BITS }
}

/// `start`, to which the first `n` products of values and weights are added one after the other;
/// the weight of value `i` stands at position `i * stride + offset`.
pub open spec fn weighted_sum(
    start: Scalar,
    values: Seq<Scalar>,
    weights: Seq<Scalar>,
    stride: int,
    offset: int,
    n: nat,
) -> Scalar
    decreases n,
{
    if n == 0 {
        start
    } else {
        weighted_sum(start, values, weights, stride, offset, (n - 1) as nat).plus_spec(
            values[n - 1].times_spec(weights[(n - 1) * stride + offset]),
        )
    }
}

/// A gradient limited to the range from minus one to one; what is not a number becomes minus one.
pub open spec fn clipped(gradient: Scalar) -> Scalar {
    gradient.max_spec(unit().negated_spec()).min_spec(unit())
}

/// A weight after a step of the given rate against its gradient.
pub open spec fn descended(weight: Scalar, rate: Scalar, gradient: Scalar) -> Scalar {
    weight.minus_spec(rate.times_spec(gradient))
}

/// The gradient of the weight from a neuron with this activation to one with this gradient.
pub open spec fn weight_gradient(gradient: Scalar, activation: Scalar) -> Scalar {
    nought().plus_spec(gradient.times_spec(activation))
}

/// Every weight from a neuron with one of these activations to a neuron with one of these gradients
/// has taken a step against its gradient, limited to the range from minus one to one.
pub open spec fn weights_descended(
    before: Seq<Scalar>,
    after: Seq<Scalar>,
    activations: Seq<Scalar>,
    gradients: Seq<Scalar>,
    rate: Scalar,
) -> bool {
    &&& after.len() == before.len()
    &&& forall|i: int, j: int|
        0 <= i < activations.len() && 0 <= j < gradients.len() ==> #[trigger] after[i
            * gradients.len() + j] == descended(
            before[i * gradients.len() + j],
            rate,
            clipped(weight_gradient(gradients[j], activations[i])),
        )
}

/// Every bias has taken a step against its gradient.
pub open spec fn biases_descended(
    before: Seq<Scalar>,
    after: Seq<Scalar>,
    gradients: Seq<Scalar>,
    rate: Scalar,
) -> bool {
    &&& after.len() == before.len()
    &&& forall|j: int|
        0 <= j < gradients.len() ==> #[trigger] after[j] == descended(
            before[j],
            rate,
            nought().plus_spec(gradients[j]),
        )
}

/// The highest of the first `n` scores; minus infinity where there is none. What is not a number
/// is passed over.
pub open spec fn highest_of(scores: Seq<Scalar>, n: nat) -> Scalar
    decreases n,
{
    if n == 0 {
        Scalar { bits: (INFINITY_BITS + SIGN_BIT) as u32 }
    } else {
        highest_of(scores, (n - 1) as nat).max_spec(scores[n - 1])
    }
}

/// The sum of the first `n` values.
pub open spec fn sum_of(values: Seq<Scalar>, n: nat) -> Scalar
    decreases n,
{
    if n == 0 {
        nought()
    } else {
        sum_of(values, (n - 1) as nat).plus_spec(values[n - 1])
    }
}

/// A class can be picked: the scores can be compared, or there is nothing to compare.
pub open spec fn decidable(scores: Seq<Scalar>) -> bool {
    scores.len() < 2 || all_numbers(scores)
}

/// `class` is the class with the highest score, the last of several equal ones; the first class
/// where there are no scores.
pub open spec fn is_predicted(scores: Seq<Scalar>, class: int) -> bool {
    if scores.len() == 0 {
        class == 0
    } else {
        last_highest(scores, class)
    }
}

proof fn lemma_cell(i: int, j: int, rows: int, cols: int)
    requires
        0 <= i < rows,
        0 <= j < cols,
    ensures
        0 <= i * cols,
        0 <= i * cols + j < rows * cols,
{
    assert(i * cols + cols <= rows * cols) by (nonlinear_arith)
        requires
            0 <= i < rows,
            0 <= cols,
    ;
    assert(0 <= i * cols) by (nonlinear_arith)
        requires
            0 <= i,
            0 <= cols,
    ;
}

/// A weighted sum: see the specification of the same name.
fn sum_weighted(
    start: Scalar,
    values: &[Scalar],
    weights: &[Scalar],
    stride: usize,
    offset: usize,
) -> (r: Scalar)
    requires
        forall|i: int|
            0 <= i < values@.len() ==> 0 <= #[trigger] (i * stride) + offset < weights@.len(),
    ensures
        r == weighted_sum(
            start,
            values@,
            weights@,
            stride as int,
            offset as int,
            values@.len(),
        ),
{
    let mut sum: Scalar = start;
    let mut i: usize = 0;
    let mut at: usize = offset;
    let n = values.len();
    while i < n
        invariant
            n == values@.len(),
            i <= n,
            i < n ==> at == i * stride + offset,
            forall|q: int|
                0 <= q < values@.len() ==> 0 <= #[trigger] (q * stride) + offset < weights@.len(),
            sum == weighted_sum(
                start,
                values@,
                weights@,
                stride as int,
                offset as int,
                i as nat,
            ),
        decreases n - i,
    {
        proof {
            let q = i as int;
            assert(0 <= q * stride + offset < weights@.len());
        }
        sum = sum.plus(values[i].times(weights[at]));
        i = i + 1;
        if i < n {
            proof {
                let q = i as int;
                assert(0 <= q * stride + offset < weights@.len());
                assert(i * stride == (i - 1) * stride + stride) by (nonlinear_arith);
            }
            at = at + stride;
        }
    }
    sum
}

/// The weight at position `k` after a step.
spec fn stepped_at(
    before: Seq<Scalar>,
    activations: Seq<Scalar>,
    gradients: Seq<Scalar>,
    rate: Scalar,
    k: int,
) -> Scalar {
    let m = gradients.len() as int;
    descended(before[k], rate, clipped(weight_gradient(gradients[k % m], activations[k / m])))
}

/// Steps against the gradients of the weights from neurons with these activations to neurons with
/// these gradients.
fn descend_weights(
    weights: &mut Vec<Scalar>,
    activations: &[Scalar],
    gradients: &[Scalar],
    rate: Scalar,
)
    requires
        old(weights)@.len() == activations@.len() * gradients@.len(),
    ensures
        weights_descended(old(weights)@, final(weights)@, activations@, gradients@, rate),
{
    let ghost before = weights@;
    let ghost m = gradients@.len() as int;
    let total: usize = weights.len();
    let lowest: Scalar = Scalar::one().negated();
    let mut i: usize = 0;
    let mut at: usize = 0;
    while i < activations.len()
        invariant
            i <= activations@.len(),
            m == gradients@.len(),
            before.len() == activations@.len() * m,
            weights@.len() == before.len(),
            at == i * m,
            lowest == unit().negated_spec(),
            forall|k: int|
                0 <= k < at ==> #[trigger] weights@[k] == stepped_at(
                    before,
                    activations@,
                    gradients@,
                    rate,
                    k,
                ),
            forall|k: int| at <= k < before.len() ==> #[trigger] weights@[k] == before[k],
            total == before.len(),
        decreases activations.len() - i,
    {
        let ghost row = at as int;
        let mut j: usize = 0;
        while j < gradients.len()
            invariant
                i < activations@.len(),
                j <= gradients@.len(),
                m == gradients@.len(),
                before.len() == activations@.len() * m,
                weights@.len() == before.len(),
                row == i * m,
                at == row + j,
                lowest == unit().negated_spec(),
                forall|k: int|
                0 <= k < at ==> #[trigger] weights@[k] == stepped_at(
                    before,
                    activations@,
                    gradients@,
                    rate,
                    k,
                ),
                forall|k: int| at <= k < before.len() ==> #[trigger] weights@[k] == before[k],
                total == before.len(),
            decreases gradients.len() - j,
        {
            proof {
                lemma_cell(i as int, j as int, activations@.len() as int, m);
                lemma_fundamental_div_mod_converse(at as int, m, i as int, j as int);
            }
            let gradient: Scalar = Scalar::zero().plus(gradients[j].times(activations[i]));
            let limited: Scalar = gradient.max(lowest).min(Scalar::one());
            let stepped: Scalar = weights[at].minus(rate.times(limited));
            weights.set(at, stepped);
            at = at + 1;
            j = j + 1;
        }
        i = i + 1;
        proof {
            assert(i * m == (i - 1) * m + m) by (nonlinear_arith);
        }
    }
    proof {
        assert forall|i: int, j: int|
            0 <= i < activations@.len() && 0 <= j < gradients@.len() implies #[trigger] weights@[i
            * gradients@.len() + j] == descended(
            before[i * gradients@.len() + j],
            rate,
            clipped(weight_gradient(gradients@[j], activations@[i])),
        ) by {
            lemma_cell(i, j, activations@.len() as int, m);
            lemma_fundamental_div_mod_converse(i * m + j, m, i, j);
            assert(weights@[i * m + j] == stepped_at(
                before,
                activations@,
                gradients@,
                rate,
                i * m + j,
            ));
        }
    }
}

/// Steps against these gradients of the biases.
fn descend_biases(biases: &mut Vec<Scalar>, gradients: &[Scalar], rate: Scalar)
    requires
        old(biases)@.len() == gradients@.len(),
    ensures
        biases_descended(old(biases)@, final(biases)@, gradients@, rate),
{
    let ghost before = biases@;
    let mut j: usize = 0;
    while j < gradients.len()
        invariant
            j <= gradients@.len(),
            before.len() == gradients@.len(),
            biases@.len() == before.len(),
            forall|k: int|
                0 <= k < j ==> #[trigger] biases@[k] == descended(
                    before[k],
                    rate,
                    nought().plus_spec(gradients@[k]),
                ),
            forall|k: int| j <= k < before.len() ==> #[trigger] biases@[k] == before[k],
        decreases gradients.len() - j,
    {
        let gradient: Scalar = Scalar::zero().plus(gradients[j]);
        let stepped: Scalar = biases[j].minus(rate.times(gradient));
        biases.set(j, stepped);
        j = j + 1;
    }
}

/// The highest score; minus infinity where there is none.
pub fn highest(scores: &[Scalar]) -> (r: Scalar)
    ensures
        r == highest_of(scores@, scores@.len()),
{
    let mut best: Scalar = Scalar::from_bits(INFINITY_BITS + SIGN_BIT);
    let mut i: usize = 0;
    while i < scores.len()
        invariant
            i <= scores@.len(),
            best == highest_of(scores@, i as nat),
        decreases scores.len() - i,
    {
        best = best.max(scores[i]);
        i = i + 1;
    }
    best
}

/// The sum of values.
pub fn total(values: &[Scalar]) -> (r: Scalar)
    ensures
        r == sum_of(values@, values@.len()),
{
    let mut sum: Scalar = Scalar::zero();
    let mut i: usize = 0;
    while i < values.len()
        invariant
            i <= values@.len(),
            sum == sum_of(values@, i as nat),
        decreases values.len() - i,
    {
        sum = sum.plus(values[i]);
        i = i + 1;
    }
    sum
}

/// Whether a class can be picked.
pub fn can_predict(scores: &[Scalar]) -> (r: bool)
    ensures
        r == decidable(scores@),
{
    if scores.len() < 2 {
        return true;
    }
    let mut i: usize = 0;
    while i < scores.len()
        invariant
            2 <= scores@.len(),
            i <= scores@.len(),
            forall|q: int| 0 <= q < i ==> !(#[trigger] scores@[q]).nan(),
        decreases scores.len() - i,
    {
        if scores[i].is_nan() {
            return false;
        }
        i = i + 1;
    }
    true
}

/// The class with the highest score, the last of several equal ones.
pub fn predict(scores: &[Scalar]) -> (r: usize)
    requires
        decidable(scores@),
    ensures
        is_predicted(scores@, r as int),
{
    match pick_last_highest(scores) {
        Some(k) => k,
        None => 0,
    }
}

/// The differences of scores and the highest of them, of which the exponentials make up the
/// probabilities of the classes.
pub fn softmax_arguments(logits: &[Scalar]) -> (r: Vec<Scalar>)
    ensures
        r@ == Seq::new(
            logits@.len(),
            |j: int| logits@[j].minus_spec(highest_of(logits@, logits@.len())),
        ),
{
    let top: Scalar = highest(logits);
    let mut arguments: Vec<Scalar> = Vec::new();
    let mut j: usize = 0;
    while j < logits.len()
        invariant
            j <= logits@.len(),
            top == highest_of(logits@, logits@.len()),
            arguments@ == Seq::new(j as nat, |k: int| logits@[k].minus_spec(top)),
        decreases logits.len() - j,
    {
        arguments.push(logits[j].minus(top));
        j = j + 1;
        proof {
            assert(arguments@ =~= Seq::new(j as nat, |k: int| logits@[k].minus_spec(top)));
        }
    }
    arguments
}

/// The gradient of the loss: the probabilities of the classes, less one for the class that is
/// right.
pub open spec fn loss_gradient_of(exp_logits: Seq<Scalar>, target: int) -> Seq<Scalar> {
    Seq::new(
        exp_logits.len(),
        |j: int|
            {
                let probability = exp_logits[j].over_spec(sum_of(exp_logits, exp_logits.len()));
                if j == target {
                    probability.minus_spec(unit())
                } else {
                    probability
                }
            },
    )
}

/// The first `n` whole numbers, each times the same seed.
pub open spec fn angles_of(n: nat, seed: Scalar) -> Seq<Scalar> {
    Seq::new(n, |i: int| Scalar::from_count_spec(i as nat).times_spec(seed))
}

fn angles(n: usize, seed: Scalar) -> (r: Vec<Scalar>)
    ensures
        r@ == angles_of(n as nat, seed),
{
    let mut out: Vec<Scalar> = Vec::new();
    let mut i: usize = 0;
    while i < n
        invariant
            i <= n,
            out@ == angles_of(i as nat, seed),
        decreases n - i,
    {
        out.push(Scalar::from_count(i as u64).times(seed));
        i = i + 1;
        proof {
            assert(out@ =~= angles_of(i as nat, seed));
        }
    }
    out
}

/// Values times the same factor.
pub open spec fn scaled_by(values: Seq<Scalar>, factor: Scalar) -> Seq<Scalar> {
    Seq::new(values.len(), |i: int| values[i].times_spec(factor))
}

fn scale(values: &[Scalar], factor: Scalar) -> (r: Vec<Scalar>)
    ensures
        r@ == scaled_by(values@, factor),
{
    let mut out: Vec<Scalar> = Vec::new();
    let mut i: usize = 0;
    while i < values.len()
        invariant
            i <= values@.len(),
            out@ == scaled_by(values@, factor).take(i as int),
        decreases values.len() - i,
    {
        out.push(values[i].times(factor));
        i = i + 1;
        proof {
            assert(out@ =~= scaled_by(values@, factor).take(i as int));
        }
    }
    proof {
        assert(out@ =~= scaled_by(values@, factor));
    }
    out
}

fn zeros(n: usize) -> (r: Vec<Scalar>)
    ensures
        r@ == Seq::new(n as nat, |j: int| nought()),
{
    let mut out: Vec<Scalar> = Vec::new();
    let mut i: usize = 0;
    while i < n
        invariant
            i <= n,
            out@ == Seq::new(i as nat, |j: int| nought()),
        decreases n - i,
    {
        out.push(Scalar::zero());
        i = i + 1;
        proof {
            assert(out@ =~= Seq::new(i as nat, |j: int| nought()));
        }
    }
    out
}

impl MLPReadout {
    /// There are weights and biases for all neurons of the layers.
    pub open spec fn readable(self) -> bool {
        &&& self.w_hidden@.len() >= self.n_input * self.hidden_size
        &&& self.w_output@.len() >= self.hidden_size * self.n_classes
        &&& self.b_hidden@.len() >= self.hidden_size
        &&& self.b_output@.len() >= self.n_classes
    }

    /// There are weights and biases for all neurons of the layers, and no others.
    pub open spec fn wf(self) -> bool {
        &&& self.w_hidden@.len() == self.n_input * self.hidden_size
        &&& self.w_output@.len() == self.hidden_size * self.n_classes
        &&& self.b_hidden@.len() == self.hidden_size
        &&& self.b_output@.len() == self.n_classes
    }

    /// The activations of the hidden layer: weighted sums of the inputs, but not less than zero.
    pub open spec fn hidden_of(self, spikes: Seq<Scalar>) -> Seq<Scalar> {
        Seq::new(
            self.hidden_size as nat,
            |j: int|
                weighted_sum(
                    self.b_hidden@[j],
                    spikes,
                    self.w_hidden@,
                    self.hidden_size as int,
                    j,
                    self.n_input as nat,
                ).max_spec(nought()),
        )
    }

    /// The scores of the classes: weighted sums of the activations of the hidden layer.
    pub open spec fn logits_of(self, hidden: Seq<Scalar>) -> Seq<Scalar> {
        Seq::new(
            self.n_classes as nat,
            |j: int|
                weighted_sum(
                    self.b_output@[j],
                    hidden,
                    self.w_output@,
                    self.n_classes as int,
                    j,
                    self.hidden_size as nat,
                ),
        )
    }

    /// The gradients of the hidden layer: weighted sums of the gradients of the scores, but none
    /// for a neuron that was not active.
    pub open spec fn hidden_gradients(self, hidden: Seq<Scalar>, d_output: Seq<Scalar>) -> Seq<
        Scalar,
    > {
        Seq::new(
            self.hidden_size as nat,
            |i: int|
                if hidden[i].le_spec(nought()) {
                    nought()
                } else {
                    weighted_sum(
                        nought(),
                        d_output,
                        self.w_output@,
                        1,
                        i * self.n_classes,
                        self.n_classes as nat,
                    )
                },
        )
    }

    /// `after` is this readout after a step against the gradients.
    pub open spec fn stepped(
        self,
        after: MLPReadout,
        spikes: Seq<Scalar>,
        hidden: Seq<Scalar>,
        d_output: Seq<Scalar>,
        rate: Scalar,
    ) -> bool {
        let d_hidden = self.hidden_gradients(hidden, d_output);
        &&& after.n_input == self.n_input
        &&& after.hidden_size == self.hidden_size
        &&& after.n_classes == self.n_classes
        &&& weights_descended(self.w_output@, after.w_output@, hidden, d_output, rate)
        &&& biases_descended(self.b_output@, after.b_output@, d_output, rate)
        &&& weights_descended(self.w_hidden@, after.w_hidden@, spikes, d_hidden, rate)
        &&& biases_descended(self.b_hidden@, after.b_hidden@, d_hidden, rate)
    }

    /// The angles whose sines give the weights of the hidden layer.
    pub fn hidden_angles(n_input: usize, hidden_size: usize, seed: Scalar) -> (r: Vec<Scalar>)
        requires
            n_input * hidden_size <= usize::MAX,
        ensures
            r@ == angles_of((n_input * hidden_size) as nat, seed),
    {
        angles(n_input * hidden_size, seed)
    }

    /// The angles whose sines give the weights of the output layer.
    pub fn output_angles(hidden_size: usize, n_classes: usize, seed: Scalar) -> (r: Vec<Scalar>)
        requires
            hidden_size * n_classes <= usize::MAX,
        ensures
            r@ == angles_of((hidden_size * n_classes) as nat, seed.plus_spec(unit())),
    {
        angles(hidden_size * n_classes, seed.plus(Scalar::one()))
    }

    /// A readout whose weights are the given sines, scaled by layer, and whose biases are zero.
    pub fn new(
        n_input: usize,
        hidden_size: usize,
        n_classes: usize,
        hidden_sines: &[Scalar],
        output_sines: &[Scalar],
        hidden_scale: Scalar,
        output_scale: Scalar,
    ) -> (r: MLPReadout)
        requires
            hidden_sines@.len() == n_input * hidden_size,
            output_sines@.len() == hidden_size * n_classes,
        ensures
            r.wf(),
            r.n_input == n_input,
            r.hidden_size == hidden_size,
            r.n_classes == n_classes,
            r.w_hidden@ == scaled_by(hidden_sines@, hidden_scale),
            r.w_output@ == scaled_by(output_sines@, output_scale),
            r.b_hidden@ == Seq::new(hidden_size as nat, |j: int| nought()),
            r.b_output@ == Seq::new(n_classes as nat, |j: int| nought()),
    {
        MLPReadout {
            w_hidden: scale(hidden_sines, hidden_scale),
            w_output: scale(output_sines, output_scale),
            b_hidden: zeros(hidden_size),
            b_output: zeros(n_classes),
            n_input,
            hidden_size,
            n_classes,
        }
    }

    /// The scores of the classes, and the activations of the hidden layer.
    pub fn forward(&self, spikes: &[Scalar]) -> (r: (Vec<Scalar>, Vec<Scalar>))
        requires
            self.readable(),
            spikes@.len() == self.n_input,
        ensures
            r.1@ == self.hidden_of(spikes@),
            r.0@ == self.logits_of(r.1@),
    {
        let hs = self.hidden_size;
        let oc = self.n_classes;
        let mut hidden: Vec<Scalar> = Vec::new();
        let mut j: usize = 0;
        while j < hs
            invariant
                self.readable(),
                hs == self.hidden_size,
                spikes@.len() == self.n_input,
                j <= hs,
                hidden@ == self.hidden_of(spikes@).take(j as int),
            decreases hs - j,
        {
            proof {
                assert forall|i: int| 0 <= i < spikes@.len() implies 0 <= #[trigger] (i * hs) + j
                    < self.w_hidden@.len() by {
                    lemma_cell(i, j as int, self.n_input as int, hs as int);
                }
            }
            let sum = sum_weighted(
                self.b_hidden[j],
                spikes,
                self.w_hidden.as_slice(),
                hs,
                j,
            );
            hidden.push(sum.max(Scalar::zero()));
            j = j + 1;
            proof {
                assert(hidden@ =~= self.hidden_of(spikes@).take(j as int));
            }
        }
        proof {
            assert(hidden@ =~= self.hidden_of(spikes@));
        }
        let mut logits: Vec<Scalar> = Vec::new();
        let mut j: usize = 0;
        while j < oc
            invariant
                self.readable(),
                oc == self.n_classes,
                hidden@.len() == self.hidden_size,
                j <= oc,
                logits@ == self.logits_of(hidden@).take(j as int),
            decreases oc - j,
        {
            proof {
                assert forall|i: int| 0 <= i < hidden@.len() implies 0 <= #[trigger] (i * oc) + j
                    < self.w_output@.len() by {
                    lemma_cell(i, j as int, self.hidden_size as int, oc as int);
                }
            }
            logits.push(
                sum_weighted(
                    self.b_output[j],
                    hidden.as_slice(),
                    self.w_output.as_slice(),
                    oc,
                    j,
                ),
            );
            j = j + 1;
            proof {
                assert(logits@ =~= self.logits_of(hidden@).take(j as int));
            }
        }
        proof {
            assert(logits@ =~= self.logits_of(hidden@));
        }
        (logits, hidden)
    }

    /// The gradient of the loss, for the exponentials of the scores and the class that is right.
    pub fn loss_gradient(&self, exp_logits: &[Scalar], target: usize) -> (r: Vec<Scalar>)
        requires
            target < exp_logits@.len(),
        ensures
            r@ == loss_gradient_of(exp_logits@, target as int),
    {
        let sum: Scalar = total(exp_logits);
        let mut gradient: Vec<Scalar> = Vec::new();
        let mut j: usize = 0;
        while j < exp_logits.len()
            invariant
                j <= exp_logits@.len(),
                sum == sum_of(exp_logits@, exp_logits@.len()),
                gradient@ == loss_gradient_of(exp_logits@, target as int).take(j as int),
            decreases exp_logits.len() - j,
        {
            let probability: Scalar = exp_logits[j].over(sum);
            if j == target {
                gradient.push(probability.minus(Scalar::one()));
            } else {
                gradient.push(probability);
            }
            j = j + 1;
            proof {
                assert(gradient@ =~= loss_gradient_of(exp_logits@, target as int).take(j as int));
            }
        }
        proof {
            assert(gradient@ =~= loss_gradient_of(exp_logits@, target as int));
        }
        gradient
    }

    fn backpropagate(&self, hidden: &[Scalar], d_output: &[Scalar]) -> (r: Vec<Scalar>)
        requires
            self.wf(),
            hidden@.len() == self.hidden_size,
            d_output@.len() == self.n_classes,
        ensures
            r@ == self.hidden_gradients(hidden@, d_output@),
    {
        let oc = self.n_classes;
        let mut gradients: Vec<Scalar> = Vec::new();
        let mut i: usize = 0;
        while i < hidden.len()
            invariant
                self.wf(),
                oc == self.n_classes,
                hidden@.len() == self.hidden_size,
                d_output@.len() == oc,
                i <= hidden@.len(),
                gradients@ == self.hidden_gradients(hidden@, d_output@).take(i as int),
            decreases hidden.len() - i,
        {
            if hidden[i].le(Scalar::zero()) || oc == 0 {
                gradients.push(Scalar::zero());
            } else {
                let size: usize = self.w_output.len();
                proof {
                    lemma_cell(i as int, 0, self.hidden_size as int, oc as int);
                    assert forall|q: int| 0 <= q < d_output@.len() implies 0 <= #[trigger] (q * 1)
                        + i * oc < self.w_output@.len() by {
                        lemma_cell(i as int, q, self.hidden_size as int, oc as int);
                    }
                }
                gradients.push(
                    sum_weighted(
                        Scalar::zero(),
                        d_output,
                        self.w_output.as_slice(),
                        1,
                        i * oc,
                    ),
                );
            }
            i = i + 1;
            proof {
                assert(gradients@ =~= self.hidden_gradients(hidden@, d_output@).take(i as int));
            }
        }
        proof {
            assert(gradients@ =~= self.hidden_gradients(hidden@, d_output@));
        }
        gradients
    }

    /// Steps against the gradients that follow from those of the scores.
    pub fn backward_and_update(
        &mut self,
        spikes: &[Scalar],
        hidden: &[Scalar],
        d_output: &[Scalar],
        lr: Scalar,
    )
        requires
            old(self).wf(),
            spikes@.len() >= old(self).n_input,
            hidden@.len() >= old(self).hidden_size,
            d_output@.len() >= old(self).n_classes,
        ensures
            final(self).wf(),
            old(self).stepped(
                *final(self),
                spikes@.take(old(self).n_input as int),
                hidden@.take(old(self).hidden_size as int),
                d_output@.take(old(self).n_classes as int),
                lr,
            ),
    {
        let spikes = vstd::slice::slice_subrange(spikes, 0, self.n_input);
        let hidden = vstd::slice::slice_subrange(hidden, 0, self.hidden_size);
        let d_output = vstd::slice::slice_subrange(d_output, 0, self.n_classes);
        let d_hidden = self.backpropagate(hidden, d_output);
        descend_weights(&mut self.w_output, hidden, d_output, lr);
        descend_biases(&mut self.b_output, d_output, lr);
        descend_weights(&mut self.w_hidden, spikes, d_hidden.as_slice(), lr);
        descend_biases(&mut self.b_hidden, d_hidden.as_slice(), lr);
    }

    /// The scores of the classes for sample `s` of a list of samples of the same size.
    pub open spec fn sample_logits(self, inputs: Seq<Scalar>, dim: int, s: int) -> Seq<Scalar> {
        self.logits_of(self.hidden_of(inputs.subrange(s * dim, (s + 1) * dim)))
    }

    /// A class can be picked for each of the first `n` samples.
    pub open spec fn judgeable(self, inputs: Seq<Scalar>, dim: int, n: int) -> bool {
        forall|s: int| 0 <= s < n ==> decidable(#[trigger] self.sample_logits(inputs, dim, s))
    }

    /// For how many of the first `n` samples the class with the highest score is the label.
    pub open spec fn correct_of(
        self,
        inputs: Seq<Scalar>,
        labels: Seq<u8>,
        dim: int,
        n: nat,
    ) -> nat
        decreases n,
    {
        if n == 0 {
            0
        } else {
            self.correct_of(inputs, labels, dim, (n - 1) as nat) + if is_predicted(
                self.sample_logits(inputs, dim, n - 1),
                labels[n - 1] as int,
            ) {
                1nat
            } else {
                0nat
            }
        }
    }

    /// Whether a class can be picked for each of the first samples.
    pub fn can_judge(&self, inputs: &[Scalar], n_samples: usize, spike_dim: usize) -> (r: bool)
        requires
            self.readable(),
            n_samples > 0 ==> spike_dim == self.n_input,
            n_samples * spike_dim <= inputs@.len(),
        ensures
            r == self.judgeable(inputs@, spike_dim as int, n_samples as int),
    {
        let size: usize = inputs.len();
        let mut s: usize = 0;
        let mut at: usize = 0;
        while s < n_samples
            invariant
                self.readable(),
                n_samples > 0 ==> spike_dim == self.n_input,
                n_samples * spike_dim <= inputs@.len(),
                size == inputs@.len(),
                s <= n_samples,
                at == s * spike_dim,
                self.judgeable(inputs@, spike_dim as int, s as int),
            decreases n_samples - s,
        {
            proof {
                lemma_sample(s as int, n_samples as int, spike_dim as int);
            }
            let sample = vstd::slice::slice_subrange(inputs, at, at + spike_dim);
            let (logits, _hidden) = self.forward(sample);
            proof {
                assert(logits@ == self.sample_logits(inputs@, spike_dim as int, s as int));
            }
            if !can_predict(logits.as_slice()) {
                return false;
            }
            s = s + 1;
            at = at + spike_dim;
        }
        true
    }

    /// The share of samples for which the class with the highest score is the label.
    pub fn accuracy(
        &self,
        inputs: &[Scalar],
        labels: &[u8],
        n_samples: usize,
        spike_dim: usize,
    ) -> (r: Scalar)
        requires
            self.readable(),
            n_samples > 0 ==> spike_dim == self.n_input,
            n_samples * spike_dim <= inputs@.len(),
            n_samples <= labels@.len(),
            self.judgeable(inputs@, spike_dim as int, n_samples as int),
        ensures
            r == Scalar::ratio_spec(
                self.correct_of(inputs@, labels@, spike_dim as int, n_samples as nat),
                if n_samples == 0 {
                    1
                } else {
                    n_samples as nat
                },
            ),
    {
        let size: usize = inputs.len();
        let mut correct: usize = 0;
        let mut s: usize = 0;
        let mut at: usize = 0;
        while s < n_samples
            invariant
                self.readable(),
                n_samples > 0 ==> spike_dim == self.n_input,
                n_samples * spike_dim <= inputs@.len(),
                n_samples <= labels@.len(),
                self.judgeable(inputs@, spike_dim as int, n_samples as int),
                size == inputs@.len(),
                s <= n_samples,
                at == s * spike_dim,
                correct <= s,
                correct == self.correct_of(inputs@, labels@, spike_dim as int, s as nat),
            decreases n_samples - s,
        {
            proof {
                lemma_sample(s as int, n_samples as int, spike_dim as int);
            }
            let sample = vstd::slice::slice_subrange(inputs, at, at + spike_dim);
            let (logits, _hidden) = self.forward(sample);
            proof {
                assert(logits@ == self.sample_logits(inputs@, spike_dim as int, s as int));
                assert(decidable(self.sample_logits(inputs@, spike_dim as int, s as int)));
            }
            let class: usize = predict(logits.as_slice());
            proof {
                law_prediction_is_unique(logits@, class as int, labels@[s as int] as int);
            }
            if class == labels[s] as usize {
                correct = correct + 1;
            }
            s = s + 1;
            at = at + spike_dim;
        }
        let judged: usize = if n_samples == 0 {
            1
        } else {
            n_samples
        };
        Scalar::ratio(correct as u64, judged as u64)
    }

    /// The number of weights and biases.
    pub fn param_count(&self) -> (r: usize)
        requires
            self.w_hidden@.len() + self.w_output@.len() + self.b_hidden@.len()
                + self.b_output@.len() <= usize::MAX,
        ensures
            r == self.w_hidden@.len() + self.w_output@.len() + self.b_hidden@.len()
                + self.b_output@.len(),
    {
        self.w_hidden.len() + self.w_output.len() + self.b_hidden.len() + self.b_output.len()
    }
}

proof fn lemma_sample(s: int, n: int, dim: int)
    requires
        0 <= s < n,
        0 <= dim,
    ensures
        0 <= s * dim,
        (s + 1) * dim == s * dim + dim,
        s * dim + dim <= n * dim,
{
    assert((s + 1) * dim == s * dim + dim) by (nonlinear_arith);
    assert((s + 1) * dim <= n * dim) by (nonlinear_arith)
        requires
            s + 1 <= n,
            0 <= dim,
    ;
    assert(0 <= s * dim) by (nonlinear_arith)
        requires
            0 <= s,
            0 <= dim,
    ;
}

/// At most one class is predicted.
pub proof fn law_prediction_is_unique(scores: Seq<Scalar>, a: int, b: int)
    requires
        is_predicted(scores, a),
    ensures
        is_predicted(scores, b) <==> a == b,
{
    if scores.len() > 0 && is_predicted(scores, b) {
        law_last_highest_is_unique(scores, a, b);
    }
}

/// A predicted class is one of the classes.
pub proof fn law_prediction_is_a_class(readout: MLPReadout, spikes: Seq<Scalar>, class: int)
    requires
        readout.n_classes > 0,
        is_predicted(readout.logits_of(readout.hidden_of(spikes)), class),
    ensures
        0 <= class < readout.n_classes,
{
}

/// No activation of the hidden layer is less than zero, whatever goes in.
pub proof fn law_activations_are_not_negative(readout: MLPReadout, spikes: Seq<Scalar>, j: int)
    requires
        0 <= j < readout.hidden_size,
    ensures
        nought().le_spec(readout.hidden_of(spikes)[j]),
{
}

/// A gradient that is used is a number from minus one to one.
pub proof fn law_clipped_range(gradient: Scalar)
    ensures
        !clipped(gradient).nan(),
        unit().negated_spec().le_spec(clipped(gradient)),
        clipped(gradient).le_spec(unit()),
        !gradient.nan() && unit().negated_spec().le_spec(gradient) && gradient.le_spec(unit())
            ==> clipped(gradient) == gradient,
{
}

/// The accuracy is a share: a number from zero to one.
pub proof fn law_accuracy_is_a_share(
    readout: MLPReadout,
    inputs: Seq<Scalar>,
    labels: Seq<u8>,
    dim: int,
    n: u64,
)
    requires
        n > 0,
    ensures
        !Scalar::ratio_spec(readout.correct_of(inputs, labels, dim, n as nat), n as nat).nan(),
        0 <= Scalar::ratio_spec(
            readout.correct_of(inputs, labels, dim, n as nat),
            n as nat,
        ).key() <= ONE_BITS,
{
    lemma_correct_bound(readout, inputs, labels, dim, n as nat);
    law_ratio_is_a_share(readout.correct_of(inputs, labels, dim, n as nat) as u64, n);
}

proof fn lemma_correct_bound(
    readout: MLPReadout,
    inputs: Seq<Scalar>,
    labels: Seq<u8>,
    dim: int,
    n: nat,
)
    ensures
        readout.correct_of(inputs, labels, dim, n) <= n,
    decreases n,
{
    if n > 0 {
        lemma_correct_bound(readout, inputs, labels, dim, (n - 1) as nat);
    }
}

/// A neuron of the hidden layer that was not active passes no gradient on.
pub proof fn law_inactive_neurons_do_not_learn(
    readout: MLPReadout,
    hidden: Seq<Scalar>,
    d_output: Seq<Scalar>,
    i: int,
)
    requires
        0 <= i < readout.hidden_size,
        hidden[i].le_spec(nought()),
    ensures
        readout.hidden_gradients(hidden, d_output)[i] == nought(),
{
}

} // verus!
