//! What the readout is for: every input counts in the scores, every class counts in the gradients,
//! and each weight takes its own step.

use crate::arith_laws::{
    law_sum_keeps_order, lemma_nearest_form, lemma_plus_same_value, lemma_plus_zero,
    lemma_times_zero,
};
use crate::readout::{
    MLPReadout, angles_of, decidable, highest_of, is_predicted, loss_gradient_of, nought,
    scaled_by, sum_of, weighted_sum,
};
use crate::rounding::nearest;
use crate::scalar::{
    INFINITY_BITS, ONE_BITS, SIGN_BIT, Scalar, lemma_magnitude_form, one_units,
};
use crate::spiking::{
    HybridSpikingClassifier, LOSS_LIMIT_BITS, LOWERING_BITS, loss_of, rate_of, rates_of,
};
use vstd::prelude::*;
use vstd::set_lib::set_int_range;

verus! {

/// The partial sums of a weighted sum.
proof fn lemma_partial_sums(
    start: Scalar,
    values: Seq<Scalar>,
    weights: Seq<Scalar>,
    stride: int,
    offset: int,
    n: nat,
) -> (p: Seq<Scalar>)
    ensures
        p.len() == n + 1,
        p[0] == start,
        forall|k: int|
            0 <= k < n ==> #[trigger] p[k + 1] == p[k].plus_spec(
                values[k].times_spec(weights[k * stride + offset]),
            ),
        p[n as int] == weighted_sum(start, values, weights, stride, offset, n),
    decreases n,
{
    if n == 0 {
        seq![start]
    } else {
        let q = lemma_partial_sums(start, values, weights, stride, offset, (n - 1) as nat);
        let p = q.push(weighted_sum(start, values, weights, stride, offset, n));
        assert forall|k: int| 0 <= k < n implies #[trigger] p[k + 1] == p[k].plus_spec(
            values[k].times_spec(weights[k * stride + offset]),
        ) by {
            assert(p[k] == q[k]);
            if k < n - 1 {
                assert(p[k + 1] == q[k + 1]);
            }
        }
        p
    }
}

/// Where every value but one is zero, and the weights of the others are finite, a weighted sum is
/// its start and one product.
proof fn lemma_single_term(
    start: Scalar,
    values: Seq<Scalar>,
    weights: Seq<Scalar>,
    stride: int,
    offset: int,
    n: nat,
    j: int,
)
    requires
        forall|k: int|
            0 <= k < n && k != j ==> (#[trigger] values[k]).mag() == 0 && weights[k * stride
                + offset].finite(),
    ensures
        ({
            let whole = weighted_sum(start, values, weights, stride, offset, n);
            let term = if 0 <= j < n {
                start.plus_spec(values[j].times_spec(weights[j * stride + offset]))
            } else {
                start
            };
            &&& whole.nan() <==> term.nan()
            &&& !whole.nan() ==> whole.key() == term.key()
        }),
    decreases n,
{
    if n > 0 {
        let k = n - 1;
        lemma_single_term(start, values, weights, stride, offset, k as nat, j);
        let sum = weighted_sum(start, values, weights, stride, offset, k as nat);
        let x = values[k].times_spec(weights[k * stride + offset]);
        if k == j {
            lemma_plus_same_value(sum, start, x);
        } else {
            assert(values[k].mag() == 0);
            lemma_times_zero(values[k], weights[k * stride + offset]);
            lemma_plus_zero(sum, x);
        }
    }
}

/// Of two weighted sums with the same terms, the one with the higher start is not lower.
proof fn lemma_higher_start(
    low: Scalar,
    high: Scalar,
    values: Seq<Scalar>,
    weights: Seq<Scalar>,
    stride: int,
    offset: int,
    n: nat,
)
    requires
        low.le_spec(high),
        !weighted_sum(low, values, weights, stride, offset, n).nan(),
        !weighted_sum(high, values, weights, stride, offset, n).nan(),
    ensures
        weighted_sum(low, values, weights, stride, offset, n).le_spec(
            weighted_sum(high, values, weights, stride, offset, n),
        ),
    decreases n,
{
    if n > 0 {
        let k = (n - 1) as nat;
        let a = weighted_sum(low, values, weights, stride, offset, k);
        let b = weighted_sum(high, values, weights, stride, offset, k);
        let x = values[n - 1].times_spec(weights[(n - 1) * stride + offset]);
        lemma_higher_start(low, high, values, weights, stride, offset, k);
        law_sum_keeps_order(a, b, x);
    }
}

/// The score of a class is built up in steps: it starts from the bias of the class, and the
/// activation of every hidden neuron is added once, times its weight to that class.
pub proof fn law_score_is_built_up(readout: MLPReadout, hidden: Seq<Scalar>, j: int) -> (p: Seq<
    Scalar,
>)
    requires
        0 <= j < readout.n_classes,
    ensures
        readout.logits_of(hidden).len() == readout.n_classes,
        p.len() == readout.hidden_size + 1,
        p[0] == readout.b_output@[j],
        forall|k: int|
            0 <= k < readout.hidden_size ==> #[trigger] p[k + 1] == p[k].plus_spec(
                hidden[k].times_spec(readout.w_output@[k * readout.n_classes + j]),
            ),
        readout.logits_of(hidden)[j] == p[readout.hidden_size as int],
{
    lemma_partial_sums(
        readout.b_output@[j],
        hidden,
        readout.w_output@,
        readout.n_classes as int,
        j,
        readout.hidden_size as nat,
    )
}

/// The activation of a hidden neuron is built up in steps: it starts from the bias of the neuron,
/// and every input is added once, times its weight to that neuron. What is below zero, or not a
/// number, becomes zero in the end.
pub proof fn law_activation_is_built_up(
    readout: MLPReadout,
    spikes: Seq<Scalar>,
    j: int,
) -> (p: Seq<Scalar>)
    requires
        0 <= j < readout.hidden_size,
    ensures
        readout.hidden_of(spikes).len() == readout.hidden_size,
        p.len() == readout.n_input + 1,
        p[0] == readout.b_hidden@[j],
        forall|k: int|
            0 <= k < readout.n_input ==> #[trigger] p[k + 1] == p[k].plus_spec(
                spikes[k].times_spec(readout.w_hidden@[k * readout.hidden_size + j]),
            ),
        p[readout.n_input as int].nan() || p[readout.n_input as int].key() < 0
            ==> readout.hidden_of(spikes)[j].bits == 0,
        !p[readout.n_input as int].nan() && p[readout.n_input as int].key() >= 0
            ==> readout.hidden_of(spikes)[j] == p[readout.n_input as int],
{
    lemma_partial_sums(
        readout.b_hidden@[j],
        spikes,
        readout.w_hidden@,
        readout.hidden_size as int,
        j,
        readout.n_input as nat,
    )
}

/// A class score starts from the bias of its class: where no hidden neuron is active, and the
/// weights are finite, the score is as large as that bias.
pub proof fn law_bias_is_the_score_of_silence(readout: MLPReadout, hidden: Seq<Scalar>, j: int)
    requires
        0 <= j < readout.n_classes,
        forall|k: int|
            0 <= k < readout.hidden_size ==> (#[trigger] hidden[k]).mag() == 0
                && readout.w_output@[k * readout.n_classes + j].finite(),
    ensures
        readout.logits_of(hidden)[j].nan() <==> readout.b_output@[j].nan(),
        !readout.b_output@[j].nan() ==> readout.logits_of(hidden)[j].key()
            == readout.b_output@[j].key(),
{
    lemma_single_term(
        readout.b_output@[j],
        hidden,
        readout.w_output@,
        readout.n_classes as int,
        j,
        readout.hidden_size as nat,
        -1,
    );
}

/// Where one hidden neuron alone is active, and the weights are finite, a class score is the bias
/// of the class and the activation of that neuron, times its weight to the class.
pub proof fn law_single_activation_reaches_every_class(
    readout: MLPReadout,
    hidden: Seq<Scalar>,
    i: int,
    j: int,
)
    requires
        0 <= i < readout.hidden_size,
        0 <= j < readout.n_classes,
        forall|k: int|
            0 <= k < readout.hidden_size && k != i ==> (#[trigger] hidden[k]).mag() == 0
                && readout.w_output@[k * readout.n_classes + j].finite(),
    ensures
        ({
            let score = readout.logits_of(hidden)[j];
            let sum = readout.b_output@[j].plus_spec(
                hidden[i].times_spec(readout.w_output@[i * readout.n_classes + j]),
            );
            &&& score.nan() <==> sum.nan()
            &&& !score.nan() ==> score.key() == sum.key()
        }),
{
    lemma_single_term(
        readout.b_output@[j],
        hidden,
        readout.w_output@,
        readout.n_classes as int,
        j,
        readout.hidden_size as nat,
        i,
    );
}

/// Of two readouts that differ in the output biases alone, the one with the higher bias of a class
/// never gives that class the lower score.
pub proof fn law_higher_bias_higher_score(
    low: MLPReadout,
    high: MLPReadout,
    hidden: Seq<Scalar>,
    j: int,
)
    requires
        low.hidden_size == high.hidden_size,
        low.n_classes == high.n_classes,
        low.w_output@ == high.w_output@,
        0 <= j < low.n_classes,
        low.b_output@[j].le_spec(high.b_output@[j]),
        !low.logits_of(hidden)[j].nan(),
        !high.logits_of(hidden)[j].nan(),
    ensures
        low.logits_of(hidden)[j].le_spec(high.logits_of(hidden)[j]),
{
    lemma_higher_start(
        low.b_output@[j],
        high.b_output@[j],
        hidden,
        low.w_output@,
        low.n_classes as int,
        j,
        low.hidden_size as nat,
    );
}

/// A hidden neuron starts from its bias: where no input spikes, and the weights are finite, its
/// activation is as large as its bias, or zero where that is below zero.
pub proof fn law_bias_is_the_activation_of_silence(
    readout: MLPReadout,
    spikes: Seq<Scalar>,
    j: int,
)
    requires
        0 <= j < readout.hidden_size,
        !readout.b_hidden@[j].nan(),
        forall|k: int|
            0 <= k < readout.n_input ==> (#[trigger] spikes[k]).mag() == 0 && readout.w_hidden@[k
                * readout.hidden_size + j].finite(),
    ensures
        readout.hidden_of(spikes)[j].key() == if readout.b_hidden@[j].key() < 0 {
            0
        } else {
            readout.b_hidden@[j].key()
        },
{
    lemma_single_term(
        readout.b_hidden@[j],
        spikes,
        readout.w_hidden@,
        readout.hidden_size as int,
        j,
        readout.n_input as nat,
        -1,
    );
}

/// Where one input alone spikes, and the weights are finite, the activation of a hidden neuron is
/// its bias and that input, times its weight to the neuron, or zero where that is below zero.
pub proof fn law_single_input_reaches_every_neuron(
    readout: MLPReadout,
    spikes: Seq<Scalar>,
    i: int,
    j: int,
)
    requires
        0 <= i < readout.n_input,
        0 <= j < readout.hidden_size,
        forall|k: int|
            0 <= k < readout.n_input && k != i ==> (#[trigger] spikes[k]).mag() == 0
                && readout.w_hidden@[k * readout.hidden_size + j].finite(),
    ensures
        ({
            let sum = readout.b_hidden@[j].plus_spec(
                spikes[i].times_spec(readout.w_hidden@[i * readout.hidden_size + j]),
            );
            readout.hidden_of(spikes)[j].key() == if sum.nan() || sum.key() < 0 {
                0
            } else {
                sum.key()
            }
        }),
{
    lemma_single_term(
        readout.b_hidden@[j],
        spikes,
        readout.w_hidden@,
        readout.hidden_size as int,
        j,
        readout.n_input as nat,
        i,
    );
}

/// The gradient of an active neuron is built up in steps: it starts from zero, and the gradient of
/// every class is added once, times the weight from the neuron to that class.
pub proof fn law_gradient_is_built_up(
    readout: MLPReadout,
    hidden: Seq<Scalar>,
    d_output: Seq<Scalar>,
    i: int,
) -> (p: Seq<Scalar>)
    requires
        0 <= i < readout.hidden_size,
        hidden[i].nan() || hidden[i].key() > 0,
    ensures
        readout.hidden_gradients(hidden, d_output).len() == readout.hidden_size,
        p.len() == readout.n_classes + 1,
        p[0].bits == 0,
        forall|k: int|
            0 <= k < readout.n_classes ==> #[trigger] p[k + 1] == p[k].plus_spec(
                d_output[k].times_spec(readout.w_output@[i * readout.n_classes + k]),
            ),
        readout.hidden_gradients(hidden, d_output)[i] == p[readout.n_classes as int],
{
    let p = lemma_partial_sums(
        nought(),
        d_output,
        readout.w_output@,
        1,
        i * readout.n_classes,
        readout.n_classes as nat,
    );
    let row = i * readout.n_classes;
    assert forall|k: int| 0 <= k < readout.n_classes implies #[trigger] p[k + 1] == p[k].plus_spec(
        d_output[k].times_spec(readout.w_output@[i * readout.n_classes + k]),
    ) by {
        assert(p[k + 1] == p[k].plus_spec(
            d_output[k].times_spec(readout.w_output@[k * 1 + row]),
        ));
        assert(k * 1 + row == row + k);
    }
    p
}

/// Where every gradient but one is zero, and the weights of the others in a row are finite, the sum
/// over the row is one product.
#[verifier::spinoff_prover]
proof fn lemma_single_error(
    d_output: Seq<Scalar>,
    weights: Seq<Scalar>,
    row: int,
    n: nat,
    j: int,
)
    requires
        forall|k: int|
            0 <= k < n && k != j ==> (#[trigger] d_output[k]).mag() == 0 && weights[row
                + k].finite(),
    ensures
        ({
            let whole = weighted_sum(nought(), d_output, weights, 1, row, n);
            let term = if 0 <= j < n {
                nought().plus_spec(d_output[j].times_spec(weights[row + j]))
            } else {
                nought()
            };
            &&& whole.nan() <==> term.nan()
            &&& !whole.nan() ==> whole.key() == term.key()
        }),
{
    assert forall|k: int| 0 <= k < n && k != j implies (#[trigger] d_output[k]).mag() == 0
        && weights[k * 1 + row].finite() by {
        assert(d_output[k].mag() == 0);
        assert(weights[row + k].finite());
        let at = k * 1 + row;
        assert(at == row + k);
        assert(weights[at] == weights[row + k]);
    }
    lemma_single_term(nought(), d_output, weights, 1, row, n, j);
    assert(j * 1 + row == row + j);
}

/// The error on any single class reaches every active neuron: where the gradients of the scores
/// are zero but for that class, and the weights are finite, the gradient of the neuron is as large
/// as that of the class, times the weight from the neuron to the class.
pub proof fn law_single_error_reaches_active_neurons(
    readout: MLPReadout,
    hidden: Seq<Scalar>,
    d_output: Seq<Scalar>,
    i: int,
    j: int,
)
    requires
        0 <= i < readout.hidden_size,
        0 <= j < readout.n_classes,
        hidden[i].nan() || hidden[i].key() > 0,
        forall|k: int|
            0 <= k < readout.n_classes && k != j ==> (#[trigger] d_output[k]).mag() == 0
                && readout.w_output@[i * readout.n_classes + k].finite(),
    ensures
        ({
            let gradient = readout.hidden_gradients(hidden, d_output)[i];
            let product = d_output[j].times_spec(readout.w_output@[i * readout.n_classes + j]);
            &&& gradient.nan() <==> product.nan()
            &&& !gradient.nan() ==> gradient.key() == product.key()
        }),
{
    lemma_single_error(
        d_output,
        readout.w_output@,
        i * readout.n_classes,
        readout.n_classes as nat,
        j,
    );
    lemma_plus_zero(
        d_output[j].times_spec(readout.w_output@[i * readout.n_classes + j]),
        nought(),
    );
}

/// Without any error no neuron has a gradient.
pub proof fn law_no_error_no_gradient(
    readout: MLPReadout,
    hidden: Seq<Scalar>,
    d_output: Seq<Scalar>,
    i: int,
)
    requires
        0 <= i < readout.hidden_size,
        forall|k: int|
            0 <= k < readout.n_classes ==> (#[trigger] d_output[k]).mag() == 0
                && readout.w_output@[i * readout.n_classes + k].finite(),
    ensures
        readout.hidden_gradients(hidden, d_output)[i].mag() == 0,
{
    lemma_single_error(
        d_output,
        readout.w_output@,
        i * readout.n_classes,
        readout.n_classes as nat,
        -1,
    );
}

/// `step` is what a weight moves against, for this gradient: the gradient itself where it lies
/// between minus one and one, else the nearer of these two; what is not a number counts as minus
/// one.
pub open spec fn limited(gradient: Scalar, step: Scalar) -> bool {
    &&& gradient.nan() || gradient.key() < -(ONE_BITS as int) ==> step.bits == ONE_BITS + SIGN_BIT
    &&& !gradient.nan() && gradient.key() > ONE_BITS ==> step.bits == ONE_BITS
    &&& !gradient.nan() && -(ONE_BITS as int) <= gradient.key() <= ONE_BITS ==> step == gradient
}

/// A step of the training moves every weight of the output layer by the rate against its own
/// gradient, which is that of its class times the activation of its neuron, limited to the range
/// from minus one to one.
pub proof fn law_output_weight_steps(
    before: MLPReadout,
    after: MLPReadout,
    spikes: Seq<Scalar>,
    hidden: Seq<Scalar>,
    d_output: Seq<Scalar>,
    rate: Scalar,
    i: int,
    j: int,
) -> (step: Scalar)
    requires
        before.stepped(after, spikes, hidden, d_output, rate),
        hidden.len() == before.hidden_size,
        d_output.len() == before.n_classes,
        0 <= i < before.hidden_size,
        0 <= j < before.n_classes,
    ensures
        limited(Scalar { bits: 0 }.plus_spec(d_output[j].times_spec(hidden[i])), step),
        after.w_output@.len() == before.w_output@.len(),
        after.w_output@[i * before.n_classes + j] == before.w_output@[i * before.n_classes
            + j].minus_spec(rate.times_spec(step)),
{
    let g = (Scalar { bits: 0 }).plus_spec(d_output[j].times_spec(hidden[i]));
    assert(after.w_output@[i * d_output.len() + j] == after.w_output@[i * before.n_classes + j]);
    crate::readout::clipped(g)
}

/// A step of the training moves every weight of the hidden layer by the rate against its own
/// gradient, which is that of its neuron times its input, limited to the range from minus one to
/// one.
pub proof fn law_hidden_weight_steps(
    before: MLPReadout,
    after: MLPReadout,
    spikes: Seq<Scalar>,
    hidden: Seq<Scalar>,
    d_output: Seq<Scalar>,
    rate: Scalar,
    i: int,
    j: int,
) -> (step: Scalar)
    requires
        before.stepped(after, spikes, hidden, d_output, rate),
        spikes.len() == before.n_input,
        0 <= i < before.n_input,
        0 <= j < before.hidden_size,
    ensures
        limited(
            (Scalar { bits: 0 }).plus_spec(
                before.hidden_gradients(hidden, d_output)[j].times_spec(spikes[i]),
            ),
            step,
        ),
        after.w_hidden@.len() == before.w_hidden@.len(),
        after.w_hidden@[i * before.hidden_size + j] == before.w_hidden@[i * before.hidden_size
            + j].minus_spec(rate.times_spec(step)),
{
    let d_hidden = before.hidden_gradients(hidden, d_output);
    let g = (Scalar { bits: 0 }).plus_spec(d_hidden[j].times_spec(spikes[i]));
    assert(after.w_hidden@[i * d_hidden.len() + j] == after.w_hidden@[i * before.hidden_size
        + j]);
    crate::readout::clipped(g)
}

/// A step of the training moves every bias by the rate against the gradient of its neuron or
/// class, and leaves the shape of the readout as it is.
pub proof fn law_bias_steps(
    before: MLPReadout,
    after: MLPReadout,
    spikes: Seq<Scalar>,
    hidden: Seq<Scalar>,
    d_output: Seq<Scalar>,
    rate: Scalar,
    j: int,
)
    requires
        before.stepped(after, spikes, hidden, d_output, rate),
        d_output.len() == before.n_classes,
    ensures
        after.n_input == before.n_input,
        after.hidden_size == before.hidden_size,
        after.n_classes == before.n_classes,
        after.b_output@.len() == before.b_output@.len(),
        after.b_hidden@.len() == before.b_hidden@.len(),
        0 <= j < before.n_classes ==> after.b_output@[j] == before.b_output@[j].minus_spec(
            rate.times_spec(Scalar { bits: 0 }.plus_spec(d_output[j])),
        ),
        0 <= j < before.hidden_size ==> after.b_hidden@[j] == before.b_hidden@[j].minus_spec(
            rate.times_spec(
                (Scalar { bits: 0 }).plus_spec(before.hidden_gradients(hidden, d_output)[j]),
            ),
        ),
{
}

/// The partial sums of a sum.
proof fn lemma_sum_partial(values: Seq<Scalar>, n: nat) -> (p: Seq<Scalar>)
    ensures
        p.len() == n + 1,
        p[0].bits == 0,
        forall|k: int| 0 <= k < n ==> #[trigger] p[k + 1] == p[k].plus_spec(values[k]),
        p[n as int] == sum_of(values, n),
    decreases n,
{
    if n == 0 {
        seq![nought()]
    } else {
        let q = lemma_sum_partial(values, (n - 1) as nat);
        let p = q.push(sum_of(values, n));
        assert forall|k: int| 0 <= k < n implies #[trigger] p[k + 1] == p[k].plus_spec(
            values[k],
        ) by {
            assert(p[k] == q[k]);
            if k < n - 1 {
                assert(p[k + 1] == q[k + 1]);
            }
        }
        p
    }
}

/// A sum adds every value once: it starts from zero and is built up value by value.
pub proof fn law_sum_is_built_up(values: Seq<Scalar>) -> (p: Seq<Scalar>)
    ensures
        p.len() == values.len() + 1,
        p[0].bits == 0,
        forall|k: int| 0 <= k < values.len() ==> #[trigger] p[k + 1] == p[k].plus_spec(values[k]),
        sum_of(values, values.len()) == p[values.len() as int],
{
    lemma_sum_partial(values, values.len())
}

/// The gradient of the loss is the probability of each class, its exponential by the sum of all
/// of them, less one for the class that is right.
pub proof fn law_gradient_is_probability_less_truth(
    exp_logits: Seq<Scalar>,
    target: int,
    j: int,
) -> (p: Seq<Scalar>)
    requires
        0 <= j < exp_logits.len(),
    ensures
        p.len() == exp_logits.len() + 1,
        p[0].bits == 0,
        forall|k: int|
            0 <= k < exp_logits.len() ==> #[trigger] p[k + 1] == p[k].plus_spec(exp_logits[k]),
        loss_gradient_of(exp_logits, target).len() == exp_logits.len(),
        j != target ==> loss_gradient_of(exp_logits, target)[j] == exp_logits[j].over_spec(
            p[exp_logits.len() as int],
        ),
        j == target ==> loss_gradient_of(exp_logits, target)[j] == exp_logits[j].over_spec(
            p[exp_logits.len() as int],
        ).minus_spec(Scalar { bits: ONE_BITS }),
{
    lemma_sum_partial(exp_logits, exp_logits.len())
}

/// Which class is right matters to the gradients of that class alone: for two classes that may be
/// right, the gradients of all others are the same, and that of the right one is one less than it
/// is where the other is right.
pub proof fn law_truth_moves_one_gradient(exp_logits: Seq<Scalar>, a: int, b: int, j: int)
    requires
        0 <= j < exp_logits.len(),
    ensures
        j != a && j != b ==> loss_gradient_of(exp_logits, a)[j] == loss_gradient_of(
            exp_logits,
            b,
        )[j],
        j == a && a != b ==> loss_gradient_of(exp_logits, a)[j] == loss_gradient_of(
            exp_logits,
            b,
        )[j].minus_spec(Scalar { bits: ONE_BITS }),
{
}

/// The highest score is one of them, and none is above it; where none is a number, or there is
/// none at all, it is minus infinity.
pub proof fn law_highest_is_highest(scores: Seq<Scalar>)
    ensures
        forall|j: int|
            0 <= j < scores.len() && !(#[trigger] scores[j]).nan() ==> scores[j].le_spec(
                highest_of(scores, scores.len()),
            ),
        highest_of(scores, scores.len()).bits == INFINITY_BITS + SIGN_BIT || exists|j: int|
            0 <= j < scores.len() && #[trigger] scores[j] == highest_of(scores, scores.len()),
        !highest_of(scores, scores.len()).nan(),
{
    lemma_highest(scores, scores.len());
}

proof fn lemma_highest(scores: Seq<Scalar>, n: nat)
    requires
        n <= scores.len(),
    ensures
        forall|j: int|
            0 <= j < n && !(#[trigger] scores[j]).nan() ==> scores[j].le_spec(
                highest_of(scores, n),
            ),
        highest_of(scores, n).bits == INFINITY_BITS + SIGN_BIT || exists|j: int|
            0 <= j < n && #[trigger] scores[j] == highest_of(scores, n),
        !highest_of(scores, n).nan(),
    decreases n,
{
    if n > 0 {
        lemma_highest(scores, (n - 1) as nat);
        let (a, b) = (highest_of(scores, (n - 1) as nat), highest_of(scores, n));
        assert(b == a || b == scores[n - 1]);
    }
}

/// The class that is predicted is one with the highest score, and every later one scores lower;
/// without scores it is the first one.
pub proof fn law_prediction_has_the_highest_score(scores: Seq<Scalar>, class: int)
    requires
        is_predicted(scores, class),
    ensures
        scores.len() == 0 ==> class == 0,
        scores.len() > 0 ==> 0 <= class < scores.len(),
        forall|j: int| class < j < scores.len() ==> (#[trigger] scores[j]).lt_spec(scores[class]),
        decidable(scores) ==> forall|j: int|
            0 <= j < class ==> (#[trigger] scores[j]).le_spec(scores[class]),
{
    if decidable(scores) && scores.len() >= 2 {
        assert forall|j: int| 0 <= j < class implies (#[trigger] scores[j]).le_spec(
            scores[class],
        ) by {
            assert(crate::ranking::numbers_between(scores, j, class));
            assert(!scores[class].nan());
        }
    }
}

/// A class can be picked exactly where every score is a number, or there are fewer than two.
pub proof fn law_numbers_can_be_compared(scores: Seq<Scalar>)
    ensures
        decidable(scores) <==> scores.len() < 2 || forall|j: int|
            0 <= j < scores.len() ==> !(#[trigger] scores[j]).nan(),
{
}

/// The loss that is reported is the cross-entropy, the logarithm of the sum less how far the right
/// class is above the highest score, wherever that lies between zero and ten; a lower one is
/// reported as zero and a higher one as ten.
pub proof fn law_loss_is_the_cross_entropy(logit: Scalar, max_logit: Scalar, ln_sum: Scalar)
    ensures
        ({
            let entropy = logit.minus_spec(max_logit).minus_spec(ln_sum).negated_spec();
            let loss = loss_of(logit, max_logit, ln_sum);
            &&& !entropy.nan() && 0 <= entropy.key() <= LOSS_LIMIT_BITS ==> loss.key()
                == entropy.key()
            &&& !entropy.nan() && entropy.key() > LOSS_LIMIT_BITS ==> loss.bits == LOSS_LIMIT_BITS
            &&& entropy.nan() || entropy.key() < 0 ==> loss.key() == 0
        }),
{
}

/// A spike rate is the share of the spikes in the timesteps; without timesteps it is the number of
/// spikes itself.
pub proof fn law_rate_is_spikes_by_timesteps(count: u64, timesteps: u64)
    ensures
        timesteps > 0 ==> rate_of(count as nat, timesteps as nat) == Scalar::ratio_spec(
            count as nat,
            timesteps as nat,
        ),
        timesteps == 0 ==> rate_of(count as nat, timesteps as nat) == Scalar::ratio_spec(
            count as nat,
            1,
        ),
{
    crate::counts::law_counts_keep_order(0, 1);
    crate::counts::law_counts_keep_order(timesteps as nat, timesteps as nat);
    crate::spiking::lemma_count_of_one();
    if timesteps > 0 {
        crate::counts::law_counts_keep_order(1, timesteps as nat);
    }
}

/// Every spike count becomes the rate at its position.
pub proof fn law_every_count_has_a_rate(counts: Seq<u32>, timesteps: u64, i: int)
    requires
        0 <= i < counts.len(),
    ensures
        rates_of(counts, timesteps as nat).len() == counts.len(),
        rates_of(counts, timesteps as nat)[i] == Scalar::ratio_spec(
            counts[i] as nat,
            if timesteps == 0 {
                1
            } else {
                timesteps as nat
            },
        ),
{
    law_rate_is_spikes_by_timesteps(counts[i] as u64, timesteps);
}

/// The score of a class for spike counts is built up from the rates: the activations are those of
/// a hidden layer that adds up every rate times its weight, and the score adds up every activation
/// times its weight.
pub proof fn law_class_score_is_built_up<N>(
    classifier: HybridSpikingClassifier<N>,
    counts: Seq<u32>,
    j: int,
) -> (r: (Seq<Scalar>, Seq<Scalar>))
    requires
        0 <= j < classifier.readout.n_classes,
        classifier.timesteps <= u64::MAX,
        counts.len() == classifier.readout.n_input,
    ensures
        classifier.logits_for(counts).len() == classifier.readout.n_classes,
        r.0.len() == counts.len(),
        forall|i: int|
            0 <= i < counts.len() ==> #[trigger] r.0[i] == Scalar::ratio_spec(
                counts[i] as nat,
                if classifier.timesteps == 0 {
                    1
                } else {
                    classifier.timesteps as nat
                },
            ),
        r.1.len() == classifier.readout.hidden_size + 1,
        r.1[0] == classifier.readout.b_output@[j],
        forall|k: int|
            0 <= k < classifier.readout.hidden_size ==> #[trigger] r.1[k + 1] == r.1[k].plus_spec(
                classifier.readout.hidden_of(r.0)[k].times_spec(
                    classifier.readout.w_output@[k * classifier.readout.n_classes + j],
                ),
            ),
        classifier.logits_for(counts)[j] == r.1[classifier.readout.hidden_size as int],
{
    let rates = rates_of(counts, classifier.timesteps as nat);
    assert forall|i: int| 0 <= i < counts.len() implies #[trigger] rates[i]
        == Scalar::ratio_spec(
        counts[i] as nat,
        if classifier.timesteps == 0 {
            1
        } else {
            classifier.timesteps as nat
        },
    ) by {
        law_every_count_has_a_rate(counts, classifier.timesteps as u64, i);
    }
    let hidden = classifier.readout.hidden_of(rates);
    let p = law_score_is_built_up(classifier.readout, hidden, j);
    (rates, p)
}

/// The positions below `n` of samples whose label is the predicted class.
pub open spec fn right_samples(scores: spec_fn(int) -> Seq<Scalar>, labels: Seq<u8>, n: int) -> Set<
    int,
> {
    set_int_range(0, n).filter(|s: int| is_predicted(scores(s), labels[s] as int))
}

proof fn lemma_one_more(a: Set<int>, b: Set<int>, n: int, holds: bool)
    requires
        forall|x: int| a.contains(x) ==> 0 <= x < n,
        forall|x: int| #[trigger]
            b.contains(x) <==> a.contains(x) || (x == n && holds),
        a.finite(),
    ensures
        b.finite(),
        b.len() == a.len() + if holds {
            1nat
        } else {
            0nat
        },
{
    if holds {
        assert(b =~= a.insert(n));
        assert(!a.contains(n));
    } else {
        assert(b =~= a);
    }
}

/// The accuracy of a readout counts every sample whose label is the class that the readout gives
/// the highest score, and no other.
pub proof fn law_accuracy_counts_right_samples(
    readout: MLPReadout,
    inputs: Seq<Scalar>,
    labels: Seq<u8>,
    dim: int,
    n: nat,
)
    ensures
        ({
            let scores = |s: int| readout.sample_logits(inputs, dim, s);
            &&& right_samples(scores, labels, n as int).finite()
            &&& readout.correct_of(inputs, labels, dim, n) == right_samples(
                scores,
                labels,
                n as int,
            ).len()
        }),
    decreases n,
{
    let scores = |s: int| readout.sample_logits(inputs, dim, s);
    let b = right_samples(scores, labels, n as int);
    vstd::set_lib::lemma_int_range(0, n as int);
    if n == 0 {
        assert(b =~= Set::empty());
    } else {
        let k = n - 1;
        law_accuracy_counts_right_samples(readout, inputs, labels, dim, k as nat);
        let a = right_samples(scores, labels, k);
        lemma_one_more(a, b, k, is_predicted(scores(k), labels[k] as int));
    }
}

/// The accuracy of a classifier counts every sample whose label is the class that its spike counts
/// give the highest score, and no other.
pub proof fn law_accuracy_counts_right_spikes<N>(
    classifier: HybridSpikingClassifier<N>,
    samples: Seq<Vec<u32>>,
    labels: Seq<u8>,
    n: nat,
)
    ensures
        ({
            let scores = |s: int| classifier.logits_for(samples[s]@);
            &&& right_samples(scores, labels, n as int).finite()
            &&& classifier.correct_for(samples, labels, n) == right_samples(
                scores,
                labels,
                n as int,
            ).len()
        }),
    decreases n,
{
    let scores = |s: int| classifier.logits_for(samples[s]@);
    let b = right_samples(scores, labels, n as int);
    vstd::set_lib::lemma_int_range(0, n as int);
    if n == 0 {
        assert(b =~= Set::empty());
    } else {
        let k = n - 1;
        law_accuracy_counts_right_spikes(classifier, samples, labels, k as nat);
        let a = right_samples(scores, labels, k);
        lemma_one_more(a, b, k, is_predicted(scores(k), labels[k] as int));
    }
}

/// The scores for a sample of a list are those for the values of that sample alone, from its first
/// to its last.
pub proof fn law_sample_is_read_in_full(
    readout: MLPReadout,
    inputs: Seq<Scalar>,
    dim: int,
    s: int,
    values: Seq<Scalar>,
)
    requires
        0 <= s,
        0 <= dim,
        (s + 1) * dim <= inputs.len(),
        values.len() == dim,
        forall|i: int| 0 <= i < dim ==> #[trigger] values[i] == inputs[s * dim + i],
    ensures
        readout.sample_logits(inputs, dim, s) == readout.logits_of(readout.hidden_of(values)),
{
    assert((s + 1) * dim == s * dim + dim) by (nonlinear_arith);
    assert(s * dim >= 0) by (nonlinear_arith)
        requires
            s >= 0,
            dim >= 0,
    ;
    assert(inputs.subrange(s * dim, (s + 1) * dim) =~= values);
}

/// The angles of the weights are the whole numbers from zero on, each times the seed; a weight is
/// its sine times the scale.
pub proof fn law_initial_weights(n: nat, seed: Scalar, sines: Seq<Scalar>, factor: Scalar, i: int)
    ensures
        angles_of(n, seed).len() == n,
        0 <= i < n ==> angles_of(n, seed)[i] == Scalar::from_count_spec(i as nat).times_spec(seed),
        scaled_by(sines, factor).len() == sines.len(),
        0 <= i < sines.len() ==> scaled_by(sines, factor)[i] == sines[i].times_spec(factor),
{
}

/// Samples can be judged exactly where the scores of each of them can be compared.
pub proof fn law_judgeable_samples(readout: MLPReadout, inputs: Seq<Scalar>, dim: int, n: int)
    ensures
        readout.judgeable(inputs, dim, n) <==> forall|s: int|
            0 <= s < n ==> decidable(#[trigger] readout.sample_logits(inputs, dim, s)),
{
}

/// A readout is complete where every neuron of the hidden layer has a bias and a weight for each
/// input, and every class a bias and a weight for each neuron; it holds no others.
pub proof fn law_shape_of_a_readout(readout: MLPReadout)
    ensures
        readout.wf() <==> readout.w_hidden@.len() == readout.n_input * readout.hidden_size
            && readout.w_output@.len() == readout.hidden_size * readout.n_classes
            && readout.b_hidden@.len() == readout.hidden_size && readout.b_output@.len()
            == readout.n_classes,
        readout.wf() ==> readout.readable(),
        readout.w_hidden@.len() >= readout.n_input * readout.hidden_size
            && readout.w_output@.len() >= readout.hidden_size * readout.n_classes
            && readout.b_hidden@.len() >= readout.hidden_size && readout.b_output@.len()
            >= readout.n_classes ==> readout.readable(),
{
}

/// The highest loss that is reported is ten, and a threshold is lowered by the number nearest to
/// ninety-nine hundredths.
pub proof fn law_constants_of_the_training()
    ensures
        (Scalar { bits: LOSS_LIMIT_BITS }).units() == 10 * one_units(),
        nearest(LOWERING_BITS as int, 99 * one_units(), 100),
{
    vstd::arithmetic::power2::lemma2_to64();
    lemma_magnitude_form(0xa0_0000, 129);
    vstd::arithmetic::power2::lemma_pow2_adds(20, 129);
    lemma_nearest_form(0xfd_70a4, 125, 99, 100);
}

} // verus!
