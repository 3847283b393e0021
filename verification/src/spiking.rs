//! The spiking classifier: a network of spiking neurons turns a sample into spike counts, and the
//! readout turns those into a class.

use crate::counts::{
    law_counts_keep_order, law_ratio_is_a_share, law_small_counts_are_exact, lemma_one_value,
};
use crate::readout::{
    MLPReadout, decidable, highest, highest_of, is_predicted, law_prediction_is_unique,
    loss_gradient_of, nought, predict, softmax_arguments, unit,
};
use crate::scalar::{ONE_BITS, Scalar, lemma_magnitude_increases};
use vstd::prelude::*;

verus! {

/// The highest loss that is reported: ten.
pub const LOSS_LIMIT_BITS: u32 = 0x4120_0000;

/// The factor by which a threshold is lowered: the number nearest to ninety-nine hundredths.
pub const LOWERING_BITS: u32 = 0x3f7d_70a4;

/// The number of spiking neurons that the readout reads where a network has no layers.
pub const DEFAULT_SPIKE_DIM: usize = 10;

/// The classifier: a network of spiking neurons, and the readout behind it.
pub struct HybridSpikingClassifier<N> {
    pub snn: N,
    pub readout: MLPReadout,
    pub timesteps: usize,
}

/// What is known after the spikes for a sample of the training were counted.
#[derive(Debug)]
pub struct Observation {
    pub spikes: Vec<Scalar>,
    pub logits: Vec<Scalar>,
    pub hidden: Vec<Scalar>,
    /// The exponentials of these make up the probabilities of the classes.
    pub arguments: Vec<Scalar>,
}

/// The number of spikes by the number of timesteps, of which there is at least one.
pub open spec fn rate_of(count: nat, timesteps: nat) -> Scalar {
    Scalar::from_count_spec(count).over_spec(Scalar::from_count_spec(timesteps).max_spec(unit()))
}

/// The spike rates for spike counts.
pub open spec fn rates_of(counts: Seq<u32>, timesteps: nat) -> Seq<Scalar> {
    Seq::new(counts.len(), |i: int| rate_of(counts[i] as nat, timesteps))
}

/// The loss as it is reported, for the score of the class that is right, the highest score and the
/// logarithm of the sum of the exponentials: the cross-entropy, which is the negated logarithm of
/// the probability of that class, limited to the range from zero to ten.
pub open spec fn loss_of(logit: Scalar, max_logit: Scalar, ln_sum: Scalar) -> Scalar {
    nought().max_spec(logit.minus_spec(max_logit).minus_spec(ln_sum).negated_spec()).min_spec(
        (Scalar { bits: LOSS_LIMIT_BITS }),
    )
}

/// The size of the last layer, which the readout reads.
pub fn spike_dim(layers: &[usize]) -> (r: usize)
    ensures
        r == if layers@.len() == 0 {
            DEFAULT_SPIKE_DIM
        } else {
            layers@.last()
        },
{
    if layers.len() == 0 {
        DEFAULT_SPIKE_DIM
    } else {
        layers[layers.len() - 1]
    }
}

/// The spike rates for spike counts.
pub fn spike_rates(counts: &[u32], timesteps: usize) -> (r: Vec<Scalar>)
    ensures
        r@ == rates_of(counts@, timesteps as nat),
{
    let steps: Scalar = Scalar::from_count(timesteps as u64).max(Scalar::one());
    let mut rates: Vec<Scalar> = Vec::new();
    let mut i: usize = 0;
    while i < counts.len()
        invariant
            i <= counts@.len(),
            steps == Scalar::from_count_spec(timesteps as nat).max_spec(unit()),
            rates@ == rates_of(counts@, timesteps as nat).take(i as int),
        decreases counts.len() - i,
    {
        rates.push(Scalar::from_count(counts[i] as u64).over(steps));
        i = i + 1;
        proof {
            assert(rates@ =~= rates_of(counts@, timesteps as nat).take(i as int));
        }
    }
    proof {
        assert(rates@ =~= rates_of(counts@, timesteps as nat));
    }
    rates
}

/// The loss as it is reported.
pub fn reported_loss(logit: Scalar, max_logit: Scalar, ln_sum: Scalar) -> (r: Scalar)
    ensures
        r == loss_of(logit, max_logit, ln_sum),
{
    let loss: Scalar = logit.minus(max_logit).minus(ln_sum).negated();
    Scalar::zero().max(loss).min(Scalar::from_bits(LOSS_LIMIT_BITS))
}

/// A threshold after it was lowered, so that its neuron spikes more readily.
pub fn lowered_threshold(threshold: Scalar) -> (r: Scalar)
    ensures
        r == threshold.times_spec((Scalar { bits: LOWERING_BITS })),
{
    threshold.times(Scalar::from_bits(LOWERING_BITS))
}

impl<N> HybridSpikingClassifier<N> {
    /// The scores of the classes for these spike counts.
    pub open spec fn logits_for(self, counts: Seq<u32>) -> Seq<Scalar> {
        self.readout.logits_of(self.readout.hidden_of(rates_of(counts, self.timesteps as nat)))
    }

    /// A classifier of a network and a readout.
    pub fn new(snn: N, readout: MLPReadout, timesteps: usize) -> (r: HybridSpikingClassifier<N>)
        ensures
            r.snn == snn,
            r.readout == readout,
            r.timesteps == timesteps,
    {
        HybridSpikingClassifier { snn, readout, timesteps }
    }

    /// The scores of the classes for these spike counts.
    pub fn forward(&self, spike_counts: &[u32]) -> (r: Vec<Scalar>)
        requires
            self.readout.readable(),
            spike_counts@.len() == self.readout.n_input,
        ensures
            r@ == self.logits_for(spike_counts@),
    {
        let rates = spike_rates(spike_counts, self.timesteps);
        let (logits, _hidden) = self.readout.forward(rates.as_slice());
        logits
    }

    /// The class with the highest score for these spike counts.
    pub fn classify(&self, spike_counts: &[u32]) -> (r: usize)
        requires
            self.readout.readable(),
            spike_counts@.len() == self.readout.n_input,
            decidable(self.logits_for(spike_counts@)),
        ensures
            is_predicted(self.logits_for(spike_counts@), r as int),
    {
        let logits = self.forward(spike_counts);
        predict(logits.as_slice())
    }

    /// What follows from the spikes that were counted for a sample of the training.
    pub fn observe(&self, spike_counts: &[u32]) -> (r: Observation)
        requires
            self.readout.readable(),
            spike_counts@.len() == self.readout.n_input,
        ensures
            r.spikes@ == rates_of(spike_counts@, self.timesteps as nat),
            r.hidden@ == self.readout.hidden_of(r.spikes@),
            r.logits@ == self.logits_for(spike_counts@),
            r.arguments@ == Seq::new(
                r.logits@.len(),
                |j: int| r.logits@[j].minus_spec(highest_of(r.logits@, r.logits@.len())),
            ),
    {
        let spikes = spike_rates(spike_counts, self.timesteps);
        let (logits, hidden) = self.readout.forward(spikes.as_slice());
        let arguments = softmax_arguments(logits.as_slice());
        Observation { spikes, logits, hidden, arguments }
    }

    /// Steps against the gradient of the loss, and reports the loss. The exponentials are those of
    /// the arguments that were observed; the logarithm is that of the sum of the exponentials.
    pub fn train_step(
        &mut self,
        observation: &Observation,
        exp_logits: &[Scalar],
        ln_sum: Scalar,
        target: u8,
        lr_mlp: Scalar,
    ) -> (r: Scalar)
        requires
            old(self).readout.wf(),
            observation.spikes@.len() == old(self).readout.n_input,
            observation.hidden@.len() == old(self).readout.hidden_size,
            observation.logits@.len() == old(self).readout.n_classes,
            exp_logits@.len() == old(self).readout.n_classes,
            target < old(self).readout.n_classes,
        ensures
            final(self).readout.wf(),
            final(self).snn == old(self).snn,
            final(self).timesteps == old(self).timesteps,
            old(self).readout.stepped(
                final(self).readout,
                observation.spikes@,
                observation.hidden@,
                loss_gradient_of(exp_logits@, target as int),
                lr_mlp,
            ),
            r == loss_of(
                observation.logits@[target as int],
                highest_of(observation.logits@, observation.logits@.len()),
                ln_sum,
            ),
    {
        let logit: Scalar = observation.logits[target as usize];
        let max_logit: Scalar = highest(observation.logits.as_slice());
        let d_output = self.readout.loss_gradient(exp_logits, target as usize);
        proof {
            assert(observation.spikes@.take(self.readout.n_input as int) =~= observation.spikes@);
            assert(observation.hidden@.take(self.readout.hidden_size as int)
                =~= observation.hidden@);
            assert(d_output@.take(self.readout.n_classes as int) =~= d_output@);
        }
        self.readout.backward_and_update(
            observation.spikes.as_slice(),
            observation.hidden.as_slice(),
            d_output.as_slice(),
            lr_mlp,
        );
        reported_loss(logit, max_logit, ln_sum)
    }

    /// Whether these spike counts give this label. If those that are counted for a sample after a
    /// step of the training do, the neurons are to spike more readily.
    pub fn gives_label(&self, spike_counts: &[u32], target: u8) -> (r: bool)
        requires
            self.readout.readable(),
            spike_counts@.len() == self.readout.n_input,
            decidable(self.logits_for(spike_counts@)),
        ensures
            r == is_predicted(self.logits_for(spike_counts@), target as int),
    {
        let class: usize = self.classify(spike_counts);
        proof {
            law_prediction_is_unique(
                self.logits_for(spike_counts@),
                class as int,
                target as int,
            );
        }
        class == target as usize
    }

    /// For how many of the first `n` samples, given by their spike counts, the class with the
    /// highest score is the label.
    pub open spec fn correct_for(self, samples: Seq<Vec<u32>>, labels: Seq<u8>, n: nat) -> nat
        decreases n,
    {
        if n == 0 {
            0
        } else {
            self.correct_for(samples, labels, (n - 1) as nat) + if is_predicted(
                self.logits_for(samples[n - 1]@),
                labels[n - 1] as int,
            ) {
                1nat
            } else {
                0nat
            }
        }
    }

    /// The share of samples, given by their spike counts, for which the class with the highest
    /// score is the label.
    pub fn accuracy(&self, samples: &[Vec<u32>], labels: &[u8]) -> (r: Scalar)
        requires
            self.readout.readable(),
            samples@.len() <= labels@.len(),
            forall|s: int|
                0 <= s < samples@.len() ==> (#[trigger] samples@[s])@.len() == self.readout.n_input
                    && decidable(self.logits_for(samples@[s]@)),
        ensures
            r == Scalar::ratio_spec(
                self.correct_for(samples@, labels@, samples@.len()),
                if samples@.len() == 0 {
                    1
                } else {
                    samples@.len()
                },
            ),
    {
        let mut correct: usize = 0;
        let mut s: usize = 0;
        while s < samples.len()
            invariant
                self.readout.readable(),
                samples@.len() <= labels@.len(),
                forall|s: int|
                    0 <= s < samples@.len() ==> (#[trigger] samples@[s])@.len()
                        == self.readout.n_input && decidable(self.logits_for(samples@[s]@)),
                s <= samples@.len(),
                correct <= s,
                correct == self.correct_for(samples@, labels@, s as nat),
            decreases samples.len() - s,
        {
            if self.gives_label(samples[s].as_slice(), labels[s]) {
                correct = correct + 1;
            }
            s = s + 1;
        }
        let judged: usize = if samples.len() == 0 {
            1
        } else {
            samples.len()
        };
        Scalar::ratio(correct as u64, judged as u64)
    }

    /// The number of parameters, of which the network has so many.
    pub fn param_count(&self, snn_params: usize) -> (r: usize)
        requires
            self.readout.w_hidden@.len() + self.readout.w_output@.len()
                + self.readout.b_hidden@.len() + self.readout.b_output@.len() + snn_params
                <= usize::MAX,
        ensures
            r == self.readout.w_hidden@.len() + self.readout.w_output@.len()
                + self.readout.b_hidden@.len() + self.readout.b_output@.len() + snn_params,
    {
        self.readout.param_count() + snn_params
    }
}

/// The loss that is reported is a number from zero to ten, whatever the scores and the logarithm
/// are.
pub proof fn law_loss_range(logit: Scalar, max_logit: Scalar, ln_sum: Scalar)
    ensures
        !loss_of(logit, max_logit, ln_sum).nan(),
        0 <= loss_of(logit, max_logit, ln_sum).key() <= LOSS_LIMIT_BITS,
{
}

/// A class that is certain to be right has no loss: its score is the highest, and the
/// exponentials add up to one, of which the logarithm is zero.
pub proof fn law_certainty_has_no_loss(logit: Scalar)
    requires
        logit.finite(),
    ensures
        loss_of(logit, logit, nought()) == nought(),
{
}

pub proof fn lemma_count_of_one()
    ensures
        Scalar::from_count_spec(1) == unit(),
{
    let c = Scalar::from_count_spec(1);
    law_small_counts_are_exact(1);
    lemma_one_value();
    if c.mag() < ONE_BITS {
        lemma_magnitude_increases(c.mag(), ONE_BITS as int);
    }
    if c.mag() > ONE_BITS {
        lemma_magnitude_increases(ONE_BITS as int, c.mag());
    }
}

/// A neuron that spikes at most once in each timestep has a rate from zero to one: zero if it
/// never spikes, one if it always does.
pub proof fn law_rate_is_a_share(count: u64, timesteps: u64)
    requires
        count <= timesteps,
        timesteps > 0,
    ensures
        rate_of(count as nat, timesteps as nat) == Scalar::ratio_spec(
            count as nat,
            timesteps as nat,
        ),
        !rate_of(count as nat, timesteps as nat).nan(),
        0 <= rate_of(count as nat, timesteps as nat).key() <= ONE_BITS,
        count == 0 ==> rate_of(count as nat, timesteps as nat).bits == 0,
        count == timesteps ==> rate_of(count as nat, timesteps as nat).bits == ONE_BITS,
{
    law_counts_keep_order(1, timesteps as nat);
    law_counts_keep_order(timesteps as nat, timesteps as nat);
    lemma_count_of_one();
    law_ratio_is_a_share(count, timesteps);
}

} // verus!
