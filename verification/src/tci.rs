//! Continual learning over ternary memories: one snapshot of the weights for each task, a
//! consensus over all of them, and the routing of a sample to the task it resembles most.
//!
//! Training, scoring and the comparison of signatures belong to a backend. The engine says what
//! the backend has to work on, and decides on what comes back.

use crate::consensus::{
    build_consensus, consensus_of, law_majority_is_merged, law_no_memory_no_change, merge_memories,
    merged_of, occurrences, votes_at,
};
use crate::evolution::TaskSpecialistPool;
use crate::ranking::{is_ranking, rank_descending};
use crate::scalar::{INFINITY_BITS, SIGN_BIT, Scalar};
use crate::text::{decimal, push_decimal};
use vstd::prelude::*;

verus! {

/// Pattern of minus one, the lowest similarity of two signatures.
pub const MINUS_ONE_BITS: u32 = 0xbf80_0000;

/// How many samples at most a freshly trained brain is judged on.
pub const MAX_EVAL_SAMPLES: usize = 2000;

/// A ternary classifier, as far as the engine reads it: the shape of its input and output, and
/// its weights.
#[derive(Debug, Clone)]
pub struct TernaryBrain {
    pub image_dim: usize,
    pub n_classes: usize,
    pub weights: Vec<i8>,
}

/// A brain of the shape of `template` with the given weights.
pub open spec fn reshaped(template: TernaryBrain, weights: Vec<i8>) -> TernaryBrain {
    TernaryBrain { image_dim: template.image_dim, n_classes: template.n_classes, weights }
}

impl TernaryBrain {
    /// The number of weights.
    pub fn total_weights(&self) -> (r: usize)
        ensures
            r == self.weights@.len(),
    {
        self.weights.len()
    }

    /// A copy of the weights.
    pub fn dump_weights_i8(&self) -> (r: Vec<i8>)
        ensures
            r@ == self.weights@,
    {
        vstd::slice::slice_to_vec(self.weights.as_slice())
    }

    /// A brain of the shape of `template` with the given weights.
    pub fn with_weights(template: &TernaryBrain, weights: Vec<i8>) -> (r: TernaryBrain)
        ensures
            r == reshaped(*template, weights),
    {
        TernaryBrain { image_dim: template.image_dim, n_classes: template.n_classes, weights }
    }

    /// A brain equal to this one.
    pub fn copy(&self) -> (r: TernaryBrain)
        ensures
            r.image_dim == self.image_dim,
            r.n_classes == self.n_classes,
            r.weights@ == self.weights@,
    {
        TernaryBrain {
            image_dim: self.image_dim,
            n_classes: self.n_classes,
            weights: self.dump_weights_i8(),
        }
    }
}

/// What is remembered of a task: its weights, the signature of its samples, and how well it was
/// learned.
#[derive(Debug, Clone)]
pub struct TaskSnapshot<P> {
    pub name: String,
    pub weights: Vec<i8>,
    pub prototype: P,
    pub train_accuracy: Scalar,
}

/// The answer to a routed sample.
#[derive(Debug, Clone)]
pub struct RouteOutcome {
    pub task_index: usize,
    pub task_name: String,
    pub similarity: Scalar,
    pub prediction: u8,
    pub confidence: Scalar,
    pub used_consensus_fallback: bool,
}

/// Why the engine gives no answer.
#[derive(Debug)]
pub enum TciError {
    /// A task without samples cannot be learned.
    NoSamples,
    /// Nothing has been learned that a sample could be routed to.
    NoTasks,
    /// The sample does not have the size that the brain reads.
    SampleDim { expected: usize, got: usize },
    /// There is no task at this position.
    TaskIndex { index: usize },
    /// The backend failed.
    Backend { message: String },
}

/// The text of a `TciError`.
pub open spec fn error_text(e: TciError) -> Seq<char> {
    match e {
        TciError::NoSamples => "learn_task: n_samples must be > 0"@,
        TciError::NoTasks => "route_and_predict: no tasks learned"@,
        TciError::SampleDim { expected, got } => "route_and_predict: expected sample dim "@
            + decimal(expected as nat) + ", got "@ + decimal(got as nat),
        TciError::TaskIndex { index } => "evaluate_task: invalid task index "@ + decimal(
            index as nat,
        ),
        TciError::Backend { message } => message@,
    }
}

impl TciError {
    /// The error in words.
    pub fn message(&self) -> (r: String)
        ensures
            r@ == error_text(*self),
    {
        match self {
            TciError::NoSamples => "learn_task: n_samples must be > 0".to_owned(),
            TciError::NoTasks => "route_and_predict: no tasks learned".to_owned(),
            TciError::SampleDim { expected, got } => {
                let mut out: String = "route_and_predict: expected sample dim ".to_owned();
                push_decimal(&mut out, *expected as u64);
                out.append(", got ");
                push_decimal(&mut out, *got as u64);
                out
            },
            TciError::TaskIndex { index } => {
                let mut out: String = "evaluate_task: invalid task index ".to_owned();
                push_decimal(&mut out, *index as u64);
                out
            },
            TciError::Backend { message } => message.clone(),
        }
    }
}

/// What the backend has to do to train a task: start from these weights, refine them for so many
/// rounds, and judge the result on so many samples.
#[derive(Debug)]
pub struct TrainingPlan {
    pub weights: Vec<i8>,
    pub rounds: usize,
    pub eval_samples: usize,
}

/// What the backend made of a training plan.
#[derive(Debug)]
pub struct TrainedTask<P> {
    pub weights: Vec<i8>,
    pub prototype: P,
    pub accuracy: Scalar,
}

/// The task that a sample resembles most.
#[derive(Clone, Copy, Debug)]
pub struct Route {
    pub task_index: usize,
    pub similarity: Scalar,
}

/// What follows after the routed task has scored the classes.
#[derive(Debug)]
pub enum RouteStep {
    /// The answer.
    Done { outcome: RouteOutcome },
    /// The consensus weights have to score the classes instead.
    ScoreConsensus,
}

/// The similarity is a number above negative infinity.
pub open spec fn above_nothing(s: Scalar) -> bool {
    !s.nan() && s.key() > -(INFINITY_BITS as int)
}

/// The highest similarity wins, the first of several equal ones; what is not a number is passed
/// over. Where nothing is above negative infinity, the first task is named with that similarity.
pub open spec fn most_similar(similarities: Seq<Scalar>, route: Route) -> bool {
    let k = route.task_index as int;
    if exists|j: int| 0 <= j < similarities.len() && above_nothing(#[trigger] similarities[j]) {
        &&& 0 <= k < similarities.len()
        &&& above_nothing(similarities[k])
        &&& route.similarity == similarities[k]
        &&& forall|j: int|
            0 <= j < similarities.len() && !(#[trigger] similarities[j]).nan() ==> if j < k {
                similarities[j].lt_spec(similarities[k])
            } else {
                similarities[j].le_spec(similarities[k])
            }
    } else {
        &&& k == 0
        &&& route.similarity.bits == INFINITY_BITS + SIGN_BIT
    }
}

/// Position `k` holds the highest class score, the first of several equal ones; 0 where there is
/// no class.
pub open spec fn top_class(scores: Seq<i32>, k: int) -> bool {
    if scores.len() == 0 {
        k == 0
    } else {
        &&& 0 <= k < scores.len()
        &&& forall|j: int|
            0 <= j < scores.len() ==> if j < k {
                #[trigger] scores[j] < scores[k]
            } else {
                scores[j] <= scores[k]
            }
    }
}

/// `v` is the highest score of a class other than `k`; the least score where there is none.
pub open spec fn runner_up(scores: Seq<i32>, k: int, v: int) -> bool {
    &&& forall|j: int| 0 <= j < scores.len() && j != k ==> #[trigger] scores[j] <= v
    &&& v == i32::MIN || exists|j: int|
        0 <= j < scores.len() && j != k && #[trigger] scores[j] == v
}

/// The class that scores decide for, the margin of its score over the next one, and the size of
/// its score.
#[derive(Clone, Copy, Debug)]
pub struct ClassDecision {
    pub class: usize,
    pub top: i32,
    pub second: i32,
}

impl ClassDecision {
    /// The decision is the one of these scores.
    pub open spec fn of(self, scores: Seq<i32>) -> bool {
        &&& top_class(scores, self.class as int)
        &&& scores.len() == 0 ==> self.top == i32::MIN
        &&& scores.len() > 0 ==> self.top == scores[self.class as int]
        &&& runner_up(scores, self.class as int, self.second as int)
        &&& self.second <= self.top
    }

    /// The margin over the next class, and the size of the winning score, are 32-bit integers.
    pub open spec fn fits(self) -> bool {
        self.top - self.second <= i32::MAX && self.top > i32::MIN
    }

    /// The margin over the next class, by the size of the winning score (at least one).
    pub open spec fn confidence_spec(self) -> Scalar {
        let size: int = if self.top < 0 {
            -self.top
        } else if self.top == 0 {
            1
        } else {
            self.top as int
        };
        Scalar::ratio_spec((self.top - self.second) as nat, size as nat)
    }

    /// Reads the decision off the class scores.
    pub fn decide(scores: &[i32]) -> (r: ClassDecision)
        ensures
            r.of(scores@),
            r == decision_of(scores@),
    {
        let mut class: usize = 0;
        let mut top: i32 = i32::MIN;
        let mut second: i32 = i32::MIN;
        let mut i: usize = 0;
        while i < scores.len()
            invariant
                i <= scores.len(),
                i == 0 ==> class == 0 && top == i32::MIN && second == i32::MIN,
                i > 0 ==> class < i && top == scores@[class as int],
                second <= top,
                forall|j: int| 0 <= j < class ==> #[trigger] scores@[j] < top,
                forall|j: int| 0 <= j < i ==> #[trigger] scores@[j] <= top,
                forall|j: int| 0 <= j < i && j != class ==> #[trigger] scores@[j] <= second,
                second == i32::MIN || exists|j: int|
                    0 <= j < i && j != class && #[trigger] scores@[j] == second,
            decreases scores.len() - i,
        {
            let s: i32 = scores[i];
            if s > top {
                proof {
                    if i > 0 {
                        assert(scores@[class as int] == top);
                    }
                }
                second = top;
                top = s;
                class = i;
            } else if s > second {
                second = s;
                proof {
                    assert(scores@[i as int] == second);
                }
            }
            i = i + 1;
        }
        let r = ClassDecision { class, top, second };
        proof {
            assert(r.of(scores@));
            law_decision_is_unique(scores@, r, decision_of(scores@));
        }
        r
    }

    /// Whether the margin over the next class, and the size of the winning score, are 32-bit
    /// integers.
    pub fn margin_fits(&self) -> (r: bool)
        ensures
            r == self.fits(),
    {
        self.top as i64 - self.second as i64 <= i32::MAX as i64 && self.top > i32::MIN
    }

    /// The margin over the next class, by the size of the winning score (at least one).
    pub fn confidence(&self) -> (r: Scalar)
        requires
            self.second <= self.top,
            self.fits(),
        ensures
            r == self.confidence_spec(),
    {
        let margin: i32 = self.top - self.second;
        let size: i32 = if self.top < 0 {
            -self.top
        } else if self.top == 0 {
            1
        } else {
            self.top
        };
        Scalar::ratio(margin as u64, size as u64)
    }

    /// The class as a byte; it wraps around after 255.
    pub fn label(&self) -> (r: u8)
        ensures
            r == self.class % 256,
    {
        (self.class % 256) as u8
    }
}

/// The weights of the snapshots, in order.
pub open spec fn memories_of<P>(tasks: Seq<TaskSnapshot<P>>) -> Seq<Seq<i8>> {
    tasks.map_values(|t: TaskSnapshot<P>| t.weights@)
}

/// The engine: a template that gives shape and base weights, the snapshots of the learned tasks,
/// and the consensus over them.
#[derive(Debug, Clone)]
pub struct TciEngine<P> {
    pub template: TernaryBrain,
    pub tasks: Vec<TaskSnapshot<P>>,
    pub consensus: Vec<i8>,
}

impl<P> TciEngine<P> {
    /// Every snapshot has at least as many weights as the template.
    pub open spec fn covered(self) -> bool {
        forall|t: int|
            0 <= t < self.tasks@.len() ==> (#[trigger] self.tasks@[t]).weights@.len()
                >= self.template.weights@.len()
    }

    /// The consensus has as many weights as the template, and every snapshot at least as many.
    pub open spec fn wf(self) -> bool {
        self.consensus@.len() == self.template.weights@.len() && self.covered()
    }

    /// The consensus is the majority vote over the snapshots.
    pub open spec fn agreed(self) -> bool {
        self.consensus@ == consensus_of(self.template.weights@, memories_of(self.tasks@))
    }

    /// Whether every snapshot has at least as many weights as the template.
    pub fn covers_template(&self) -> (r: bool)
        ensures
            r == self.covered(),
    {
        let n: usize = self.template.weights.len();
        let mut t: usize = 0;
        while t < self.tasks.len()
            invariant
                n == self.template.weights@.len(),
                t <= self.tasks@.len(),
                forall|u: int| 0 <= u < t ==> (#[trigger] self.tasks@[u]).weights@.len() >= n,
            decreases self.tasks.len() - t,
        {
            if self.tasks[t].weights.len() < n {
                return false;
            }
            t = t + 1;
        }
        true
    }

    /// Whether the consensus has as many weights as the template, and every snapshot at least as
    /// many.
    pub fn in_order(&self) -> (r: bool)
        ensures
            r == self.wf(),
    {
        self.consensus.len() == self.template.weights.len() && self.covers_template()
    }

    /// A new engine, which has learned nothing: its consensus is the template.
    pub fn new(template: TernaryBrain) -> (r: TciEngine<P>)
        ensures
            r.template == template,
            r.tasks@.len() == 0,
            r.consensus@ == template.weights@,
            r.wf(),
            r.agreed(),
    {
        let consensus = template.dump_weights_i8();
        let r = TciEngine { template, tasks: Vec::new(), consensus };
        proof {
            assert(memories_of(r.tasks@) =~= Seq::empty());
            law_no_memory_no_change(r.template.weights@);
        }
        r
    }

    /// How many tasks have been learned.
    pub fn task_count(&self) -> (r: usize)
        ensures
            r == self.tasks@.len(),
    {
        self.tasks.len()
    }

    /// The names of the learned tasks, in the order in which they were learned.
    pub fn task_names(&self) -> (r: Vec<String>)
        ensures
            r@.len() == self.tasks@.len(),
            forall|i: int| 0 <= i < r@.len() ==> (#[trigger] r@[i])@ == self.tasks@[i].name@,
    {
        let mut out: Vec<String> = Vec::new();
        let mut i: usize = 0;
        while i < self.tasks.len()
            invariant
                i <= self.tasks@.len(),
                out@.len() == i,
                forall|j: int| 0 <= j < i ==> (#[trigger] out@[j])@ == self.tasks@[j].name@,
            decreases self.tasks.len() - i,
        {
            out.push(self.tasks[i].name.clone());
            i = i + 1;
        }
        out
    }

    /// The consensus weights.
    pub fn consensus_weights(&self) -> (r: &[i8])
        ensures
            r@ == self.consensus@,
    {
        self.consensus.as_slice()
    }

    /// What the backend has to train: it starts from the consensus, so that a new task builds on
    /// what was learned before.
    pub fn plan_task(&self, n_samples: usize, n_rounds: usize) -> (r: Result<
        TrainingPlan,
        TciError,
    >)
        ensures
            n_samples == 0 ==> r == Err::<TrainingPlan, TciError>(TciError::NoSamples),
            n_samples > 0 ==> r is Ok,
            r matches Ok(plan) ==> {
                &&& plan.weights@ == self.consensus@
                &&& plan.rounds == if n_rounds == 0 {
                    1
                } else {
                    n_rounds
                }
                &&& plan.eval_samples == if n_samples < MAX_EVAL_SAMPLES {
                    n_samples
                } else {
                    MAX_EVAL_SAMPLES
                }
            },
    {
        if n_samples == 0 {
            return Err(TciError::NoSamples);
        }
        let rounds: usize = if n_rounds == 0 {
            1
        } else {
            n_rounds
        };
        let eval_samples: usize = if n_samples < MAX_EVAL_SAMPLES {
            n_samples
        } else {
            MAX_EVAL_SAMPLES
        };
        Ok(
            TrainingPlan {
                weights: vstd::slice::slice_to_vec(self.consensus.as_slice()),
                rounds,
                eval_samples,
            },
        )
    }

    /// Stores what the backend has trained as a new snapshot and renews the consensus. Earlier
    /// snapshots stay as they are. Where there was nothing to learn from, or the backend failed,
    /// nothing changes.
    pub fn learn_task(
        &mut self,
        name: &str,
        n_samples: usize,
        trained: Result<TrainedTask<P>, String>,
    ) -> (r: Result<Scalar, TciError>)
        requires
            n_samples > 0 && trained is Ok ==> old(self).covered(),
            trained matches Ok(t) ==> t.weights@.len() >= old(self).template.weights@.len(),
        ensures
            r is Ok || old(self).wf() ==> final(self).wf(),
            final(self).template == old(self).template,
            n_samples == 0 ==> r == Err::<Scalar, TciError>(TciError::NoSamples),
            n_samples > 0 ==> (trained matches Err(e) ==> r == Err::<Scalar, TciError>(
                TciError::Backend { message: e },
            )),
            r is Err ==> *final(self) == *old(self),
            n_samples > 0 ==> (trained matches Ok(t) ==> {
                &&& r == Ok::<Scalar, TciError>(t.accuracy)
                &&& final(self).tasks@.len() == old(self).tasks@.len() + 1
                &&& final(self).tasks@.drop_last() == old(self).tasks@
                &&& final(self).tasks@.last().name@ == name@
                &&& final(self).tasks@.last().weights == t.weights
                &&& final(self).tasks@.last().prototype == t.prototype
                &&& final(self).tasks@.last().train_accuracy == t.accuracy
                &&& final(self).agreed()
            }),
    {
        if n_samples == 0 {
            return Err(TciError::NoSamples);
        }
        match trained {
            Err(message) => Err(TciError::Backend { message }),
            Ok(t) => {
                let accuracy = t.accuracy;
                self.tasks.push(
                    TaskSnapshot {
                        name: name.to_owned(),
                        weights: t.weights,
                        prototype: t.prototype,
                        train_accuracy: accuracy,
                    },
                );
                proof {
                    assert(self.tasks@.drop_last() =~= old(self).tasks@);
                }
                let consensus = self.build_consensus();
                self.consensus = consensus;
                Ok(accuracy)
            },
        }
    }

    /// The majority vote over the snapshots; the template where nothing has been learned.
    pub fn build_consensus(&self) -> (r: Vec<i8>)
        requires
            self.covered(),
        ensures
            r@ == consensus_of(self.template.weights@, memories_of(self.tasks@)),
            r@.len() == self.template.weights@.len(),
    {
        let mut memories: Vec<&Vec<i8>> = Vec::new();
        let mut i: usize = 0;
        while i < self.tasks.len()
            invariant
                i <= self.tasks@.len(),
                memories@.len() == i,
                forall|j: int| 0 <= j < i ==> *(#[trigger] memories@[j]) == self.tasks@[j].weights,
            decreases self.tasks.len() - i,
        {
            memories.push(&self.tasks[i].weights);
            i = i + 1;
        }
        proof {
            assert(memories@.map_values(|m: &Vec<i8>| m@) =~= memories_of(self.tasks@));
        }
        build_consensus(self.template.weights.as_slice(), &memories)
    }

    /// The task that a sample resembles most, given how similar it is to each of them.
    pub fn route(&self, sample_len: usize, similarities: &[Scalar]) -> (r: Result<Route, TciError>)
        requires
            self.tasks@.len() > 0 && sample_len == self.template.image_dim ==> similarities@.len()
                == self.tasks@.len(),
        ensures
            self.tasks@.len() == 0 ==> r == Err::<Route, TciError>(TciError::NoTasks),
            self.tasks@.len() > 0 && sample_len != self.template.image_dim ==> r == Err::<
                Route,
                TciError,
            >(TciError::SampleDim { expected: self.template.image_dim, got: sample_len }),
            self.tasks@.len() > 0 && sample_len == self.template.image_dim ==> r is Ok,
            r matches Ok(route) ==> most_similar(similarities@, route) && route.task_index
                < self.tasks@.len(),
    {
        if self.tasks.len() == 0 {
            return Err(TciError::NoTasks);
        }
        if sample_len != self.template.image_dim {
            return Err(
                TciError::SampleDim { expected: self.template.image_dim, got: sample_len },
            );
        }
        let mut task_index: usize = 0;
        let mut similarity = Scalar { bits: INFINITY_BITS + SIGN_BIT };
        let mut i: usize = 0;
        while i < similarities.len()
            invariant
                i <= similarities@.len(),
                similarities@.len() == self.tasks@.len(),
                i == 0 ==> task_index == 0,
                i > 0 ==> task_index < i,
                !similarity.nan(),
                similarity.bits == INFINITY_BITS + SIGN_BIT ==> task_index == 0 && forall|j: int|
                    0 <= j < i ==> !above_nothing(#[trigger] similarities@[j]),
                similarity.bits != INFINITY_BITS + SIGN_BIT ==> {
                    &&& i > 0
                    &&& similarity == similarities@[task_index as int]
                    &&& above_nothing(similarity)
                    &&& forall|j: int|
                        0 <= j < i && !(#[trigger] similarities@[j]).nan() ==> if j < task_index {
                            similarities@[j].lt_spec(similarity)
                        } else {
                            similarities@[j].le_spec(similarity)
                        }
                },
            decreases similarities.len() - i,
        {
            let s: Scalar = similarities[i];
            if similarity.lt(s) {
                similarity = s;
                task_index = i;
            }
            i = i + 1;
        }
        Ok(Route { task_index, similarity })
    }

    /// The answer of the routed task, with thresholds: where the similarity or the confidence is
    /// below its threshold, the consensus has to answer instead.
    pub fn route_and_predict_robust(
        &self,
        route: Route,
        scored: Result<Vec<i32>, String>,
        min_similarity: Scalar,
        min_confidence: Scalar,
    ) -> (r: Result<RouteStep, TciError>)
        requires
            route.task_index < self.tasks@.len(),
            scored matches Ok(scores) ==> scores_fit(scores@),
        ensures
            scored matches Err(e) ==> r == Err::<RouteStep, TciError>(
                TciError::Backend { message: e },
            ),
            scored matches Ok(scores) ==> r is Ok && if doubtful(
                route,
                scores@,
                min_similarity,
                min_confidence,
            ) {
                r->Ok_0 is ScoreConsensus
            } else {
                &&& r->Ok_0 matches RouteStep::Done { outcome }
                &&& outcome.task_index == route.task_index
                &&& outcome.task_name@ == self.tasks@[route.task_index as int].name@
                &&& outcome.similarity == route.similarity
                &&& outcome.prediction == decision_of(scores@).class % 256
                &&& outcome.confidence == decision_of(scores@).confidence_spec()
                &&& !outcome.used_consensus_fallback
            },
    {
        match scored {
            Err(message) => Err(TciError::Backend { message }),
            Ok(scores) => {
                let decision = ClassDecision::decide(scores.as_slice());
                let confidence = decision.confidence();
                if route.similarity.lt(min_similarity) || confidence.lt(min_confidence) {
                    return Ok(RouteStep::ScoreConsensus);
                }
                Ok(
                    RouteStep::Done {
                        outcome: RouteOutcome {
                            task_index: route.task_index,
                            task_name: self.tasks[route.task_index].name.clone(),
                            similarity: route.similarity,
                            prediction: decision.label(),
                            confidence,
                            used_consensus_fallback: false,
                        },
                    },
                )
            },
        }
    }

    /// The answer of the consensus to a doubtful route.
    pub fn consensus_outcome(&self, route: Route, scored: Result<Vec<i32>, String>) -> (r: Result<
        RouteOutcome,
        TciError,
    >)
        requires
            scored matches Ok(scores) ==> scores_fit(scores@),
        ensures
            scored matches Err(e) ==> r == Err::<RouteOutcome, TciError>(
                TciError::Backend { message: e },
            ),
            scored matches Ok(scores) ==> {
                &&& r matches Ok(outcome)
                &&& outcome.task_index == usize::MAX
                &&& outcome.task_name@ == "consensus"@
                &&& outcome.similarity == route.similarity
                &&& outcome.prediction == decision_of(scores@).class % 256
                &&& outcome.confidence == decision_of(scores@).confidence_spec()
                &&& outcome.used_consensus_fallback
            },
    {
        match scored {
            Err(message) => Err(TciError::Backend { message }),
            Ok(scores) => {
                let decision = ClassDecision::decide(scores.as_slice());
                Ok(
                    RouteOutcome {
                        task_index: usize::MAX,
                        task_name: "consensus".to_owned(),
                        similarity: route.similarity,
                        prediction: decision.label(),
                        confidence: decision.confidence(),
                        used_consensus_fallback: true,
                    },
                )
            },
        }
    }

    /// The answer of the routed task, with the lowest thresholds: a similarity of minus one and a
    /// confidence of zero.
    pub fn route_and_predict(&self, route: Route, scored: Result<Vec<i32>, String>) -> (r: Result<
        RouteStep,
        TciError,
    >)
        requires
            route.task_index < self.tasks@.len(),
            scored matches Ok(scores) ==> scores_fit(scores@),
        ensures
            scored matches Err(e) ==> r == Err::<RouteStep, TciError>(
                TciError::Backend { message: e },
            ),
            scored matches Ok(scores) ==> r is Ok && if doubtful(
                route,
                scores@,
                Scalar { bits: MINUS_ONE_BITS },
                Scalar { bits: 0 },
            ) {
                r->Ok_0 is ScoreConsensus
            } else {
                &&& r->Ok_0 matches RouteStep::Done { outcome }
                &&& outcome.task_index == route.task_index
                &&& outcome.task_name@ == self.tasks@[route.task_index as int].name@
                &&& outcome.similarity == route.similarity
                &&& outcome.prediction == decision_of(scores@).class % 256
                &&& outcome.confidence == decision_of(scores@).confidence_spec()
                &&& !outcome.used_consensus_fallback
            },
    {
        self.route_and_predict_robust(
            route,
            scored,
            Scalar { bits: MINUS_ONE_BITS },
            Scalar::zero(),
        )
    }

    /// The position of the first snapshot with the given name.
    fn find_task(&self, name: &str) -> (r: Option<usize>)
        ensures
            r matches Some(t) ==> is_first_named(self.tasks@, name@, t as int),
            r is None ==> forall|t: int|
                0 <= t < self.tasks@.len() ==> (#[trigger] self.tasks@[t]).name@ != name@,
    {
        let wanted: String = name.to_owned();
        let mut t: usize = 0;
        while t < self.tasks.len()
            invariant
                t <= self.tasks@.len(),
                wanted@ == name@,
                forall|u: int| 0 <= u < t ==> (#[trigger] self.tasks@[u]).name@ != name@,
            decreases self.tasks.len() - t,
        {
            if self.tasks[t].name == wanted {
                return Some(t);
            }
            t = t + 1;
        }
        None
    }

    /// Merges the fittest of a population into the snapshot of their task: each of its weights
    /// becomes the most frequent one among the `top_k` fittest, and the consensus becomes the
    /// most frequent weight over all snapshots. An empty population, or a task that was never
    /// learned, changes nothing.
    pub fn merge_best_into_task(
        &mut self,
        pool: &TaskSpecialistPool,
        task_name: &str,
        top_k: usize,
    )
        requires
            pool.wf(),
        ensures
            final(self).template == old(self).template,
            pool.specialists@.len() == 0 ==> *final(self) == *old(self),
            (forall|t: int|
                0 <= t < old(self).tasks@.len() ==> (#[trigger] old(self).tasks@[t]).name@
                    != task_name@) ==> *final(self) == *old(self),
            pool.specialists@.len() > 0 ==> forall|t: int| #[trigger]
                is_first_named(old(self).tasks@, task_name@, t) ==> merged_into(
                    *old(self),
                    *final(self),
                    *pool,
                    t,
                    top_k as nat,
                ),
            old(self).wf() && (pool.specialists@.len() > 0
                ==> pool.specialists@[0].brain.weights@.len()
                == old(self).template.weights@.len()) ==> final(self).wf(),
    {
        if pool.specialists.len() == 0 {
            return;
        }
        let found = self.find_task(task_name);
        match found {
            None => {
                proof {
                    assert forall|t: int| #[trigger]
                        is_first_named(old(self).tasks@, task_name@, t) implies merged_into(
                        *old(self),
                        *self,
                        *pool,
                        t,
                        top_k as nat,
                    ) by {
                        assert(self.tasks@[t].name@ == task_name@);
                    }
                }
            },
            Some(t) => {
                let order = rank_descending(pool.fitness_scores.as_slice());
                let k: usize = if top_k < order.len() {
                    top_k
                } else {
                    order.len()
                };
                let len: usize = pool.specialists[0].brain.weights.len();
                let mut fittest: Vec<&Vec<i8>> = Vec::new();
                let mut p: usize = 0;
                while p < k
                    invariant
                        p <= k <= order@.len(),
                        pool.wf(),
                        is_ranking(pool.fitness_scores@, order@),
                        fittest@.len() == p,
                        forall|q: int|
                            0 <= q < p ==> *(#[trigger] fittest@[q])
                                == pool.specialists@[order@[q] as int].brain.weights,
                    decreases k - p,
                {
                    fittest.push(&pool.specialists[order[p]].brain.weights);
                    p = p + 1;
                }
                let merged = merge_memories(&fittest, len);
                proof {
                    assert(fittest@.map_values(|m: &Vec<i8>| m@) =~= fittest_of(
                        *pool,
                        order@,
                        k as nat,
                    ));
                }
                self.tasks[t].weights = merged;
                let mut memories: Vec<&Vec<i8>> = Vec::new();
                let mut i: usize = 0;
                while i < self.tasks.len()
                    invariant
                        i <= self.tasks@.len(),
                        memories@.len() == i,
                        forall|j: int|
                            0 <= j < i ==> *(#[trigger] memories@[j]) == self.tasks@[j].weights,
                    decreases self.tasks.len() - i,
                {
                    memories.push(&self.tasks[i].weights);
                    i = i + 1;
                }
                proof {
                    assert(memories@.map_values(|m: &Vec<i8>| m@) =~= memories_of(self.tasks@));
                }
                let consensus = merge_memories(&memories, len);
                self.consensus = consensus;
                proof {
                    assert(merged_with(*old(self), *self, *pool, t as int, top_k as nat, order@));
                    assert forall|u: int| #[trigger]
                        is_first_named(old(self).tasks@, task_name@, u) implies merged_into(
                        *old(self),
                        *self,
                        *pool,
                        u,
                        top_k as nat,
                    ) by {
                        assert(u == t);
                    }
                }
            },
        }
    }

    /// The weights of a stored snapshot, which the backend judges on a data set.
    pub fn evaluate_task(&self, task_index: usize) -> (r: Result<&[i8], TciError>)
        ensures
            task_index < self.tasks@.len() ==> (r matches Ok(w) && w@
                == self.tasks@[task_index as int].weights@),
            task_index >= self.tasks@.len() ==> (r matches Err(e) && e == TciError::TaskIndex {
                index: task_index,
            }),
    {
        if task_index < self.tasks.len() {
            Ok(self.tasks[task_index].weights.as_slice())
        } else {
            Err(TciError::TaskIndex { index: task_index })
        }
    }

    /// The consensus weights, which the backend judges on a data set.
    pub fn evaluate_consensus(&self) -> (r: &[i8])
        ensures
            r@ == self.consensus@,
    {
        self.consensus.as_slice()
    }
}

/// Position `t` holds the first snapshot with the given name.
pub open spec fn is_first_named<P>(tasks: Seq<TaskSnapshot<P>>, name: Seq<char>, t: int) -> bool {
    &&& 0 <= t < tasks.len()
    &&& tasks[t].name@ == name
    &&& forall|u: int| 0 <= u < t ==> (#[trigger] tasks[u]).name@ != name
}

/// The weights of the `k` first specialists that `order` lists.
pub open spec fn fittest_of(pool: TaskSpecialistPool, order: Seq<usize>, k: nat) -> Seq<Seq<i8>> {
    Seq::new(k, |p: int| pool.specialists[order[p] as int].brain.weights@)
}

/// Of the engine `before`, `after` differs in the weights of snapshot `t`, which hold the most
/// frequent weight of the first `top_k` specialists in the given order, and in the consensus,
/// which holds the most frequent weight of the snapshots.
pub open spec fn merged_with<P>(
    before: TciEngine<P>,
    after: TciEngine<P>,
    pool: TaskSpecialistPool,
    t: int,
    top_k: nat,
    order: Seq<usize>,
) -> bool {
    let len = pool.specialists@[0].brain.weights@.len();
    let k = if top_k < order.len() {
        top_k
    } else {
        order.len()
    };
    &&& is_ranking(pool.fitness_scores@, order)
    &&& after.tasks@.len() == before.tasks@.len()
    &&& forall|u: int|
        0 <= u < before.tasks@.len() && u != t ==> #[trigger] after.tasks@[u] == before.tasks@[u]
    &&& after.tasks@[t].name == before.tasks@[t].name
    &&& after.tasks@[t].prototype == before.tasks@[t].prototype
    &&& after.tasks@[t].train_accuracy == before.tasks@[t].train_accuracy
    &&& after.tasks@[t].weights@ == merged_of(fittest_of(pool, order, k), len)
    &&& after.consensus@ == merged_of(memories_of(after.tasks@), len)
}

/// The fittest of the population have been merged into snapshot `t`.
pub open spec fn merged_into<P>(
    before: TciEngine<P>,
    after: TciEngine<P>,
    pool: TaskSpecialistPool,
    t: int,
    top_k: nat,
) -> bool {
    exists|order: Seq<usize>| merged_with(before, after, pool, t, top_k, order)
}

/// What most of the merged specialists hold is what the snapshot holds afterwards, and what most
/// of the snapshots then hold is what the consensus holds.
pub proof fn law_merge_follows_the_majority<P>(
    before: TciEngine<P>,
    after: TciEngine<P>,
    pool: TaskSpecialistPool,
    t: int,
    top_k: nat,
    order: Seq<usize>,
    i: int,
    w: i8,
)
    requires
        merged_with(before, after, pool, t, top_k, order),
        0 <= i < pool.specialists@[0].brain.weights@.len(),
    ensures
        ({
            let k = if top_k < order.len() {
                top_k
            } else {
                order.len()
            };
            let votes = votes_at(fittest_of(pool, order, k), i);
            2 * occurrences(votes, w) > votes.len() ==> after.tasks@[t].weights@[i] == w
        }),
        ({
            let votes = votes_at(memories_of(after.tasks@), i);
            2 * occurrences(votes, w) > votes.len() ==> after.consensus@[i] == w
        }),
{
    let len = pool.specialists@[0].brain.weights@.len();
    let k = if top_k < order.len() {
        top_k
    } else {
        order.len()
    };
    let fittest = fittest_of(pool, order, k);
    if 2 * occurrences(votes_at(fittest, i), w) > votes_at(fittest, i).len() {
        law_majority_is_merged(fittest, len, i, w);
    }
    let memories = memories_of(after.tasks@);
    if 2 * occurrences(votes_at(memories, i), w) > votes_at(memories, i).len() {
        law_majority_is_merged(memories, len, i, w);
    }
}

/// The sum of the values at position `k` of the first `n` samples, added one after the other.
pub open spec fn column_sum(images: Seq<Scalar>, image_dim: int, k: int, n: nat) -> Scalar
    decreases n,
{
    if n == 0 {
        Scalar { bits: 0 }
    } else {
        column_sum(images, image_dim, k, (n - 1) as nat).plus_spec(
            images[(n - 1) * image_dim + k],
        )
    }
}

/// The mean of the first `n` samples, position by position.
pub open spec fn mean_sample(images: Seq<Scalar>, image_dim: nat, n: nat) -> Seq<Scalar> {
    Seq::new(
        image_dim,
        |k: int|
            column_sum(images, image_dim as int, k, n).over_spec(
                Scalar::from_count_spec(
                    if n == 0 {
                        1
                    } else {
                        n
                    },
                ),
            ),
    )
}

/// The mean of the first `n_samples` samples, of which the signature of a task is made.
pub fn task_prototype(images: &[Scalar], image_dim: usize, n_samples: usize) -> (r: Vec<Scalar>)
    requires
        n_samples * image_dim <= images@.len(),
    ensures
        r@ == mean_sample(images@, image_dim as nat, n_samples as nat),
{
    let total: usize = images.len();
    let mut mean: Vec<Scalar> = Vec::new();
    let mut k: usize = 0;
    while k < image_dim
        invariant
            k <= image_dim,
            mean@.len() == k,
            forall|j: int| 0 <= j < k ==> (#[trigger] mean@[j]).bits == 0,
        decreases image_dim - k,
    {
        mean.push(Scalar::zero());
        k = k + 1;
    }
    let mut s: usize = 0;
    while s < n_samples
        invariant
            s <= n_samples,
            total == images@.len(),
            n_samples * image_dim <= total,
            mean@.len() == image_dim,
            forall|j: int|
                0 <= j < image_dim ==> #[trigger] mean@[j] == column_sum(
                    images@,
                    image_dim as int,
                    j,
                    s as nat,
                ),
        decreases n_samples - s,
    {
        proof {
            assert(s * image_dim + image_dim <= n_samples * image_dim) by (nonlinear_arith)
                requires
                    s + 1 <= n_samples,
            ;
            assert(0 <= s * image_dim) by (nonlinear_arith);
        }
        let off: usize = s * image_dim;
        let mut k: usize = 0;
        while k < image_dim
            invariant
                k <= image_dim,
                off == s * image_dim,
                total == images@.len(),
                off + image_dim <= total,
                mean@.len() == image_dim,
                forall|j: int|
                    0 <= j < k ==> #[trigger] mean@[j] == column_sum(
                        images@,
                        image_dim as int,
                        j,
                        (s + 1) as nat,
                    ),
                forall|j: int|
                    k <= j < image_dim ==> #[trigger] mean@[j] == column_sum(
                        images@,
                        image_dim as int,
                        j,
                        s as nat,
                    ),
            decreases image_dim - k,
        {
            let sum = mean[k].plus(images[off + k]);
            mean.set(k, sum);
            k = k + 1;
        }
        s = s + 1;
    }
    let count = Scalar::from_count(
        if n_samples == 0 {
            1
        } else {
            n_samples as u64
        },
    );
    let mut k: usize = 0;
    while k < image_dim
        invariant
            k <= image_dim,
            mean@.len() == image_dim,
            count == Scalar::from_count_spec(
                if n_samples == 0 {
                    1
                } else {
                    n_samples as nat
                },
            ),
            forall|j: int|
                0 <= j < k ==> #[trigger] mean@[j] == mean_sample(
                    images@,
                    image_dim as nat,
                    n_samples as nat,
                )[j],
            forall|j: int|
                k <= j < image_dim ==> #[trigger] mean@[j] == column_sum(
                    images@,
                    image_dim as int,
                    j,
                    n_samples as nat,
                ),
        decreases image_dim - k,
    {
        let share = mean[k].over(count);
        mean.set(k, share);
        k = k + 1;
    }
    proof {
        assert(mean@ =~= mean_sample(images@, image_dim as nat, n_samples as nat));
    }
    mean
}

/// The decision of class scores.
pub open spec fn decision_of(scores: Seq<i32>) -> ClassDecision {
    choose|d: ClassDecision| d.of(scores)
}

/// The decision of the scores has a margin and a size that are 32-bit integers.
pub open spec fn scores_fit(scores: Seq<i32>) -> bool {
    decision_of(scores).fits()
}

/// Whether the decision of the scores has a margin and a size that are 32-bit integers.
pub fn margin_fits(scores: &[i32]) -> (r: bool)
    ensures
        r == scores_fit(scores@),
{
    ClassDecision::decide(scores).margin_fits()
}

/// A route is doubtful where its similarity, or the confidence of the class scores, is below its
/// threshold.
pub open spec fn doubtful(
    route: Route,
    scores: Seq<i32>,
    min_similarity: Scalar,
    min_confidence: Scalar,
) -> bool {
    route.similarity.lt_spec(min_similarity) || decision_of(scores).confidence_spec().lt_spec(
        min_confidence,
    )
}

/// Scores lead to one decision only.
pub proof fn law_decision_is_unique(scores: Seq<i32>, a: ClassDecision, b: ClassDecision)
    requires
        a.of(scores),
        b.of(scores),
    ensures
        a == b,
{
}

/// The confidence of a decision is a number and not negative.
pub proof fn law_confidence_is_not_negative(d: ClassDecision)
    requires
        d.second <= d.top,
        d.fits(),
    ensures
        !d.confidence_spec().nan(),
        d.confidence_spec().key() >= 0,
{
    let size: int = if d.top < 0 {
        -d.top
    } else if d.top == 0 {
        1
    } else {
        d.top as int
    };
    crate::counts::law_ratio_keeps_order(0, (d.top - d.second) as u64, size as u64);
    crate::counts::law_ratio_is_a_share(0, size as u64);
}

/// With the lowest thresholds, a route whose similarity is not below minus one is never
/// doubtful: the routed task answers.
pub proof fn law_plain_route_is_not_doubtful(route: Route, scores: Seq<i32>, d: ClassDecision)
    requires
        d.of(scores),
        d.fits(),
        !route.similarity.lt_spec(Scalar { bits: MINUS_ONE_BITS }),
    ensures
        !doubtful(route, scores, Scalar { bits: MINUS_ONE_BITS }, Scalar { bits: 0 }),
{
    law_decision_is_unique(scores, d, decision_of(scores));
    law_confidence_is_not_negative(d);
}

/// Similarities lead to one route only.
pub proof fn law_route_is_unique(similarities: Seq<Scalar>, a: Route, b: Route)
    requires
        most_similar(similarities, a),
        most_similar(similarities, b),
    ensures
        a == b,
{
}

} // verus!
