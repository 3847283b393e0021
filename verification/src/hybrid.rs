//! The organism: it asks its specialists first, and the core model where none of them is sure.

use crate::core_llm::{
    CoreReply, CoreRequest, conversation, core_request, json_array_text, reply_text,
};
use crate::ranking::{
    all_numbers, first_highest, law_first_highest_is_unique, law_first_highest_of_numbers,
    law_highest_is_independent_of_order, pick_first_highest,
};
use crate::scalar::{ONE_BITS, Scalar};
use crate::specialist::Specialist;
use crate::stats::{HybridStats, wrapping_sum};
use vstd::prelude::*;

verus! {

/// The threshold that is used where none is set: the number nearest to seven tenths.
pub const DEFAULT_THRESHOLD_BITS: u32 = 0x3f33_3333;

/// How the organism answers.
#[derive(Debug, Clone)]
pub struct HybridConfig {
    /// The core model.
    pub core_model: String,
    /// The score from which on a specialist is taken.
    pub specialist_threshold: Scalar,
    /// Whether the core model is asked where no specialist is taken.
    pub enable_core_fallback: bool,
    /// What the core model is told before each request.
    pub core_system_prompt: Option<String>,
}

/// Who has answered.
#[derive(Debug, Clone, Copy, PartialEq, Eq, Structural)]
pub enum Tier {
    Specialist,
    Core,
}

/// An answer.
#[derive(Debug, Clone)]
pub struct HybridResponse {
    pub text: String,
    pub handler: String,
    pub tier: Tier,
    pub confidence: Scalar,
    pub latency_ms: u64,
    /// The number of nodes of the graph that were run; zero where a specialist has answered.
    pub graph_nodes: usize,
}

/// Why there is no answer.
#[derive(Debug)]
pub enum HybridError {
    /// No specialist is sure enough, and the core is not to be asked.
    NoHandler,
    /// The core has failed.
    CoreExecution(String),
}

/// The text of a `HybridError`.
pub open spec fn error_text(e: HybridError) -> Seq<char> {
    match e {
        HybridError::NoHandler => "no specialist exceeded threshold and core fallback is disabled"@,
        HybridError::CoreExecution(reason) => "core LLM graph execution failed: "@ + reason@,
    }
}

impl HybridError {
    /// The error in words.
    pub fn message(&self) -> (r: String)
        ensures
            r@ == error_text(*self),
    {
        match self {
            HybridError::NoHandler => {
                "no specialist exceeded threshold and core fallback is disabled".to_owned()
            },
            HybridError::CoreExecution(reason) => {
                let mut out: String = "core LLM graph execution failed: ".to_owned();
                out.append(reason.as_str());
                out
            },
        }
    }
}

impl HybridConfig {
    /// The configuration for the settings that were found: a core model and a threshold, each
    /// with a default. The threshold is limited to the range from zero to one.
    pub fn from_settings(core_model: Option<String>, threshold: Option<Scalar>) -> (r: HybridConfig)
        ensures
            r.core_model@ == match core_model {
                Some(m) => m@,
                None => "qwen2.5:3b"@,
            },
            r.specialist_threshold == match threshold {
                Some(t) => t.clamp_unit_spec(),
                None => (Scalar { bits: DEFAULT_THRESHOLD_BITS }),
            },
            r.enable_core_fallback,
            r.core_system_prompt is None,
    {
        let core_model: String = match core_model {
            Some(m) => m,
            None => "qwen2.5:3b".to_owned(),
        };
        let chosen: Scalar = match threshold {
            Some(t) => t,
            None => Scalar::from_bits(DEFAULT_THRESHOLD_BITS),
        };
        HybridConfig {
            core_model,
            specialist_threshold: chosen.clamp_unit(),
            enable_core_fallback: true,
            core_system_prompt: None,
        }
    }
}

/// What has to happen next for a request.
#[derive(Debug)]
pub enum QueryStep {
    /// The specialist at this position answers.
    AskSpecialist { index: usize, confidence: Scalar },
    /// The core answers.
    AskCore { confidence: Scalar, request: CoreRequest },
}

/// The organism.
pub struct HybridOrganism<S> {
    config: HybridConfig,
    specialists: Vec<S>,
    stats: HybridStats,
}

/// `scores` are scores, limited to the range from zero to one, that the specialists can give to
/// a request.
pub open spec fn may_score_all<S: Specialist>(
    specialists: Seq<S>,
    input: &str,
    scores: Seq<Scalar>,
) -> bool {
    &&& scores.len() == specialists.len()
    &&& forall|i: int|
        0 <= i < specialists.len() ==> #[trigger] may_score_limited(
            specialists[i],
            input,
            scores[i],
        )
}

/// `score` is a score that the specialist can give, limited to the range from zero to one.
pub open spec fn may_score_limited<S: Specialist>(
    specialist: S,
    input: &str,
    score: Scalar,
) -> bool {
    exists|raw: Scalar| #[trigger]
        specialist.may_score(input, raw) && score == raw.clamp_unit_spec()
}

/// The best of the scores is the one of the specialist at position `k`, and reaches the
/// threshold.
pub open spec fn taken(config: HybridConfig, scores: Seq<Scalar>, k: int) -> bool {
    first_highest(scores, k) && config.specialist_threshold.le_spec(scores[k])
}

/// The best score; zero where there is none.
pub open spec fn is_best_score(scores: Seq<Scalar>, best: Scalar) -> bool {
    if scores.len() == 0 {
        best == (Scalar { bits: 0 })
    } else {
        exists|k: int| #[trigger] first_highest(scores, k) && best == scores[k]
    }
}

/// `request` asks the core about what the user says.
pub open spec fn is_core_request(
    config: HybridConfig,
    input: Seq<char>,
    request: CoreRequest,
) -> bool {
    &&& request.graph.asks(config.core_model@)
    &&& request.prompt@ == json_array_text(
        conversation(
            match config.core_system_prompt {
                Some(s) => Some(s@),
                None => None,
            },
            input,
        ),
    )
}

/// What the organism does with a request for these scores: the best specialist answers where its
/// score reaches the threshold; else the core does, if it may be asked.
pub open spec fn dispatched(
    config: HybridConfig,
    scores: Seq<Scalar>,
    input: Seq<char>,
    step: Result<QueryStep, HybridError>,
) -> bool {
    match step {
        Ok(QueryStep::AskSpecialist { index, confidence }) => taken(config, scores, index as int)
            && confidence == scores[index as int],
        Ok(QueryStep::AskCore { confidence, request }) => {
            &&& forall|k: int| !#[trigger] taken(config, scores, k)
            &&& config.enable_core_fallback
            &&& is_best_score(scores, confidence)
            &&& is_core_request(config, input, request)
        },
        Err(HybridError::NoHandler) => {
            &&& forall|k: int| !#[trigger] taken(config, scores, k)
            &&& !config.enable_core_fallback
        },
        Err(HybridError::CoreExecution(_)) => false,
    }
}

impl<S> HybridOrganism<S> {
    /// The configuration.
    pub closed spec fn settings(self) -> HybridConfig {
        self.config
    }

    /// The specialists, in the order in which they came.
    pub closed spec fn members(self) -> Seq<S> {
        self.specialists@
    }

    /// The counters.
    pub closed spec fn counters(self) -> HybridStats {
        self.stats
    }
}

impl<S: Specialist> HybridOrganism<S> {
    /// Every specialist can be asked, and no name is counted twice.
    pub open spec fn wf(self) -> bool {
        &&& forall|i: int| 0 <= i < self.members().len() ==> (#[trigger] self.members()[i]).ready()
        &&& self.counters().per_specialist_hits.wf()
    }

    /// An organism without specialists.
    pub fn new(config: HybridConfig) -> (r: HybridOrganism<S>)
        ensures
            r.wf(),
            r.settings() == config,
            r.members() == Seq::<S>::empty(),
            r.counters().specialist_hits == 0,
            r.counters().core_hits == 0,
            r.counters().total_specialist_latency_ms == 0,
            r.counters().total_core_latency_ms == 0,
            r.counters().per_specialist_hits@ == Map::<Seq<char>, u64>::empty(),
            r.counters().balanced(),
    {
        HybridOrganism { config, specialists: Vec::new(), stats: HybridStats::default() }
    }

    /// Adds a specialist behind the others.
    pub fn add_specialist(&mut self, s: S) -> (r: &mut HybridOrganism<S>)
        requires
            old(self).wf(),
            s.ready(),
        ensures
            r.wf(),
            r.members() == old(self).members().push(s),
            r.settings() == old(self).settings(),
            r.counters() == old(self).counters(),
            *final(self) == *final(r),
    {
        let ghost before = *self;
        self.specialists.push(s);
        proof {
            assert forall|i: int| 0 <= i < self.members().len() implies (
            #[trigger] self.members()[i]).ready() by {
                if i < before.members().len() {
                    assert(before.members()[i].ready());
                }
            }
        }
        self
    }

    /// The counters.
    pub fn stats(&self) -> (r: &HybridStats)
        ensures
            *r == self.counters(),
    {
        &self.stats
    }

    /// The configuration.
    pub fn config(&self) -> (r: &HybridConfig)
        ensures
            *r == self.settings(),
    {
        &self.config
    }

    /// The number of specialists.
    pub fn specialist_count(&self) -> (r: usize)
        ensures
            r == self.members().len(),
    {
        self.specialists.len()
    }

    /// The specialist at a position.
    pub fn specialist(&self, index: usize) -> (r: &S)
        requires
            index < self.members().len(),
        ensures
            *r == self.members()[index as int],
    {
        &self.specialists[index]
    }

    /// The names of the specialists, in the order in which they came.
    pub fn specialist_names(&self) -> (r: Vec<String>)
        requires
            self.wf(),
        ensures
            r@.len() == self.members().len(),
            forall|i: int|
                0 <= i < self.members().len() ==> (#[trigger] r@[i])@ == self.members()[i].named(),
    {
        let mut names: Vec<String> = Vec::new();
        let mut i: usize = 0;
        while i < self.specialists.len()
            invariant
                self.wf(),
                i <= self.specialists@.len(),
                names@.len() == i,
                forall|j: int| 0 <= j < i ==> (#[trigger] names@[j])@ == self.members()[j].named(),
            decreases self.specialists.len() - i,
        {
            proof {
                assert(self.members()[i as int].ready());
            }
            names.push(self.specialists[i].name().to_owned());
            i = i + 1;
        }
        names
    }

    /// What each specialist gives a request as its score, limited to the range from zero to one.
    pub fn scores(&self, input: &str) -> (r: Vec<Scalar>)
        requires
            self.wf(),
        ensures
            may_score_all(self.members(), input, r@),
    {
        let mut scores: Vec<Scalar> = Vec::new();
        let mut i: usize = 0;
        while i < self.specialists.len()
            invariant
                self.wf(),
                i <= self.specialists@.len(),
                scores@.len() == i,
                forall|j: int|
                    0 <= j < i ==> #[trigger] may_score_limited(
                        self.members()[j],
                        input,
                        scores@[j],
                    ),
            decreases self.specialists.len() - i,
        {
            let ghost member = self.members()[i as int];
            proof {
                assert(member.ready());
            }
            let raw = self.specialists[i].score(input);
            let score = raw.clamp_unit();
            proof {
                assert(member.may_score(input, raw));
                assert(may_score_limited(member, input, score));
            }
            let ghost before = scores@;
            scores.push(score);
            proof {
                assert forall|j: int| 0 <= j <= i implies #[trigger] may_score_limited(
                    self.members()[j],
                    input,
                    scores@[j],
                ) by {
                    if j < i {
                        assert(may_score_limited(self.members()[j], input, before[j]));
                    }
                }
            }
            i = i + 1;
        }
        scores
    }

    /// The specialist with the highest score, and that score. Of several with the same score the
    /// one that came first is taken.
    pub fn pick_best(&self, input: &str) -> (r: Option<(usize, Scalar)>)
        requires
            self.wf(),
        ensures
            r is None <==> self.members().len() == 0,
            r matches Some((k, score)) ==> exists|scores: Seq<Scalar>| #[trigger]
                may_score_all(self.members(), input, scores) && first_highest(scores, k as int)
                    && score == scores[k as int],
    {
        let scores = self.scores(input);
        match pick_first_highest(scores.as_slice()) {
            Some(k) => {
                proof {
                    assert(may_score_all(self.members(), input, scores@));
                }
                Some((k, scores[k]))
            },
            None => None,
        }
    }

    /// What is to be done with a request for which the specialists give these scores.
    pub fn dispatch(&self, input: &str, scores: &[Scalar]) -> (r: Result<QueryStep, HybridError>)
        ensures
            dispatched(self.settings(), scores@, input@, r),
    {
        let best: Option<usize> = pick_first_highest(scores);
        let mut confidence: Scalar = Scalar::zero();
        match best {
            Some(k) => {
                if self.config.specialist_threshold.le(scores[k]) {
                    return Ok(QueryStep::AskSpecialist { index: k, confidence: scores[k] });
                }
                confidence = scores[k];
                proof {
                    assert forall|j: int| !#[trigger] taken(self.settings(), scores@, j) by {
                        if first_highest(scores@, j) {
                            law_first_highest_is_unique(scores@, j, k as int);
                        }
                    }
                }
            },
            None => {},
        }
        if !self.config.enable_core_fallback {
            return Err(HybridError::NoHandler);
        }
        let system_prompt: Option<&str> = match &self.config.core_system_prompt {
            Some(s) => Some(s.as_str()),
            None => None,
        };
        let request = core_request(self.config.core_model.as_str(), system_prompt, input);
        Ok(QueryStep::AskCore { confidence, request })
    }

    /// What is to be done with a request.
    pub fn query(&self, input: &str) -> (r: Result<QueryStep, HybridError>)
        requires
            self.wf(),
        ensures
            exists|scores: Seq<Scalar>| #[trigger]
                may_score_all(self.members(), input, scores) && dispatched(
                    self.settings(),
                    scores,
                    input@,
                    r,
                ),
    {
        let scores = self.scores(input);
        let step = self.dispatch(input, scores.as_slice());
        proof {
            assert(may_score_all(self.members(), input, scores@));
        }
        step
    }

    /// Whether the answers of the specialist at a position can still be counted.
    pub fn can_count(&self, index: usize) -> (r: bool)
        requires
            self.wf(),
            index < self.members().len(),
        ensures
            r == (self.counters().per_specialist_hits.count_of(
                self.members()[index as int].named(),
            ) < u64::MAX),
    {
        proof {
            assert(self.members()[index as int].ready());
        }
        match self.stats.per_specialist_hits.get(self.specialists[index].name()) {
            Some(n) => n < u64::MAX,
            None => true,
        }
    }

    /// The answer of the specialist at a position, which took so long; it is counted.
    pub fn specialist_answered(
        &mut self,
        index: usize,
        confidence: Scalar,
        text: String,
        latency_ms: u64,
    ) -> (r: HybridResponse)
        requires
            old(self).wf(),
            index < old(self).members().len(),
            old(self).counters().per_specialist_hits.count_of(
                old(self).members()[index as int].named(),
            ) < u64::MAX,
        ensures
            final(self).wf(),
            final(self).settings() == old(self).settings(),
            final(self).members() == old(self).members(),
            specialist_counted(
                old(self).counters(),
                old(self).members()[index as int].named(),
                latency_ms,
                final(self).counters(),
            ),
            r.text@ == text@,
            r.handler@ == old(self).members()[index as int].named(),
            r.tier == Tier::Specialist,
            r.confidence == confidence,
            r.latency_ms == latency_ms,
            r.graph_nodes == 0,
    {
        proof {
            assert(self.members()[index as int].ready());
        }
        let handler: String = self.specialists[index].name().to_owned();
        self.stats.record_specialist(handler.as_str(), latency_ms);
        HybridResponse {
            text,
            handler,
            tier: Tier::Specialist,
            confidence,
            latency_ms,
            graph_nodes: 0,
        }
    }

    /// What comes of asking the core: an answer, which took so long and is counted, or the
    /// reason why there is none.
    pub fn core_answered(
        &mut self,
        confidence: Scalar,
        reply: Result<CoreReply, String>,
        latency_ms: u64,
    ) -> (r: Result<HybridResponse, HybridError>)
        requires
            old(self).wf(),
        ensures
            final(self).wf(),
            final(self).settings() == old(self).settings(),
            final(self).members() == old(self).members(),
            match reply {
                Ok(given) => core_counted(
                    old(self).counters(),
                    latency_ms,
                    final(self).counters(),
                ) && (r matches Ok(response) && {
                    &&& response.text@ == reply_text(given)
                    &&& response.handler@ == "core:"@ + old(self).settings().core_model@
                    &&& response.tier == Tier::Core
                    &&& response.confidence == confidence
                    &&& response.latency_ms == latency_ms
                    &&& response.graph_nodes == given.nodes_executed
                }),
                Err(reason) => *final(self) == *old(self) && (r matches Err(
                    HybridError::CoreExecution(text),
                ) && text@ == reason@),
            },
    {
        match reply {
            Ok(given) => {
                self.stats.record_core(latency_ms);
                proof {
                    assert(self.members() == old(self).members());
                    assert(self.wf());
                }
                let mut handler: String = "core:".to_owned();
                handler.append(self.config.core_model.as_str());
                let graph_nodes: usize = given.nodes_executed;
                Ok(
                    HybridResponse {
                        text: given.text(),
                        handler,
                        tier: Tier::Core,
                        confidence,
                        latency_ms,
                        graph_nodes,
                    },
                )
            },
            Err(reason) => Err(HybridError::CoreExecution(reason)),
        }
    }
}

/// The counters after an answer of the specialist of this name.
pub open spec fn specialist_counted(
    before: HybridStats,
    name: Seq<char>,
    latency_ms: u64,
    after: HybridStats,
) -> bool {
    &&& after.specialist_hits == wrapping_sum(before.specialist_hits, 1)
    &&& after.total_specialist_latency_ms == wrapping_sum(
        before.total_specialist_latency_ms,
        latency_ms,
    )
    &&& after.core_hits == before.core_hits
    &&& after.total_core_latency_ms == before.total_core_latency_ms
    &&& after.per_specialist_hits@ == before.per_specialist_hits@.insert(
        name,
        (before.per_specialist_hits.count_of(name) + 1) as u64,
    )
    &&& before.balanced() && before.specialist_hits < u64::MAX ==> after.balanced()
}

/// The counters after an answer of the core.
pub open spec fn core_counted(before: HybridStats, latency_ms: u64, after: HybridStats) -> bool {
    &&& after.core_hits == wrapping_sum(before.core_hits, 1)
    &&& after.total_core_latency_ms == wrapping_sum(before.total_core_latency_ms, latency_ms)
    &&& after.specialist_hits == before.specialist_hits
    &&& after.total_specialist_latency_ms == before.total_specialist_latency_ms
    &&& after.per_specialist_hits == before.per_specialist_hits
}

proof fn lemma_some_highest(scores: Seq<Scalar>) -> (k: int)
    requires
        all_numbers(scores),
        scores.len() > 0,
    ensures
        first_highest(scores, k),
    decreases scores.len(),
{
    if scores.len() == 1 {
        0
    } else {
        let rest = scores.drop_last();
        let last = scores.len() - 1;
        assert(forall|i: int| 0 <= i < last ==> rest[i] == scores[i]);
        let k = lemma_some_highest(rest);
        law_first_highest_of_numbers(rest, k);
        assert(rest[k].le_spec(rest[k]));
        assert(forall|i: int| 0 <= i < last ==> scores[i].le_spec(scores[k])) by {
            assert(forall|i: int| 0 <= i < last ==> rest[i].le_spec(rest[k]));
        }
        if scores[last].le_spec(scores[k]) {
            assert forall|j: int| 0 <= j < k implies (#[trigger] scores[j]).lt_spec(scores[k]) by {
                assert(rest[j].lt_spec(rest[k]));
            }
            k
        } else {
            last
        }
    }
}

/// A specialist answers exactly where the score of one of them reaches the threshold.
pub proof fn law_specialist_answers_from_threshold(
    config: HybridConfig,
    scores: Seq<Scalar>,
    input: Seq<char>,
    step: Result<QueryStep, HybridError>,
)
    requires
        all_numbers(scores),
        dispatched(config, scores, input, step),
    ensures
        (step matches Ok(QueryStep::AskSpecialist { .. })) <==> exists|j: int|
            0 <= j < scores.len() && config.specialist_threshold.le_spec(#[trigger] scores[j]),
{
    if exists|j: int|
        0 <= j < scores.len() && config.specialist_threshold.le_spec(#[trigger] scores[j]) {
        let j = choose|j: int|
            0 <= j < scores.len() && config.specialist_threshold.le_spec(#[trigger] scores[j]);
        let k = lemma_some_highest(scores);
        law_first_highest_of_numbers(scores, k);
        assert(scores[j].le_spec(scores[k]));
        assert(taken(config, scores, k));
    }
}

/// For the same scores the organism always does the same: the same specialist answers, or the
/// core is asked the same, or nobody is.
pub proof fn law_dispatch_is_determined(
    config: HybridConfig,
    scores: Seq<Scalar>,
    input: Seq<char>,
    a: Result<QueryStep, HybridError>,
    b: Result<QueryStep, HybridError>,
)
    requires
        dispatched(config, scores, input, a),
        dispatched(config, scores, input, b),
    ensures
        match (a, b) {
            (
                Ok(QueryStep::AskSpecialist { index: i, confidence: c }),
                Ok(QueryStep::AskSpecialist { index: j, confidence: d }),
            ) => i == j && c == d,
            (
                Ok(QueryStep::AskCore { confidence: c, request: p }),
                Ok(QueryStep::AskCore { confidence: d, request: q }),
            ) => c == d && p.prompt@ == q.prompt@ && p.graph.name@ == q.graph.name@,
            (Err(HybridError::NoHandler), Err(HybridError::NoHandler)) => true,
            _ => false,
        },
{
    assert forall|i: int, j: int|
        #[trigger] first_highest(scores, i) && #[trigger] first_highest(
            scores,
            j,
        ) implies i == j by {
        law_first_highest_is_unique(scores, i, j);
    }
    if let Ok(QueryStep::AskSpecialist { index, .. }) = a {
        assert(taken(config, scores, index as int));
    }
    if let Ok(QueryStep::AskSpecialist { index, .. }) = b {
        assert(taken(config, scores, index as int));
    }
}

/// The order in which specialists were added does not change how sure the one that answers is,
/// nor who is asked: for the same scores, however they are arranged, a specialist answers in
/// both cases or in none, and the best score is as high.
pub proof fn law_order_of_specialists_is_free(
    config: HybridConfig,
    first: Seq<Scalar>,
    second: Seq<Scalar>,
    input: Seq<char>,
    a: Result<QueryStep, HybridError>,
    b: Result<QueryStep, HybridError>,
)
    requires
        all_numbers(first),
        first.to_multiset() == second.to_multiset(),
        dispatched(config, first, input, a),
        dispatched(config, second, input, b),
    ensures
        match (a, b) {
            (
                Ok(QueryStep::AskSpecialist { confidence: c, .. }),
                Ok(QueryStep::AskSpecialist { confidence: d, .. }),
            ) => c.key() == d.key(),
            (
                Ok(QueryStep::AskCore { confidence: c, .. }),
                Ok(QueryStep::AskCore { confidence: d, .. }),
            ) => c.key() == d.key(),
            (Err(HybridError::NoHandler), Err(HybridError::NoHandler)) => true,
            _ => false,
        },
{
    first.to_multiset_ensures();
    second.to_multiset_ensures();
    assert(first.len() == second.len());
    assert(all_numbers(second)) by {
        assert forall|q: int| 0 <= q < second.len() implies !(#[trigger] second[q]).nan() by {
            assert(second.contains(second[q]));
            assert(first.to_multiset().contains(second[q]));
            assert(first.contains(second[q]));
        }
    }
    if first.len() > 0 {
        let j = lemma_some_highest(first);
        let k = lemma_some_highest(second);
        law_highest_is_independent_of_order(first, second, j, k);
        assert(taken(config, first, j) <==> taken(config, second, k));
        assert forall|i: int| first_highest(first, i) implies i == j by {
            law_first_highest_is_unique(first, i, j);
        }
        assert forall|i: int| first_highest(second, i) implies i == k by {
            law_first_highest_is_unique(second, i, k);
        }
    }
}

/// A specialist that is sure for certain always answers: its score of one reaches every threshold
/// that a configuration made from settings can hold.
pub proof fn law_certainty_suffices(
    config: HybridConfig,
    threshold: Scalar,
    scores: Seq<Scalar>,
    input: Seq<char>,
    step: Result<QueryStep, HybridError>,
    j: int,
)
    requires
        !threshold.nan(),
        config.specialist_threshold == threshold.clamp_unit_spec(),
        all_numbers(scores),
        0 <= j < scores.len(),
        scores[j].bits == ONE_BITS,
        dispatched(config, scores, input, step),
    ensures
        step matches Ok(QueryStep::AskSpecialist { .. }),
{
    assert(config.specialist_threshold.le_spec(scores[j]));
    law_specialist_answers_from_threshold(config, scores, input, step);
}

/// Every answer is counted once: in its tier, and, if a specialist gave it, under the name of that
/// specialist and no other.
pub proof fn law_every_answer_is_counted_once(
    before: HybridStats,
    name: Seq<char>,
    latency_ms: u64,
    after: HybridStats,
    other: Seq<char>,
)
    requires
        before.specialist_hits < u64::MAX,
        before.core_hits < u64::MAX,
        before.per_specialist_hits.count_of(name) < u64::MAX,
        other != name,
    ensures
        specialist_counted(before, name, latency_ms, after) ==> {
            &&& after.specialist_hits == before.specialist_hits + 1
            &&& after.core_hits == before.core_hits
            &&& after.per_specialist_hits.count_of(name)
                == before.per_specialist_hits.count_of(name) + 1
            &&& after.per_specialist_hits.count_of(other)
                == before.per_specialist_hits.count_of(other)
        },
        core_counted(before, latency_ms, after) ==> {
            &&& after.core_hits == before.core_hits + 1
            &&& after.specialist_hits == before.specialist_hits
            &&& after.per_specialist_hits.count_of(name)
                == before.per_specialist_hits.count_of(name)
        },
{
}

} // verus!
