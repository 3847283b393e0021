//! What answering is for: triggers are counted, the best specialist is taken from its threshold
//! on, the core is asked what the user said, and every answer is counted.

use crate::arith_laws::{law_larger_part_has_larger_share, lemma_nearest_form};
use crate::core_llm::{
    CoreGraph, CoreOp, CoreReply, conversation, json_array_text, objects_view, reply_text,
};
use crate::hybrid::{
    DEFAULT_THRESHOLD_BITS, HybridConfig, HybridError, QueryStep, core_counted, dispatched,
    is_core_request, law_specialist_answers_from_threshold, may_score_all, may_score_limited,
    specialist_counted,
};
use crate::ranking::{
    all_numbers, first_highest, first_lowest, is_ranking, last_highest, numbers_between,
};
use crate::rounding::nearest;
use crate::scalar::{ONE_BITS, Scalar, one_units};
use crate::specialist::{
    ClosureSpecialist, KeywordSpecialist, Specialist, is_lower_case_of, trigger_hits,
    trigger_share, triggers_lowered,
};
use crate::stats::{HitCounts, HybridStats, is_entry, mean_of, sum_of_counts};
use crate::text::{all_ascii, ascii_lowered, decimal, has_substring, lowercase, underscored};
use vstd::prelude::*;
use vstd::set_lib::set_int_range;

verus! {

/// The positions of the triggers that stand in a text.
pub open spec fn matching(triggers: Seq<String>, text: Seq<char>) -> Set<int> {
    set_int_range(0, triggers.len() as int).filter(|i: int| has_substring(text, triggers[i]@))
}

proof fn lemma_hits_are_matches(triggers: Seq<String>, text: Seq<char>, n: nat)
    requires
        n <= triggers.len(),
    ensures
        ({
            let found = set_int_range(0, n as int).filter(
                |i: int| has_substring(text, triggers[i]@),
            );
            found.finite() && trigger_hits(triggers, text, n) == found.len()
        }),
    decreases n,
{
    let found = set_int_range(0, n as int).filter(|i: int| has_substring(text, triggers[i]@));
    vstd::set_lib::lemma_int_range(0, n as int);
    if n == 0 {
        assert(found =~= Set::empty());
    } else {
        let k = n - 1;
        lemma_hits_are_matches(triggers, text, k as nat);
        let earlier = set_int_range(0, k).filter(|i: int| has_substring(text, triggers[i]@));
        if has_substring(text, triggers[k]@) {
            assert(found =~= earlier.insert(k));
            assert(!earlier.contains(k));
        } else {
            assert(found =~= earlier);
        }
    }
}

/// The score of triggers is the number of those that stand in the text by the number of all of
/// them; zero where there is none.
pub proof fn law_score_is_the_share_of_matches(triggers: Seq<String>, text: Seq<char>)
    ensures
        matching(triggers, text).finite(),
        triggers.len() > 0 ==> trigger_share(triggers, text) == Scalar::ratio_spec(
            matching(triggers, text).len(),
            triggers.len(),
        ),
        triggers.len() == 0 ==> trigger_share(triggers, text).bits == 0,
{
    lemma_hits_are_matches(triggers, text, triggers.len());
}

/// A text in which more triggers stand scores higher, for fewer than 2^23 triggers.
pub proof fn law_more_matches_score_higher(triggers: Seq<String>, a: Seq<char>, b: Seq<char>)
    requires
        triggers.len() < 0x80_0000,
        matching(triggers, a).len() < matching(triggers, b).len(),
    ensures
        trigger_share(triggers, a).lt_spec(trigger_share(triggers, b)),
{
    law_score_is_the_share_of_matches(triggers, a);
    law_score_is_the_share_of_matches(triggers, b);
    vstd::set_lib::lemma_int_range(0, triggers.len() as int);
    vstd::set_lib::lemma_len_subset(
        matching(triggers, b),
        set_int_range(0, triggers.len() as int),
    );
    law_larger_part_has_larger_share(
        matching(triggers, a).len(),
        matching(triggers, b).len(),
        triggers.len(),
    );
}

/// A specialist with trigger words gives a request the share of its triggers that stand in the
/// request in lower case, and answers with its function of the request as it was made.
pub proof fn law_keyword_specialist_counts_its_triggers<F>(
    specialist: KeywordSpecialist<F>,
    input: &str,
    score: Scalar,
    answer: String,
) where F: Fn(&str) -> String + Send + Sync
    requires
        specialist.may_score(input, score),
        specialist.may_answer(input, answer),
    ensures
        specialist.triggers().len() > 0 ==> score == Scalar::ratio_spec(
            matching(specialist.triggers(), lowercase(input@)).len(),
            specialist.triggers().len(),
        ),
        specialist.triggers().len() == 0 ==> score.bits == 0,
        call_ensures(specialist.response_fn(), (input,), answer),
{
    law_score_is_the_share_of_matches(specialist.triggers(), lowercase(input@));
}

/// Every specialist is heard once, and its score is only limited: one that lies between zero and
/// one is taken as it is.
pub proof fn law_every_specialist_is_heard<S: Specialist>(
    specialists: Seq<S>,
    input: &str,
    scores: Seq<Scalar>,
    i: int,
) -> (raw: Scalar)
    requires
        may_score_all(specialists, input, scores),
        0 <= i < specialists.len(),
    ensures
        scores.len() == specialists.len(),
        specialists[i].may_score(input, raw),
        !raw.nan() && 0 <= raw.key() <= ONE_BITS ==> scores[i] == raw,
        !raw.nan() && raw.key() < 0 ==> scores[i].bits == 0,
        !raw.nan() && raw.key() > ONE_BITS ==> scores[i].bits == ONE_BITS,
        raw.nan() ==> scores[i].nan(),
{
    assert(may_score_limited(specialists[i], input, scores[i]));
    choose|raw: Scalar| #[trigger]
        specialists[i].may_score(input, raw) && scores[i] == raw.clamp_unit_spec()
}

/// What is not a number never holds its place against a later score: the first highest stands
/// behind the last one of that kind, or is that one itself where nothing comes after it. Among the
/// scores after it, none is higher, and every earlier one is lower.
pub proof fn law_first_highest_of_any(scores: Seq<Scalar>, k: int, from: int)
    requires
        first_highest(scores, k),
        0 <= from <= scores.len(),
        from > 0 ==> scores[from - 1].nan(),
        forall|j: int| from <= j < scores.len() ==> !(#[trigger] scores[j]).nan(),
    ensures
        from < scores.len() ==> from <= k < scores.len(),
        from == scores.len() ==> k == scores.len() - 1,
        from < scores.len() ==> forall|j: int|
            from <= j < scores.len() ==> (#[trigger] scores[j]).le_spec(scores[k]),
        from < scores.len() ==> forall|j: int|
            from <= j < k ==> (#[trigger] scores[j]).lt_spec(scores[k]),
{
    if from > 0 && k < from - 1 {
        assert(scores[from - 1].le_spec(scores[k]));
    }
    if from < scores.len() {
        if k < from {
            assert(scores[from].le_spec(scores[k]));
        }
        assert forall|j: int| from <= j < k implies (#[trigger] scores[j]).lt_spec(scores[k]) by {
            assert(numbers_between(scores, j, k));
        }
    } else if scores.len() > 0 && k < scores.len() - 1 {
        assert(scores[scores.len() - 1].le_spec(scores[k]));
    }
}

/// The last highest stands behind the last score that is not a number, or is that one itself where
/// nothing comes after it. Among the scores after it, none is higher, and every later one is
/// lower.
pub proof fn law_last_highest_of_any(scores: Seq<Scalar>, k: int, from: int)
    requires
        last_highest(scores, k),
        0 <= from <= scores.len(),
        from > 0 ==> scores[from - 1].nan(),
        forall|j: int| from <= j < scores.len() ==> !(#[trigger] scores[j]).nan(),
    ensures
        from < scores.len() ==> from <= k < scores.len(),
        from == scores.len() ==> k == scores.len() - 1,
        from < scores.len() ==> forall|j: int|
            from <= j < scores.len() ==> (#[trigger] scores[j]).le_spec(scores[k]),
        forall|j: int| k < j < scores.len() ==> (#[trigger] scores[j]).lt_spec(scores[k]),
{
    if from > 0 && k < from - 1 {
        assert(scores[from - 1].lt_spec(scores[k]));
    }
    if from < scores.len() {
        if k < from {
            assert(scores[from].lt_spec(scores[k]));
        }
        assert forall|j: int| from <= j < scores.len() implies (#[trigger] scores[j]).le_spec(
            scores[k],
        ) by {
            assert(!scores[j].nan() && !scores[k].nan());
            if j < k {
                assert(numbers_between(scores, j, k));
            }
        }
    } else if scores.len() > 0 && k < scores.len() - 1 {
        assert(scores[scores.len() - 1].lt_spec(scores[k]));
    }
}

/// The first lowest is not above any number, and below every earlier one; a first score that is
/// not a number is kept.
pub proof fn law_first_lowest_of_any(scores: Seq<Scalar>, k: int)
    requires
        first_lowest(scores, k),
    ensures
        0 <= k < scores.len(),
        scores[0].nan() ==> k == 0,
        !scores[0].nan() ==> !scores[k].nan(),
        !scores[0].nan() ==> forall|j: int|
            0 <= j < scores.len() && !(#[trigger] scores[j]).nan() ==> scores[k].le_spec(scores[j]),
        !scores[0].nan() ==> forall|j: int|
            0 <= j < k && !(#[trigger] scores[j]).nan() ==> scores[k].lt_spec(scores[j]),
{
}

/// A ranking lists each position once; no score stands before a higher one, of equal ones the
/// earlier stands first, and what is not a number stands behind all numbers.
pub proof fn law_ranking_goes_from_the_highest(
    scores: Seq<Scalar>,
    order: Seq<usize>,
    p: int,
    q: int,
)
    requires
        is_ranking(scores, order),
        0 <= p < q < order.len(),
    ensures
        order.len() == scores.len(),
        order[p] != order[q],
        order[p] < scores.len(),
        order[q] < scores.len(),
        !scores[order[p] as int].lt_spec(scores[order[q] as int]),
        scores[order[p] as int].nan() ==> scores[order[q] as int].nan(),
        scores[order[p] as int].nan() && scores[order[q] as int].nan() ==> order[p] < order[q],
        scores[order[p] as int].key() == scores[order[q] as int].key()
            && !scores[order[p] as int].nan() && !scores[order[q] as int].nan() ==> order[p]
            < order[q],
{
    assert(crate::ranking::ranked_before(scores, order[p] as int, order[q] as int));
}

/// A specialist that is asked reaches the threshold and has the best score, which is how sure the
/// answer is; no specialist is as good and came earlier.
pub proof fn law_best_specialist_is_asked(
    config: HybridConfig,
    scores: Seq<Scalar>,
    input: Seq<char>,
    index: usize,
    confidence: Scalar,
)
    requires
        dispatched(
            config,
            scores,
            input,
            Ok(QueryStep::AskSpecialist { index, confidence }),
        ),
    ensures
        index < scores.len(),
        confidence == scores[index as int],
        config.specialist_threshold.le_spec(confidence),
        all_numbers(scores) ==> forall|j: int|
            0 <= j < scores.len() ==> (#[trigger] scores[j]).le_spec(confidence),
        all_numbers(scores) ==> forall|j: int|
            0 <= j < index ==> (#[trigger] scores[j]).lt_spec(confidence),
{
    if all_numbers(scores) {
        law_first_highest_of_any(scores, index as int, 0);
    }
}

/// The core is asked only where it may be and no specialist reaches the threshold; it is told what
/// the user said, and the best score that a specialist had goes along. Nobody is asked only where
/// the core may not be.
pub proof fn law_core_is_the_fallback(
    config: HybridConfig,
    scores: Seq<Scalar>,
    input: Seq<char>,
    step: Result<QueryStep, HybridError>,
)
    requires
        dispatched(config, scores, input, step),
        !(step matches Ok(QueryStep::AskSpecialist { .. })),
        all_numbers(scores),
    ensures
        forall|j: int|
            0 <= j < scores.len() ==> !config.specialist_threshold.le_spec(#[trigger] scores[j]),
        (step matches Ok(QueryStep::AskCore { .. })) <==> config.enable_core_fallback,
        (step matches Err(HybridError::NoHandler)) <==> !config.enable_core_fallback,
        step matches Ok(QueryStep::AskCore { confidence, request }) ==> {
            &&& scores.len() == 0 ==> confidence.bits == 0
            &&& scores.len() > 0 ==> scores.contains(confidence)
            &&& forall|j: int|
                0 <= j < scores.len() ==> (#[trigger] scores[j]).le_spec(confidence)
            &&& is_core_request(config, input, request)
        },
{
    law_specialist_answers_from_threshold(config, scores, input, step);
    if let Ok(QueryStep::AskCore { confidence, request }) = step {
        if scores.len() > 0 {
            let k = choose|k: int| #[trigger] first_highest(scores, k) && confidence == scores[k];
            law_first_highest_of_any(scores, k, 0);
        }
    }
}

/// A request to the core runs the configured model on the conversation: the system prompt first,
/// if there is one, and then what the user said, word for word.
pub proof fn law_core_is_told_what_the_user_said(
    config: HybridConfig,
    input: Seq<char>,
    request: crate::core_llm::CoreRequest,
)
    requires
        is_core_request(config, input, request),
    ensures
        request.graph.asks(config.core_model@),
        config.core_system_prompt is None ==> request.prompt@ == json_array_text(
            seq![seq![("role"@, "user"@), ("content"@, input)]],
        ),
        config.core_system_prompt matches Some(s) ==> request.prompt@ == json_array_text(
            seq![
                seq![("role"@, "system"@), ("content"@, s@)],
                seq![("role"@, "user"@), ("content"@, input)],
            ],
        ),
{
}

/// A conversation ends with what the user says, and begins with what the system is told, if
/// anything.
pub proof fn law_conversation_ends_with_the_user(system: Option<Seq<char>>, user: Seq<char>)
    ensures
        conversation(system, user).last() == seq![("role"@, "user"@), ("content"@, user)],
        system is None ==> conversation(system, user).len() == 1,
        system matches Some(s) ==> conversation(system, user).len() == 2 && conversation(
            system,
            user,
        )[0] == seq![("role"@, "system"@), ("content"@, s)],
{
}

/// A graph that asks a model takes in a prompt, hands it to that model, and gives the answer out;
/// it is named after the model.
pub proof fn law_graph_asks_its_model(graph: CoreGraph, model: Seq<char>)
    requires
        graph.asks(model),
    ensures
        graph.nodes@.len() == 3,
        graph.nodes@[0].op matches CoreOp::Input { name } && name@ == "prompt"@,
        graph.nodes@[1].op matches CoreOp::OllamaChat { model: m } && m@ == model,
        graph.nodes@[2].op matches CoreOp::Output { name } && name@ == "answer"@,
        graph.nodes@[0].inputs == 0 && graph.nodes@[0].outputs == 1,
        graph.nodes@[1].inputs == 1 && graph.nodes@[1].outputs == 1,
        graph.nodes@[2].inputs == 1 && graph.nodes@[2].outputs == 0,
        graph.edges@.len() == 2,
        graph.edges@[0].from_node == 0 && graph.edges@[0].to_node == 1,
        graph.edges@[1].from_node == 1 && graph.edges@[1].to_node == 2,
        graph.edges@[0].from_port == 0 && graph.edges@[0].to_port == 0,
        graph.edges@[1].from_port == 0 && graph.edges@[1].to_port == 0,
        graph.name@ == "hybrid_core_"@ + underscored(model),
{
}

/// An answer of the core is passed on word for word; only where there is none does the standing
/// text take its place.
pub proof fn law_reply_is_passed_on(reply: CoreReply)
    ensures
        reply.answer matches Some(text) ==> reply_text(reply) == text@,
        reply.answer is None ==> reply_text(reply) == "<empty core response>"@,
{
}

/// A mean latency times the number of answers is the total, but for what is left below one more.
pub proof fn law_mean_latency(total: u64, hits: u64)
    ensures
        hits == 0 ==> mean_of(total, hits) == 0,
        hits > 0 ==> mean_of(total, hits) * hits <= total < (mean_of(total, hits) + 1) * hits,
{
    if hits > 0 {
        let (t, h) = (total as int, hits as int);
        vstd::arithmetic::div_mod::lemma_fundamental_div_mod(t, h);
        let q = t / h;
        assert(h * q == q * h) by (nonlinear_arith);
        assert((q + 1) * h == q * h + h) by (nonlinear_arith);
        assert(0 <= t % h < h) by (nonlinear_arith)
            requires
                h > 0,
        ;
    }
}

/// Every answer adds its latency to that of its tier, and to no other.
pub proof fn law_latency_is_added_up(
    before: HybridStats,
    name: Seq<char>,
    latency_ms: u64,
    after: HybridStats,
)
    ensures
        specialist_counted(before, name, latency_ms, after) ==> {
            &&& before.total_specialist_latency_ms + latency_ms <= u64::MAX
                ==> after.total_specialist_latency_ms == before.total_specialist_latency_ms
                + latency_ms
            &&& before.total_specialist_latency_ms + latency_ms > u64::MAX
                ==> after.total_specialist_latency_ms == before.total_specialist_latency_ms
                + latency_ms - 0x1_0000_0000_0000_0000
            &&& after.total_core_latency_ms == before.total_core_latency_ms
            &&& before.specialist_hits == u64::MAX ==> after.specialist_hits == 0
        },
        core_counted(before, latency_ms, after) ==> {
            &&& before.total_core_latency_ms + latency_ms <= u64::MAX
                ==> after.total_core_latency_ms == before.total_core_latency_ms + latency_ms
            &&& before.total_core_latency_ms + latency_ms > u64::MAX
                ==> after.total_core_latency_ms == before.total_core_latency_ms + latency_ms
                - 0x1_0000_0000_0000_0000
            &&& after.total_specialist_latency_ms == before.total_specialist_latency_ms
            &&& before.core_hits == u64::MAX ==> after.core_hits == 0
        },
{
}

/// The count of a name is the one in its entry, and zero where it has none.
pub proof fn law_counts_are_kept_by_name(counts: HitCounts, name: Seq<char>, i: int)
    requires
        counts.wf(),
    ensures
        0 <= i < counts.entries@.len() && counts.entries@[i].0@ == name ==> counts.count_of(name)
            == counts.entries@[i].1,
        (forall|j: int| 0 <= j < counts.entries@.len() ==> (#[trigger] counts.entries@[j]).0@
            != name) ==> counts.count_of(name) == 0,
{
    if 0 <= i < counts.entries@.len() && counts.entries@[i].0@ == name {
        assert(is_entry(counts.entries@, name, i));
        let c = choose|c: int| is_entry(counts.entries@, name, c);
        assert(is_entry(counts.entries@, name, c));
        if c < i {
            assert(counts.entries@[c].0@ != counts.entries@[i].0@);
        }
        if i < c {
            assert(counts.entries@[i].0@ != counts.entries@[c].0@);
        }
    }
}

/// The sum of all counts takes in every entry once.
pub proof fn law_sum_of_counts(entries: Seq<(String, u64)>, entry: (String, u64))
    ensures
        sum_of_counts(Seq::empty()) == 0,
        sum_of_counts(entries.push(entry)) == sum_of_counts(entries) + entry.1,
{
    assert(entries.push(entry).drop_last() =~= entries);
}

/// The text of an error about sizes or positions names them.
pub proof fn law_errors_name_their_numbers(expected: usize, got: usize, index: usize)
    ensures
        crate::tci::error_text(crate::tci::TciError::SampleDim { expected, got })
            == "route_and_predict: expected sample dim "@ + decimal(expected as nat) + ", got "@
            + decimal(got as nat),
        crate::tci::error_text(crate::tci::TciError::TaskIndex { index })
            == "evaluate_task: invalid task index "@ + decimal(index as nat),
{
}

/// The text of an error that has a cause ends with that cause, word for word.
pub proof fn law_errors_name_their_cause(message: String, cause: crate::tci::TciError)
    ensures
        crate::tci::error_text(crate::tci::TciError::Backend { message }) == message@,
        crate::hybrid::error_text(HybridError::CoreExecution(message))
            == "core LLM graph execution failed: "@ + message@,
        crate::daemon::daemon_error_text(crate::daemon::DaemonError::Learn { cause })
            == "TCI learn_task failed: "@ + crate::tci::error_text(cause),
        crate::daemon::daemon_error_text(crate::daemon::DaemonError::Routing { cause })
            == "Routing failed: "@ + crate::tci::error_text(cause),
        crate::daemon::daemon_error_text(crate::daemon::DaemonError::Offspring { message })
            == message@,
{
}

/// What is done with a request goes by the highest score alone, whatever the others are: its
/// specialist is asked where it reaches the threshold, else the core if it may be, with that score
/// along. Without specialists the score zero goes along.
pub proof fn law_dispatch_goes_by_the_highest(
    config: HybridConfig,
    scores: Seq<Scalar>,
    input: Seq<char>,
    step: Result<QueryStep, HybridError>,
    k: int,
)
    requires
        dispatched(config, scores, input, step),
        scores.len() > 0 ==> first_highest(scores, k),
    ensures
        scores.len() > 0 && config.specialist_threshold.le_spec(scores[k]) ==> (step matches Ok(
            QueryStep::AskSpecialist { index, confidence },
        ) && index == k && confidence == scores[k]),
        scores.len() > 0 && !config.specialist_threshold.le_spec(scores[k])
            && config.enable_core_fallback ==> (step matches Ok(
            QueryStep::AskCore { confidence, request },
        ) && confidence == scores[k] && is_core_request(config, input, request)),
        scores.len() == 0 && config.enable_core_fallback ==> (step matches Ok(
            QueryStep::AskCore { confidence, request },
        ) && confidence.bits == 0 && is_core_request(config, input, request)),
        (scores.len() == 0 || !config.specialist_threshold.le_spec(scores[k]))
            && !config.enable_core_fallback ==> (step matches Err(HybridError::NoHandler)),
{
    if scores.len() > 0 {
        assert forall|j: int| first_highest(scores, j) implies j == k by {
            crate::ranking::law_first_highest_is_unique(scores, j, k);
        }
        assert(crate::hybrid::taken(config, scores, k) <==> config.specialist_threshold.le_spec(
            scores[k],
        ));
    }
}

/// A specialist that is given its score and answer as functions gives what they give; its score is
/// only limited.
pub proof fn law_closure_specialist_asks_its_functions<S, H>(
    specialist: ClosureSpecialist<S, H>,
    input: &str,
    score: Scalar,
    answer: String,
) -> (raw: Scalar) where
    S: Fn(&str) -> Scalar + Send + Sync,
    H: Fn(&str) -> String + Send + Sync,

    requires
        specialist.may_score(input, score),
        specialist.may_answer(input, answer),
    ensures
        call_ensures(specialist.score_fn(), (input,), raw),
        !raw.nan() && 0 <= raw.key() <= ONE_BITS ==> score == raw,
        !raw.nan() && raw.key() < 0 ==> score.bits == 0,
        !raw.nan() && raw.key() > ONE_BITS ==> score.bits == ONE_BITS,
        raw.nan() ==> score.nan(),
        call_ensures(specialist.handle_fn(), (input,), answer),
{
    choose|raw: Scalar| #[trigger]
        call_ensures(specialist.score_fn(), (input,), raw) && score == raw.clamp_unit_spec()
}

/// Messages are handed on one by one, each with its fields in their order.
pub proof fn law_messages_keep_their_order(
    objects: Seq<Vec<(String, String)>>,
    i: int,
    f: int,
)
    requires
        0 <= i < objects.len(),
        0 <= f < objects[i]@.len(),
    ensures
        objects_view(objects).len() == objects.len(),
        objects_view(objects)[i].len() == objects[i]@.len(),
        objects_view(objects)[i][f].0 == objects[i]@[f].0@,
        objects_view(objects)[i][f].1 == objects[i]@[f].1@,
{
}

/// The threshold that is used where none is set is the number nearest to seven tenths.
pub proof fn law_default_threshold()
    ensures
        nearest(DEFAULT_THRESHOLD_BITS as int, 7 * one_units(), 10),
{
    vstd::arithmetic::power2::lemma2_to64();
    lemma_nearest_form(0xb3_3333, 125, 7, 10);
}

/// Every trigger word is kept, in its place and in lower case.
pub proof fn law_every_trigger_is_kept(words: Seq<&str>, triggers: Seq<String>, i: int)
    requires
        triggers_lowered(words, triggers),
    ensures
        triggers.len() == words.len(),
        0 <= i < words.len() ==> triggers[i]@ == lowercase(words[i]@),
        0 <= i < words.len() && all_ascii(words[i]@) ==> triggers[i]@ == ascii_lowered(words[i]@),
{
    if 0 <= i < words.len() {
        assert(is_lower_case_of(triggers[i]@, words[i]@));
    }
}

} // verus!
