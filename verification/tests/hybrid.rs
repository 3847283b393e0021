use qlang_hybrid::core_llm::{chat_messages, core_graph, core_request, CoreEdge, CoreOp, CoreReply};
use qlang_hybrid::hybrid::{HybridConfig, HybridError, HybridOrganism, QueryStep, Tier};
use qlang_hybrid::scalar::Scalar;
use qlang_hybrid::specialist::{
    share_of_triggers, ClosureSpecialist, KeywordSpecialist, Specialist,
};
use std::sync::Arc;

type Organism = HybridOrganism<Box<dyn Specialist>>;

fn s(x: f32) -> Scalar {
    Scalar::from_bits(x.to_bits())
}

fn f(x: Scalar) -> f32 {
    f32::from_bits(x.to_bits())
}

fn default_config() -> HybridConfig {
    HybridConfig::from_settings(None, None)
}

fn greet_specialist() -> Box<dyn Specialist> {
    Box::new(KeywordSpecialist::new(
        "greeter",
        vec!["hi", "hallo", "hello"],
        |_: &str| "Hi there!".to_string(),
    ))
}

fn math_specialist() -> Box<dyn Specialist> {
    Box::new(ClosureSpecialist::new(
        "math",
        2,
        |i: &str| {
            let has_digit = i.chars().any(|c| c.is_ascii_digit());
            let has_op = i.contains(['+', '-', '*', '/']);
            if has_digit && has_op { s(0.95) } else { s(0.0) }
        },
        |i: &str| format!("math-spec got: {}", i),
    ))
}

fn fixed(name: &str, score: f32, answer: &'static str) -> Box<dyn Specialist> {
    Box::new(ClosureSpecialist::new(
        name,
        1,
        move |_: &str| s(score),
        move |_: &str| answer.to_string(),
    ))
}

#[test]
fn pick_best_returns_highest_score() {
    let mut org: Organism = HybridOrganism::new(default_config());
    org.add_specialist(greet_specialist())
        .add_specialist(math_specialist());
    let (index, score) = org.pick_best("hallo world").unwrap();
    assert_eq!(org.specialist(index).name(), "greeter");
    assert!(f(score) > 0.0);
}

#[test]
fn pick_best_deterministic_on_tie() {
    let mut org: Organism = HybridOrganism::new(default_config());
    let a = fixed("a", 0.5, "A");
    let b = fixed("b", 0.5, "B");
    org.add_specialist(a).add_specialist(b);
    let (index, _) = org.pick_best("anything").unwrap();
    assert_eq!(org.specialist(index).name(), "a");
}

#[test]
fn keyword_score_is_fraction_of_triggers() {
    let k = KeywordSpecialist::new("t", vec!["foo", "bar"], |_: &str| "ok".to_string());
    assert_eq!(f(k.score("foo bar baz")), 1.0);
    assert_eq!(f(k.score("foo only")), 0.5);
    assert_eq!(f(k.score("nope")), 0.0);
}

#[test]
fn specialist_path_fires_when_above_threshold() {
    let mut cfg = default_config();
    cfg.specialist_threshold = s(0.3);
    cfg.enable_core_fallback = false;
    let mut org: Organism = HybridOrganism::new(cfg);
    org.add_specialist(greet_specialist());

    let resp = match org.query("hallo welt").unwrap() {
        QueryStep::AskSpecialist { index, confidence } => {
            let text = org.specialist(index).handle("hallo welt");
            org.specialist_answered(index, confidence, text, 0)
        }
        QueryStep::AskCore { .. } => unreachable!(),
    };
    assert_eq!(resp.tier, Tier::Specialist);
    assert_eq!(resp.handler, "greeter");
    assert_eq!(resp.graph_nodes, 0);
    assert!(f(resp.confidence) > 0.0);
    assert_eq!(resp.text, "Hi there!");

    let snap = org.stats().snapshot();
    assert_eq!(snap.specialist_hits, 1);
    assert_eq!(snap.core_hits, 0);
    assert_eq!(snap.per_specialist.get("greeter"), Some(1));
}

#[test]
fn core_fallback_disabled_yields_error() {
    let mut cfg = default_config();
    cfg.specialist_threshold = s(0.99);
    cfg.enable_core_fallback = false;
    let mut org: Organism = HybridOrganism::new(cfg);
    org.add_specialist(greet_specialist());

    let err = org.query("hi").unwrap_err();
    assert!(matches!(err, HybridError::NoHandler));
}

#[test]
fn default_config_reads_env() {
    let cfg = HybridConfig::from_settings(
        Some("gemma3:27b".to_string()),
        "0.42".parse::<f32>().ok().map(s),
    );
    assert_eq!(cfg.core_model, "gemma3:27b");
    assert!((f(cfg.specialist_threshold) - 0.42).abs() < 1e-6);
}

#[test]
fn threshold_is_clamped() {
    let cfg = HybridConfig::from_settings(None, "5.0".parse::<f32>().ok().map(s));
    assert_eq!(f(cfg.specialist_threshold), 1.0);
    let cfg = HybridConfig::from_settings(None, "-0.5".parse::<f32>().ok().map(s));
    assert_eq!(f(cfg.specialist_threshold), 0.0);
}

#[test]
fn unset_settings_have_defaults() {
    let cfg = default_config();
    assert_eq!(cfg.core_model, "qwen2.5:3b");
    assert_eq!(f(cfg.specialist_threshold), 0.7);
    assert!(cfg.enable_core_fallback);
    assert!(cfg.core_system_prompt.is_none());
}

#[test]
fn triggers_match_in_any_case() {
    let k = KeywordSpecialist::new("t", vec!["FOO", "Straße"], |_: &str| "ok".to_string());
    assert_eq!(f(k.score("a fOo here")), 0.5);
    assert_eq!(f(k.score("FOO STRAßE")), 1.0);
    assert_eq!(k.avg_latency_ms(), 5);
    assert_eq!(k.handle("x"), "ok");
}

#[test]
fn no_triggers_score_zero() {
    let k = KeywordSpecialist::new("t", vec![], |_: &str| "ok".to_string());
    assert_eq!(k.score("anything"), Scalar::zero());
}

#[test]
fn share_of_triggers_is_exact() {
    let triggers: Vec<String> = vec!["a".to_string(), "bc".to_string(), "".to_string()];
    assert_eq!(share_of_triggers(&triggers, "xbcx"), s(2.0 / 3.0));
    assert_eq!(share_of_triggers(&triggers, "abc"), s(1.0));
    assert_eq!(share_of_triggers(&triggers, ""), s(1.0 / 3.0));
    assert_eq!(share_of_triggers(&[], "abc"), s(0.0));
}

#[test]
fn closure_scores_are_limited() {
    let high = ClosureSpecialist::new("h", 7, |_: &str| s(3.5), |i: &str| i.to_string());
    let low = ClosureSpecialist::new("l", 7, |_: &str| s(-3.5), |i: &str| i.to_string());
    assert_eq!(high.score("x"), s(1.0));
    assert_eq!(low.score("x"), s(0.0));
    assert_eq!(high.avg_latency_ms(), 7);
    assert_eq!(high.name(), "h");
    assert_eq!(high.handle("echo"), "echo");
}

#[test]
fn boxed_and_shared_specialists_are_themselves() {
    let boxed: Box<dyn Specialist> = fixed("b", 0.25, "B");
    let shared: Arc<dyn Specialist> = Arc::new(ClosureSpecialist::new(
        "s",
        3,
        |_: &str| s(0.75),
        |_: &str| "S".to_string(),
    ));
    assert_eq!((boxed.name(), f(boxed.score("")), boxed.handle("")), ("b", 0.25, "B".to_string()));
    assert_eq!((shared.name(), f(shared.score(""))), ("s", 0.75));
    assert_eq!(shared.handle(""), "S");
    assert_eq!(boxed.avg_latency_ms(), 1);
    assert_eq!(shared.avg_latency_ms(), 3);
    let mut org: HybridOrganism<Arc<dyn Specialist>> = HybridOrganism::new(default_config());
    org.add_specialist(shared);
    assert_eq!(org.pick_best("x"), Some((0, s(0.75))));
}

#[test]
fn names_keep_the_order_of_registration() {
    let mut org: Organism = HybridOrganism::new(default_config());
    org.add_specialist(math_specialist()).add_specialist(greet_specialist());
    assert_eq!(org.specialist_names(), vec!["math".to_string(), "greeter".to_string()]);
    assert_eq!(org.specialist_count(), 2);
    assert_eq!(org.config().core_model, "qwen2.5:3b");
}

#[test]
fn nobody_to_pick() {
    let org: Organism = HybridOrganism::new(default_config());
    assert_eq!(org.pick_best("x"), None);
}

#[test]
fn order_of_registration_does_not_change_the_winner() {
    let mut one: Organism = HybridOrganism::new(default_config());
    one.add_specialist(fixed("a", 0.2, "A")).add_specialist(fixed("b", 0.8, "B"));
    let mut two: Organism = HybridOrganism::new(default_config());
    two.add_specialist(fixed("b", 0.8, "B")).add_specialist(fixed("a", 0.2, "A"));
    let (i, p) = one.pick_best("x").unwrap();
    let (j, q) = two.pick_best("x").unwrap();
    assert_eq!(one.specialist(i).name(), two.specialist(j).name());
    assert_eq!(p, q);
}

#[test]
fn score_at_threshold_suffices() {
    let mut cfg = default_config();
    cfg.specialist_threshold = s(0.5);
    let org: Organism = HybridOrganism::new(cfg);
    assert!(matches!(
        org.dispatch("x", &[s(0.25), s(0.5)]),
        Ok(QueryStep::AskSpecialist { index: 1, .. })
    ));
    assert!(matches!(org.dispatch("x", &[s(0.25), s(0.49)]), Ok(QueryStep::AskCore { .. })));
}

#[test]
fn core_is_asked_with_the_best_score() {
    let mut cfg = default_config();
    cfg.core_model = "org/model:7b".to_string();
    cfg.core_system_prompt = Some("be brief".to_string());
    let org: Organism = HybridOrganism::new(cfg);
    match org.dispatch("say \"hi\"\n", &[s(0.1), s(0.6), s(0.3)]).unwrap() {
        QueryStep::AskCore { confidence, request } => {
            assert_eq!(confidence, s(0.6));
            assert_eq!(request.graph.name, "hybrid_core_org_model_7b");
            assert_eq!(
                request.prompt,
                "[{\"content\":\"be brief\",\"role\":\"system\"},\
                 {\"content\":\"say \\\"hi\\\"\\n\",\"role\":\"user\"}]"
            );
        }
        QueryStep::AskSpecialist { .. } => unreachable!(),
    }
    match org.dispatch("x", &[]).unwrap() {
        QueryStep::AskCore { confidence, .. } => assert_eq!(confidence, Scalar::zero()),
        QueryStep::AskSpecialist { .. } => unreachable!(),
    }
}

#[test]
fn core_answer_is_counted() {
    let mut cfg = default_config();
    cfg.core_model = "m".to_string();
    let mut org: Organism = HybridOrganism::new(cfg);
    let reply = CoreReply { answer: Some("42".to_string()), nodes_executed: 3 };
    let resp = org.core_answered(s(0.25), Ok(reply), 120).unwrap();
    assert_eq!(resp.text, "42");
    assert_eq!(resp.handler, "core:m");
    assert_eq!(resp.tier, Tier::Core);
    assert_eq!(resp.confidence, s(0.25));
    assert_eq!(resp.latency_ms, 120);
    assert_eq!(resp.graph_nodes, 3);
    let empty = CoreReply { answer: None, nodes_executed: 2 };
    let resp = org.core_answered(s(0.0), Ok(empty), 81).unwrap();
    assert_eq!(resp.text, "<empty core response>");
    let snap = org.stats().snapshot();
    assert_eq!((snap.core_hits, snap.avg_core_latency_ms), (2, 100));
    assert_eq!((snap.specialist_hits, snap.avg_specialist_latency_ms), (0, 0));
}

#[test]
fn failed_core_leaves_the_counters() {
    let mut org: Organism = HybridOrganism::new(default_config());
    let err = org.core_answered(s(0.25), Err("no model".to_string()), 9).unwrap_err();
    assert_eq!(err.message(), "core LLM graph execution failed: no model");
    assert!(matches!(err, HybridError::CoreExecution(_)));
    let snap = org.stats().snapshot();
    assert_eq!((snap.core_hits, snap.specialist_hits), (0, 0));
}

#[test]
fn errors_read_as_sentences() {
    assert_eq!(
        HybridError::NoHandler.message(),
        "no specialist exceeded threshold and core fallback is disabled"
    );
}

#[test]
fn latencies_are_averaged_by_tier() {
    let mut org: Organism = HybridOrganism::new(default_config());
    org.add_specialist(fixed("a", 1.0, "A")).add_specialist(fixed("b", 0.5, "B"));
    assert!(org.can_count(0));
    org.specialist_answered(0, s(1.0), "A".to_string(), 10);
    org.specialist_answered(0, s(1.0), "A".to_string(), 11);
    org.specialist_answered(1, s(0.5), "B".to_string(), 4);
    let snap = org.stats().snapshot();
    assert_eq!(snap.specialist_hits, 3);
    assert_eq!(snap.avg_specialist_latency_ms, 8);
    assert_eq!(snap.per_specialist.get("a"), Some(2));
    assert_eq!(snap.per_specialist.get("b"), Some(1));
    assert_eq!(snap.per_specialist.get("c"), None);
}

#[test]
fn graph_runs_from_prompt_to_answer() {
    let g = core_graph("a/b:c");
    assert_eq!(g.name, "hybrid_core_a_b_c");
    assert_eq!(g.nodes.len(), 3);
    assert!(matches!(&g.nodes[0].op, CoreOp::Input { name } if name == "prompt"));
    assert!(matches!(&g.nodes[1].op, CoreOp::OllamaChat { model } if model == "a/b:c"));
    assert!(matches!(&g.nodes[2].op, CoreOp::Output { name } if name == "answer"));
    assert_eq!(
        g.edges,
        vec![
            CoreEdge { from_node: 0, from_port: 0, to_node: 1, to_port: 0 },
            CoreEdge { from_node: 1, from_port: 0, to_node: 2, to_port: 0 },
        ]
    );
    let ports: Vec<(usize, usize)> = g.nodes.iter().map(|n| (n.inputs, n.outputs)).collect();
    assert_eq!(ports, vec![(0, 1), (1, 1), (1, 0)]);
}

#[test]
fn conversation_starts_with_the_system() {
    let only_user = chat_messages(None, "hello");
    assert_eq!(only_user.len(), 1);
    let both = chat_messages(Some("sys"), "hello");
    let roles: Vec<&str> = both.iter().map(|m| m[0].1.as_str()).collect();
    assert_eq!(roles, vec!["system", "user"]);
    let request = core_request("m", None, "grüß \\ dich");
    let value: serde_json::Value = serde_json::from_str(&request.prompt).unwrap();
    assert_eq!(value[0]["role"], "user");
    assert_eq!(value[0]["content"], "grüß \\ dich");
}

#[test]
fn certainty_always_answers() {
    let cfg = HybridConfig::from_settings(None, Some(s(7.5)));
    let org: Organism = HybridOrganism::new(cfg);
    assert!(matches!(
        org.dispatch("x", &[s(0.5), s(1.0)]),
        Ok(QueryStep::AskSpecialist { index: 1, .. })
    ));
}

#[test]
fn case_of_trigger_letters_does_not_matter() {
    let words = ["Foo", "BAR", "Über", "ΟΔΟΣ x", "AΣ", "aΣb"];
    let others = ["fOO", "bar", "ÜbER", "ΟΔΟΣ X", "aΣ", "AΣB"];
    let a = KeywordSpecialist::new("n", words.to_vec(), |i: &str| i.to_string());
    let b = KeywordSpecialist::new("n", others.to_vec(), |i: &str| i.to_string());
    for x in ["foo", "FOO bar", "Über bar", "ÜBER", "ΟΔΟΣ x AΣ", "aσB", "nothing", ""] {
        assert_eq!(a.score(x), b.score(x));
        assert_eq!(a.handle(x), x);
    }
    assert_eq!(f(a.score("über")), 1.0 / 6.0);
    assert_eq!(a.name(), "n");
}
