use qlang_hybrid::daemon::{
    DaemonError, EvolutionRun, EvolutionStep, RunPhase, TciEvolutionDaemon,
};
use qlang_hybrid::evolution::{
    best_score, count_retired, fitness, mean_score, worst_score, TaskSpecialistPool,
    TciEvolutionConfig,
};
use qlang_hybrid::daemon_state::{loaded_daemon, record_of_daemon, PoolRecord};
use qlang_hybrid::persistence::{loaded_engine, saved};
use qlang_hybrid::scalar::Scalar;
use qlang_hybrid::tci::{
    margin_fits, task_prototype, ClassDecision, Route, RouteOutcome, RouteStep, TciEngine,
    TciError, TernaryBrain, TrainedTask,
};

fn s(x: f32) -> Scalar {
    Scalar::from_bits(x.to_bits())
}

fn f(x: Scalar) -> f32 {
    f32::from_bits(x.to_bits())
}

fn all(xs: &[f32]) -> Vec<Scalar> {
    xs.iter().map(|&x| s(x)).collect()
}

/// Images in which each class has a bright block of its own.
struct Data {
    train_images: Vec<f32>,
    train_labels: Vec<u8>,
    test_images: Vec<f32>,
    test_labels: Vec<u8>,
}

fn images(n: usize, shift: usize) -> (Vec<f32>, Vec<u8>) {
    let dim = 784;
    let mut xs = Vec::new();
    let mut ys = Vec::new();
    for i in 0..n {
        let class = (i + shift) % 10;
        for k in 0..dim {
            let noise = ((k * 73 + (i + shift) * 131) % 1000) as f32 / 1000.0;
            let bright = k / 78 == class;
            xs.push((if bright { 0.85 } else { 0.10 }) + noise * 0.15);
        }
        ys.push(class as u8);
    }
    (xs, ys)
}

impl Data {
    fn synthetic(train: usize, test: usize) -> Data {
        let (train_images, train_labels) = images(train, 0);
        let (test_images, test_labels) = images(test, 7);
        Data { train_images, train_labels, test_images, test_labels }
    }
}

/// A backend that gives each class the signs of the difference of its mean and the mean of all.
fn fit(images: &[f32], labels: &[u8], dim: usize, n: usize, classes: usize) -> Vec<i8> {
    let mut sums = vec![0.0f32; classes * dim];
    let mut overall = vec![0.0f32; dim];
    let mut counts = vec![0usize; classes];
    for i in 0..n {
        counts[labels[i] as usize] += 1;
        for k in 0..dim {
            sums[labels[i] as usize * dim + k] += images[i * dim + k];
            overall[k] += images[i * dim + k];
        }
    }
    let mut weights = vec![0i8; classes * dim];
    for c in 0..classes {
        for k in 0..dim {
            let d = sums[c * dim + k] / counts[c].max(1) as f32 - overall[k] / n.max(1) as f32;
            weights[c * dim + k] = if d > 0.1 { 1 } else if d < -0.1 { -1 } else { 0 };
        }
    }
    weights
}

fn class_scores(brain: &TernaryBrain, weights: &[i8], sample: &[f32]) -> Vec<i32> {
    (0..brain.n_classes)
        .map(|c| {
            (0..brain.image_dim)
                .map(|k| weights[c * brain.image_dim + k] as i32 * (sample[k] * 100.0) as i32)
                .sum()
        })
        .collect()
}

fn predictions(brain: &TernaryBrain, weights: &[i8], images: &[f32], n: usize) -> Vec<u8> {
    (0..n)
        .map(|i| {
            let sample = &images[i * brain.image_dim..(i + 1) * brain.image_dim];
            ClassDecision::decide(&class_scores(brain, weights, sample)).label()
        })
        .collect()
}

fn accuracy(brain: &TernaryBrain, weights: &[i8], images: &[f32], labels: &[u8], n: usize) -> f32 {
    f(fitness(&predictions(brain, weights, images, n), labels, n))
}

fn signature(mean: &[f32]) -> Vec<u8> {
    mean.iter().map(|&x| (x > 0.5) as u8).collect()
}

fn similarity(a: &[u8], b: &[u8]) -> Scalar {
    let same = a.iter().zip(b).filter(|(x, y)| x == y).count();
    s(2.0 * same as f32 / a.len() as f32 - 1.0)
}

fn new_template(data: &Data, dim: usize, n: usize, classes: usize) -> TernaryBrain {
    TernaryBrain {
        image_dim: dim,
        n_classes: classes,
        weights: fit(&data.train_images, &data.train_labels, dim, n, classes),
    }
}

type Engine = TciEngine<Vec<u8>>;

fn train(engine: &Engine, images: &[f32], labels: &[u8], n: usize) -> TrainedTask<Vec<u8>> {
    let brain = &engine.template;
    let plan = engine.plan_task(n, 3).unwrap();
    assert_eq!(plan.weights, engine.consensus_weights());
    let weights = fit(images, labels, brain.image_dim, n, brain.n_classes);
    let acc = accuracy(brain, &weights, images, labels, plan.eval_samples);
    let mean: Vec<f32> =
        task_prototype(&all(images), brain.image_dim, n).into_iter().map(f).collect();
    TrainedTask { weights, prototype: signature(&mean), accuracy: s(acc) }
}

fn learn(
    engine: &mut Engine,
    name: &str,
    images: &[f32],
    labels: &[u8],
    n: usize,
) -> Result<f32, TciError> {
    let trained = train(engine, images, labels, n);
    engine.learn_task(name, n, Ok(trained)).map(f)
}

fn similarities(engine: &Engine, sample: &[f32]) -> Vec<Scalar> {
    let sig = signature(sample);
    engine.tasks.iter().map(|t| similarity(&sig, &t.prototype)).collect()
}

fn route_robust(
    engine: &Engine,
    sample: &[f32],
    min_similarity: f32,
    min_confidence: f32,
) -> Result<RouteOutcome, TciError> {
    let route = engine.route(sample.len(), &similarities(engine, sample))?;
    let weights = &engine.tasks[route.task_index].weights;
    let scores = class_scores(&engine.template, weights, sample);
    assert!(margin_fits(&scores));
    let step = engine.route_and_predict_robust(
        route,
        Ok(scores),
        s(min_similarity),
        s(min_confidence),
    )?;
    match step {
        RouteStep::Done { outcome } => Ok(outcome),
        RouteStep::ScoreConsensus => {
            let scores = class_scores(&engine.template, engine.consensus_weights(), sample);
            assert!(margin_fits(&scores));
            engine.consensus_outcome(route, Ok(scores))
        }
    }
}

fn route_plain(engine: &Engine, sample: &[f32]) -> Result<RouteOutcome, TciError> {
    let route = engine.route(sample.len(), &similarities(engine, sample))?;
    let weights = &engine.tasks[route.task_index].weights;
    match engine.route_and_predict(route, Ok(class_scores(&engine.template, weights, sample)))? {
        RouteStep::Done { outcome } => Ok(outcome),
        RouteStep::ScoreConsensus => unreachable!(),
    }
}

#[test]
fn learns_two_tasks_and_routes() {
    let data = Data::synthetic(1200, 200);
    let image_dim = 784;

    let template = new_template(&data, image_dim, 600, 10);
    let mut engine: Engine = TciEngine::new(template);

    let n_a = 500usize;
    let acc_a = learn(
        &mut engine,
        "digits-normal",
        &data.train_images[..n_a * image_dim],
        &data.train_labels[..n_a],
        n_a,
    )
    .unwrap();
    assert!(acc_a >= 0.0);

    let n_b = 500usize;
    let mut inv_images = data.train_images[..n_b * image_dim].to_vec();
    for v in &mut inv_images {
        *v = 1.0 - *v;
    }
    let acc_b =
        learn(&mut engine, "digits-inverted", &inv_images, &data.train_labels[..n_b], n_b).unwrap();
    assert!(acc_b >= 0.0);

    assert_eq!(engine.task_count(), 2);
    assert_eq!(engine.consensus_weights().len(), engine.template.total_weights());

    let sample = &data.test_images[..image_dim];
    let routed = route_plain(&engine, sample).unwrap();
    assert!(routed.task_index < 2);
    assert!(!routed.used_consensus_fallback);
    assert_eq!(routed.prediction, data.test_labels[0]);
    assert_eq!(routed.task_name, "digits-normal");
}

#[test]
fn persistence_roundtrip() {
    let data = Data::synthetic(800, 100);
    let image_dim = 784;

    let template = new_template(&data, image_dim, 500, 10);
    let mut engine: Engine = TciEngine::new(template);
    let _ = learn(
        &mut engine,
        "task-a",
        &data.train_images[..400 * image_dim],
        &data.train_labels[..400],
        400,
    )
    .unwrap();

    let bytes = engine.to_bytes().unwrap();
    let loaded = TciEngine::from_bytes(&bytes).unwrap();

    assert_eq!(loaded.task_count(), 1);
    assert_eq!(loaded.task_names()[0], "task-a");
    assert_eq!(loaded.consensus_weights().len(), engine.consensus_weights().len());
    assert_eq!(loaded.consensus_weights(), engine.consensus_weights());
    assert_eq!(loaded.template.weights, engine.template.weights);
    assert_eq!(loaded.template.image_dim, 784);
    assert_eq!(loaded.template.n_classes, 10);
    assert_eq!(loaded.tasks[0].weights, engine.tasks[0].weights);
    assert_eq!(loaded.tasks[0].prototype, engine.tasks[0].prototype);
    assert_eq!(loaded.tasks[0].train_accuracy, engine.tasks[0].train_accuracy);
    assert!(loaded.in_order());
}

#[test]
fn robust_routing_can_fallback() {
    let data = Data::synthetic(1000, 100);
    let image_dim = 784;

    let template = new_template(&data, image_dim, 600, 10);
    let mut engine: Engine = TciEngine::new(template);
    let _ = learn(
        &mut engine,
        "task-a",
        &data.train_images[..500 * image_dim],
        &data.train_labels[..500],
        500,
    )
    .unwrap();

    let noisy = vec![0.5f32; image_dim];
    let routed = route_robust(&engine, &noisy, 0.95, 0.95).unwrap();
    assert!(routed.used_consensus_fallback);
    assert_eq!(routed.task_name, "consensus");
    assert_eq!(routed.task_index, usize::MAX);
}

#[test]
fn snapshot_retention_after_more_tasks() {
    let data = Data::synthetic(1600, 200);
    let image_dim = 784;

    let template = new_template(&data, image_dim, 900, 10);
    let mut engine: Engine = TciEngine::new(template);

    let n = 500usize;
    let _ = learn(
        &mut engine,
        "normal",
        &data.train_images[..n * image_dim],
        &data.train_labels[..n],
        n,
    )
    .unwrap();

    let eval_n = 150usize;
    let evaluate = |engine: &Engine| {
        let weights = engine.evaluate_task(0).unwrap();
        accuracy(
            &engine.template,
            weights,
            &data.test_images[..eval_n * image_dim],
            &data.test_labels[..eval_n],
            eval_n,
        )
    };
    let before = evaluate(&engine);

    let mut inv = data.train_images[n * image_dim..2 * n * image_dim].to_vec();
    for v in &mut inv {
        *v = 1.0 - *v;
    }
    let _ = learn(&mut engine, "inverted", &inv, &data.train_labels[n..2 * n], n).unwrap();

    let mut contrast = data.train_images[2 * n * image_dim..3 * n * image_dim].to_vec();
    for v in &mut contrast {
        *v = (*v * 1.4).clamp(0.0, 1.0);
    }
    let _ = learn(&mut engine, "contrast", &contrast, &data.train_labels[2 * n..3 * n], n).unwrap();

    let after = evaluate(&engine);
    assert!((before - after).abs() <= 0.02);
    assert!(before > 0.5);
}

fn small_template() -> TernaryBrain {
    TernaryBrain { image_dim: 4, n_classes: 2, weights: vec![1, 0, -1, 0, 1, 0, -1, 0] }
}

fn trained(weights: &[i8]) -> TrainedTask<Vec<u8>> {
    TrainedTask { weights: weights.to_vec(), prototype: vec![1, 2], accuracy: s(0.5) }
}

#[test]
fn consensus_is_renewed_with_each_task() {
    let mut engine: Engine = TciEngine::new(small_template());
    assert_eq!(engine.consensus_weights(), &[1, 0, -1, 0, 1, 0, -1, 0]);
    engine.learn_task("a", 3, Ok(trained(&[1, 1, 1, 1, -1, -1, -1, -1]))).unwrap();
    assert_eq!(engine.consensus_weights(), &[1, 1, 1, 1, -1, -1, -1, -1]);
    engine.learn_task("b", 3, Ok(trained(&[1, -1, 0, 1, 1, 0, 0, -1]))).unwrap();
    assert_eq!(engine.consensus_weights(), &[1, 0, 1, 1, 1, -1, -1, -1]);
    assert_eq!(engine.task_names(), vec!["a".to_string(), "b".to_string()]);
    assert_eq!(engine.evaluate_consensus(), engine.consensus_weights());
}

#[test]
fn plans_are_limited() {
    let engine: Engine = TciEngine::new(small_template());
    let plan = engine.plan_task(5000, 0).unwrap();
    assert_eq!((plan.rounds, plan.eval_samples), (1, 2000));
    let plan = engine.plan_task(1, 7).unwrap();
    assert_eq!((plan.rounds, plan.eval_samples), (7, 1));
}

#[test]
fn nothing_is_learned_without_samples() {
    let mut engine: Engine = TciEngine::new(small_template());
    assert!(matches!(engine.plan_task(0, 1), Err(TciError::NoSamples)));
    let err = engine.learn_task("a", 0, Ok(trained(&[0; 8]))).unwrap_err();
    assert_eq!(err.message(), "learn_task: n_samples must be > 0");
    assert_eq!(engine.task_count(), 0);
}

#[test]
fn failed_training_changes_nothing() {
    let mut engine: Engine = TciEngine::new(small_template());
    let err = engine.learn_task("a", 3, Err("bad weights".to_string())).unwrap_err();
    assert_eq!(err.message(), "bad weights");
    assert_eq!(engine.task_count(), 0);
    assert_eq!(engine.consensus_weights(), &[1, 0, -1, 0, 1, 0, -1, 0]);
}

#[test]
fn samples_are_refused() {
    let mut engine: Engine = TciEngine::new(small_template());
    let err = engine.route(4, &[]).unwrap_err();
    assert_eq!(err.message(), "route_and_predict: no tasks learned");
    engine.learn_task("a", 3, Ok(trained(&[0; 8]))).unwrap();
    let err = engine.route(5, &[s(1.0)]).unwrap_err();
    assert_eq!(err.message(), "route_and_predict: expected sample dim 4, got 5");
    let err = engine.evaluate_task(1).unwrap_err();
    assert_eq!(err.message(), "evaluate_task: invalid task index 1");
    let route = engine.route(4, &[s(0.3)]).unwrap();
    let err = engine.route_and_predict(route, Err("no layer".to_string())).unwrap_err();
    assert_eq!(err.message(), "no layer");
    let err = engine.consensus_outcome(route, Err("no layer".to_string())).unwrap_err();
    assert_eq!(err.message(), "no layer");
}

#[test]
fn most_similar_task_is_routed_to() {
    let mut engine: Engine = TciEngine::new(small_template());
    for name in ["a", "b", "c"] {
        engine.learn_task(name, 3, Ok(trained(&[0; 8]))).unwrap();
    }
    let route = engine.route(4, &all(&[0.1, 0.6, 0.6])).unwrap();
    assert_eq!((route.task_index, f(route.similarity)), (1, 0.6));
    let route = engine.route(4, &all(&[f32::NAN, -0.5, -0.9])).unwrap();
    assert_eq!((route.task_index, f(route.similarity)), (1, -0.5));
    let route = engine.route(4, &all(&[f32::NAN, f32::NEG_INFINITY, f32::NAN])).unwrap();
    assert_eq!((route.task_index, f(route.similarity)), (0, f32::NEG_INFINITY));
}

#[test]
fn doubt_falls_back_to_the_consensus() {
    let mut engine: Engine = TciEngine::new(small_template());
    engine.learn_task("a", 3, Ok(trained(&[0; 8]))).unwrap();
    let route = Route { task_index: 0, similarity: s(0.4) };
    let ask = |similarity: f32, confidence: f32| {
        engine
            .route_and_predict_robust(route, Ok(vec![10, 4]), s(similarity), s(confidence))
            .unwrap()
    };
    assert!(matches!(ask(0.5, 0.0), RouteStep::ScoreConsensus));
    assert!(matches!(ask(0.0, 0.7), RouteStep::ScoreConsensus));
    match ask(0.4, 0.6) {
        RouteStep::Done { outcome } => {
            assert_eq!((outcome.task_index, outcome.task_name.as_str()), (0, "a"));
            assert_eq!((outcome.prediction, f(outcome.confidence)), (0, 0.6));
            assert_eq!(f(outcome.similarity), 0.4);
            assert!(!outcome.used_consensus_fallback);
        }
        RouteStep::ScoreConsensus => unreachable!(),
    }
    let outcome = engine.consensus_outcome(route, Ok(vec![-4, 8])).unwrap();
    assert_eq!((outcome.prediction, f(outcome.confidence)), (1, 1.5));
    assert!(outcome.used_consensus_fallback);
}

#[test]
fn decisions_take_the_first_highest_class() {
    let d = ClassDecision::decide(&[3, 9, 9, -1]);
    assert_eq!((d.class, d.top, d.second), (1, 9, 9));
    assert_eq!(f(d.confidence()), 0.0);
    let d = ClassDecision::decide(&[-5, -3]);
    assert_eq!((d.class, f(d.confidence())), (1, 2.0 / 3.0));
    let d = ClassDecision::decide(&[0, -7]);
    assert_eq!((d.class, f(d.confidence())), (0, 7.0));
    assert!(!margin_fits(&[5]));
    assert!(!margin_fits(&[]));
    assert!(margin_fits(&[-1]));
    assert!(!margin_fits(&[i32::MAX, -1]));
    let many: Vec<i32> = (0..300).collect();
    assert_eq!(ClassDecision::decide(&many).label(), 43);
}

#[test]
fn prototypes_are_means() {
    let xs = all(&[1.0, 2.0, 3.0, 5.0, 0.5, -1.0]);
    let mean: Vec<f32> = task_prototype(&xs, 2, 3).into_iter().map(f).collect();
    assert_eq!(mean, vec![4.5 / 3.0, 6.0 / 3.0]);
    let none: Vec<f32> = task_prototype(&xs, 2, 0).into_iter().map(f).collect();
    assert_eq!(none, vec![0.0, 0.0]);
}

type Daemon = TciEvolutionDaemon<Vec<u8>>;

#[test]
fn test_daemon_save_load() {
    let template = TernaryBrain { image_dim: 784, n_classes: 10, weights: vec![0; 784 * 10] };
    let daemon: Daemon = TciEvolutionDaemon::with_template(template);
    let bytes = daemon.to_bytes().unwrap();
    let reloaded = TciEvolutionDaemon::from_bytes(&bytes).unwrap();
    assert_eq!(reloaded.engine.template.weights.len(), 784 * 10);
    assert!(reloaded.in_order());
}

fn small_daemon() -> Daemon {
    let mut daemon: Daemon = TciEvolutionDaemon::with_template(small_template());
    daemon.config = TciEvolutionConfig {
        pool_size_per_task: 4,
        mutations_per_gen: 2,
        mutation_rate: s(0.02),
        retire_fraction: s(0.5),
        merge_top_k: 3,
        seed: 42,
    };
    daemon
}

/// Predictions that get as many labels right as the number of the specialist.
fn graded(run: &EvolutionRun, labels: &[u8]) -> Vec<Vec<u8>> {
    (0..run.pool.specialists.len())
        .map(|i| {
            labels.iter().enumerate().map(|(j, &l)| if j < i { l } else { l + 1 }).collect()
        })
        .collect()
}

#[test]
fn a_run_goes_through_its_generations() {
    let labels = vec![1u8, 1, 1, 1, 1, 1, 1, 1];
    let learned = [1i8, 1, 1, 1, -1, -1, -1, -1];
    let mut daemon = small_daemon();
    let run = daemon
        .learn_task_with_evolution("t", labels.clone(), 8, 2, Ok(trained(&learned)))
        .unwrap();
    assert_eq!(run.phase, RunPhase::Founders);
    assert_eq!(run.pool.specialists.len(), 4);
    assert_eq!(run.pool.specialists[3].id, "t-spec-000003");
    assert_eq!(run.pool.specialists[3].brain.weights, learned);
    assert!(run.retirement_fits(&daemon.config));

    let predictions = graded(&run, &labels);
    let (run, order) = match daemon.founders_scored(run, &predictions) {
        EvolutionStep::Mutate { run, order } => (run, order),
        EvolutionStep::Finished { .. } => unreachable!(),
    };
    assert_eq!(run.pool.specialists.len(), 2);
    assert_eq!(run.pool.specialists[0].id, "t-spec-000003");
    assert_eq!(run.pool.specialists[1].id, "t-spec-000002");
    assert_eq!(run.pool.fitness_scores, all(&[0.375, 0.25]));
    assert_eq!((order.parent, order.children, order.seed), (0, 2, 42));
    assert_eq!(order.flip_rate, s(0.02));
    assert_eq!(order.weights, learned);

    let child = vec![-1i8, 1, 1, 1, -1, -1, -1, -1];
    let run = daemon.offspring_bred(run, Ok(vec![child.clone(), child.clone()])).unwrap();
    assert_eq!(run.phase, RunPhase::Generation);
    assert_eq!(run.pool.specialists[2].id, "t-gen0-mut0");
    assert_eq!(run.pool.specialists[2].parent_id, Some("t-spec-000003".to_string()));
    assert_eq!(run.pool.specialists[2].generation_born, 1);
    assert_eq!(run.pool.specialists[2].mutations_applied, 1);
    assert_eq!(run.pool.total_mutations, 2);

    let predictions = graded(&run, &labels);
    let (run, order) = match daemon.evolve_generation(run, &predictions, 17) {
        EvolutionStep::Mutate { run, order } => (run, order),
        EvolutionStep::Finished { .. } => unreachable!(),
    };
    assert_eq!(daemon.total_generations, 1);
    let report = &daemon.task_reports("t")[0];
    assert_eq!((report.generation, report.population_size, report.retired), (1, 4, 2));
    assert_eq!((report.mutations_spawned, report.elapsed_ms), (2, 17));
    assert_eq!((f(report.best_fitness), f(report.worst_fitness)), (0.375, 0.0));
    assert_eq!(f(report.avg_fitness), (0.0 + 0.125 + 0.25 + 0.375) / 4.0);
    assert_eq!(report.merged_to_consensus, 0);
    assert_eq!(order.seed, 43);
    assert_eq!(order.weights, child);

    let run = daemon.offspring_bred(run, Ok(vec![child.clone(), child.clone()])).unwrap();
    assert_eq!(run.pool.specialists[2].id, "t-gen1-mut0");
    assert_eq!(run.pool.specialists[2].parent_id, Some("t-gen0-mut0".to_string()));
    let predictions = graded(&run, &labels);
    let at = match daemon.evolve_generation(run, &predictions, 0) {
        EvolutionStep::Finished { pool_index } => pool_index,
        EvolutionStep::Mutate { .. } => unreachable!(),
    };
    assert_eq!(daemon.pools[at].1.task_name, "t");
    assert_eq!(daemon.pools[at].1.generation, 2);
    assert_eq!(daemon.engine.tasks[0].weights, child);
    assert_eq!(daemon.engine.consensus_weights(), child);
    assert_eq!(daemon.task_reports("t").len(), 2);
    assert_eq!(daemon.task_reports("u").len(), 0);

    let status = daemon.status();
    assert!(!status.running);
    assert_eq!((status.total_tasks, status.total_specialists), (1, 4));
    assert_eq!(status.total_generations, 2);
    assert_eq!((status.tasks[0].name.as_str(), status.tasks[0].generation), ("t", 2));
    assert_eq!(f(status.tasks[0].best_fitness), 0.375);
    assert_eq!(f(status.tasks[0].avg_fitness), 0.1875);

    let reloaded = TciEvolutionDaemon::from_bytes(&daemon.to_bytes().unwrap()).unwrap();
    assert_eq!(reloaded.total_generations, 0);
    assert!(!reloaded.running);
    assert_eq!(reloaded.config.pool_size_per_task, 4);
    assert_eq!(reloaded.config.seed, 42);
    assert_eq!(reloaded.pools[0].1.specialists[3].id, daemon.pools[0].1.specialists[3].id);
    assert_eq!(
        reloaded.pools[0].1.specialists[3].parent_id,
        daemon.pools[0].1.specialists[3].parent_id
    );
    assert_eq!(reloaded.pools[0].1.fitness_scores, daemon.pools[0].1.fitness_scores);
    assert_eq!(reloaded.task_reports("t")[1].generation, 2);
    assert_eq!(reloaded.engine.consensus_weights(), daemon.engine.consensus_weights());
    assert!(reloaded.in_order());
}

#[test]
fn a_run_without_rounds_ends_at_once() {
    let mut daemon = small_daemon();
    for _ in 0..2 {
        let run = daemon
            .learn_task_with_evolution("t", vec![0, 1], 2, 0, Ok(trained(&[1; 8])))
            .unwrap();
        let predictions = vec![vec![0u8, 1]; 4];
        let step = daemon.founders_scored(run, &predictions);
        assert!(matches!(step, EvolutionStep::Finished { pool_index: 0 }));
    }
    assert_eq!(daemon.pools.len(), 1);
    assert_eq!(daemon.engine.task_count(), 2);
    assert_eq!(daemon.status().total_tasks, 1);
}

#[test]
fn failed_learning_is_reported() {
    let mut daemon = small_daemon();
    let err = daemon
        .learn_task_with_evolution("t", vec![], 0, 1, Ok(trained(&[1; 8])))
        .unwrap_err();
    assert_eq!(err.message(), "TCI learn_task failed: learn_task: n_samples must be > 0");
    let err = daemon
        .learn_task_with_evolution("t", vec![], 1, 1, Err("broken".to_string()))
        .unwrap_err();
    assert_eq!(err.message(), "TCI learn_task failed: broken");
    assert!(matches!(err, DaemonError::Learn { .. }));
}

#[test]
fn failed_offspring_ends_the_run() {
    let mut daemon = small_daemon();
    let run = daemon
        .learn_task_with_evolution("t", vec![0], 1, 1, Ok(trained(&[1; 8])))
        .unwrap();
    let predictions = vec![vec![0u8]; 4];
    let run = match daemon.founders_scored(run, &predictions) {
        EvolutionStep::Mutate { run, .. } => run,
        EvolutionStep::Finished { .. } => unreachable!(),
    };
    let err = daemon.offspring_bred(run, Err("wrong length".to_string())).unwrap_err();
    assert_eq!(err.message(), "wrong length");
    assert_eq!(daemon.engine.task_count(), 1);
    assert_eq!(daemon.pools.len(), 0);
}

#[test]
fn daemon_routes_with_half_as_threshold() {
    let mut engine: Engine = TciEngine::new(small_template());
    let empty: Daemon = TciEvolutionDaemon::with_template(small_template());
    let err = empty.nearest_task(4, &[]).unwrap_err();
    assert_eq!(err.message(), "Routing failed: route_and_predict: no tasks learned");
    engine.learn_task("a", 3, Ok(trained(&[0; 8]))).unwrap();
    let daemon: Daemon = TciEvolutionDaemon::from_engine(engine);
    let route = daemon.nearest_task(4, &[s(0.5)]).unwrap();
    assert!(matches!(
        daemon.route_sample(route, Ok(vec![4, 2])),
        Ok(RouteStep::Done { .. })
    ));
    assert!(matches!(
        daemon.route_sample(route, Ok(vec![5, 3])),
        Ok(RouteStep::ScoreConsensus)
    ));
    let outcome = daemon.route_sample_by_consensus(route, Ok(vec![1, 7])).unwrap();
    assert_eq!((outcome.prediction, outcome.task_name.as_str()), (1, "consensus"));
    let err = daemon.route_sample(route, Err("x".to_string())).unwrap_err();
    assert_eq!(err.message(), "Routing failed: x");
    let err = daemon.route_sample_by_consensus(route, Err("y".to_string())).unwrap_err();
    assert_eq!(err.message(), "Routing failed: y");
}

#[test]
fn reasons_are_told() {
    let err = saved(Err("too big".to_string()), "tci serialize: ").unwrap_err();
    assert_eq!(err, "tci serialize: too big");
    assert_eq!(saved(Ok(vec![1, 2]), "x"), Ok(vec![1, 2]));
    let err = loaded_engine(Err("no bytes".to_string())).unwrap_err();
    assert_eq!(err, "tci deserialize: no bytes");
    let err = loaded_daemon(Err("no bytes".to_string())).unwrap_err();
    assert_eq!(err, "Deserialization failed: no bytes");
}

#[test]
fn bytes_that_hold_nothing_are_refused() {
    let err = Engine::from_bytes(&[1, 2, 3]).unwrap_err();
    assert!(err.starts_with("tci deserialize: "));
    let err = Daemon::from_bytes(&[1, 2, 3]).unwrap_err();
    assert!(err.starts_with("Deserialization failed: "));
}

#[test]
fn default_evolution() {
    let c = TciEvolutionConfig::default();
    assert_eq!((c.pool_size_per_task, c.mutations_per_gen, c.merge_top_k, c.seed), (20, 5, 3, 42));
    assert_eq!((f(c.mutation_rate), f(c.retire_fraction)), (0.02, 0.3));
}

#[test]
fn fitness_is_a_share_of_hits() {
    assert_eq!(f(fitness(&[1, 2, 3], &[1, 0, 3], 3)), 2.0 / 3.0);
    assert_eq!(f(fitness(&[1, 2, 3], &[1], 3)), 1.0 / 3.0);
    assert_eq!(f(fitness(&[1, 2, 3], &[1, 2, 3], 2)), 1.5);
    assert!(fitness(&[], &[1], 3).is_nan());
}

#[test]
fn at_least_one_retires() {
    assert_eq!(count_retired(20, s(0.3)), 6);
    assert_eq!(count_retired(4, s(0.0)), 1);
    assert_eq!(count_retired(2, s(5.0)), 10);
    assert_eq!(count_retired(3, s(f32::NAN)), 1);
}

#[test]
fn scores_are_summed_up() {
    let v = all(&[0.5, 0.25, 0.75]);
    assert_eq!((f(best_score(&v)), f(worst_score(&v)), f(mean_score(&v))), (0.75, 0.25, 0.5));
    assert_eq!((f(best_score(&[])), f(worst_score(&[])), f(mean_score(&[]))), (0.0, 0.0, 0.0));
}

#[test]
fn retirement_keeps_the_fittest() {
    let mut pool = TaskSpecialistPool::spawn("t", &small_template(), 3);
    pool.fitness_scores = all(&[0.1, 0.9, 0.5]);
    assert_eq!(pool.retire(s(0.34)), 1);
    let ids: Vec<&str> = pool.specialists.iter().map(|p| p.id.as_str()).collect();
    assert_eq!(ids, vec!["t-spec-000001", "t-spec-000002"]);
    assert_eq!(pool.fitness_scores, all(&[0.9, 0.5]));
    assert_eq!(pool.retire(s(1.0)), 2);
    assert_eq!(pool.specialists.len(), 1);

    let mut pool = TaskSpecialistPool::spawn("t", &small_template(), 3);
    pool.fitness_scores = all(&[f32::NAN, 0.1, 0.9]);
    assert_eq!(pool.retire(s(0.34)), 1);
    assert_eq!(pool.fitness_scores, all(&[0.9, 0.1]));
}

#[test]
fn merging_needs_a_task_and_a_population() {
    let mut engine: Engine = TciEngine::new(small_template());
    engine.learn_task("a", 3, Ok(trained(&[1; 8]))).unwrap();
    engine.learn_task("b", 3, Ok(trained(&[1, 1, 1, 1, -1, -1, -1, -1]))).unwrap();
    let mut pool = TaskSpecialistPool::spawn("a", &small_template(), 3);
    pool.specialists[0].brain.weights = vec![-1; 8];
    pool.fitness_scores = all(&[0.1, 0.9, 0.5]);
    engine.merge_best_into_task(&pool, "c", 3);
    assert_eq!(engine.tasks[0].weights, vec![1; 8]);
    engine.merge_best_into_task(&TaskSpecialistPool::spawn("a", &small_template(), 0), "a", 3);
    assert_eq!(engine.tasks[0].weights, vec![1; 8]);
    engine.merge_best_into_task(&pool, "a", 1);
    assert_eq!(engine.tasks[0].weights, small_template().weights);
    assert_eq!(engine.tasks[1].weights, vec![1, 1, 1, 1, -1, -1, -1, -1]);
}

#[test]
fn longer_snapshots_are_voted_on_as_far_as_the_template() {
    let mut engine: Engine = TciEngine::new(small_template());
    engine.learn_task("a", 3, Ok(trained(&[1, 1, 1, 1, -1, -1, -1, -1, 1, 1]))).unwrap();
    engine.learn_task("b", 3, Ok(trained(&[1, -1, 0, 1, 1, 0, 0, -1, -1]))).unwrap();
    assert_eq!(engine.build_consensus(), vec![1, 0, 1, 1, 1, -1, -1, -1]);
    assert!(engine.covers_template());
    engine.tasks[0].weights.truncate(7);
    assert!(!engine.covers_template());
}

/// Learns a task and carries its run through all rounds.
fn evolve(daemon: &mut Daemon, name: &str, rounds: usize) {
    let labels = vec![1u8; 8];
    let learned = [1i8, 1, 1, 1, -1, -1, -1, -1];
    let run = daemon
        .learn_task_with_evolution(name, labels.clone(), 8, rounds, Ok(trained(&learned)))
        .unwrap();
    let predictions = graded(&run, &labels);
    let mut step = daemon.founders_scored(run, &predictions);
    while let EvolutionStep::Mutate { run, order } = step {
        let mut child = order.weights.clone();
        child[(order.seed % 8) as usize] *= -1;
        let run = daemon.offspring_bred(run, Ok(vec![child; order.children])).unwrap();
        let predictions = graded(&run, &labels);
        step = daemon.evolve_generation(run, &predictions, 0);
    }
}

#[test]
fn rounds_leave_numbered_reports() {
    let mut daemon = small_daemon();
    evolve(&mut daemon, "before", 2);
    evolve(&mut daemon, "t", 3);
    evolve(&mut daemon, "after", 1);
    let generations: Vec<u32> = daemon.task_reports("t").iter().map(|r| r.generation).collect();
    assert_eq!(generations, vec![1, 2, 3]);
    assert!(daemon.task_reports("t").iter().all(|r| r.task_name == "t"));
    assert!(daemon.task_reports("never").is_empty());
    let status = daemon.status();
    assert!(!status.running);
    assert_eq!(status.tasks.len(), status.total_tasks);
    assert_eq!(
        status.total_specialists,
        status.tasks.iter().map(|t| t.population_size).sum::<usize>()
    );
    assert_eq!(status.total_generations, 6);
}

#[test]
fn equal_seeds_give_equal_generations() {
    let mut one = small_daemon();
    let mut two = small_daemon();
    evolve(&mut one, "t", 4);
    evolve(&mut two, "t", 4);
    assert_eq!(one.to_bytes().unwrap(), two.to_bytes().unwrap());
    let mut other = small_daemon();
    other.config.seed = 46;
    evolve(&mut other, "t", 4);
    assert_ne!(one.engine.tasks[0].weights, other.engine.tasks[0].weights);
}

#[test]
fn populations_are_written_as_a_map() {
    let mut daemon = small_daemon();
    evolve(&mut daemon, "t", 0);
    let record = record_of_daemon(&daemon);
    let pools: std::collections::HashMap<String, PoolRecord> = record.2.into_iter().collect();
    let bytes = bincode::serialize(&(record.0, record.1, pools, record.3)).unwrap();
    assert_eq!(daemon.to_bytes().unwrap(), bytes);
    assert_eq!(Daemon::from_bytes(&bytes).unwrap().pools[0].1.task_name, "t");
}

#[test]
fn the_last_of_two_populations_under_a_key_is_read() {
    let mut daemon = small_daemon();
    evolve(&mut daemon, "t", 0);
    evolve(&mut daemon, "u", 0);
    let mut again = daemon.pools[0].clone();
    again.1.total_mutations = 77;
    daemon.pools.push(again);
    assert!(!daemon.in_order());
    let read = Daemon::from_bytes(&daemon.to_bytes().unwrap()).unwrap();
    let keys: Vec<&str> = read.pools.iter().map(|e| e.0.as_str()).collect();
    assert_eq!(keys, vec!["t", "u"]);
    assert_eq!(read.pools[0].1.total_mutations, 77);
    assert!(read.in_order());
}

#[test]
fn populations_are_read_under_their_keys() {
    let mut daemon = small_daemon();
    evolve(&mut daemon, "t", 0);
    daemon.pools[0].0 = "x".to_string();
    let mut second = daemon.pools[0].clone();
    second.0 = "y".to_string();
    second.1.total_mutations = 5;
    daemon.pools.push(second);
    let mut read = Daemon::from_bytes(&daemon.to_bytes().unwrap()).unwrap();
    let keys: Vec<&str> = read.pools.iter().map(|e| e.0.as_str()).collect();
    assert_eq!(keys, vec!["x", "y"]);
    assert_eq!((read.pools[0].1.total_mutations, read.pools[1].1.total_mutations), (0, 5));
    assert!(read.in_order());
    let names: Vec<String> = read.status().tasks.into_iter().map(|t| t.name).collect();
    assert_eq!(names, vec!["t", "t"]);

    evolve(&mut read, "x", 0);
    assert_eq!(read.pools.len(), 2);
    assert_eq!((read.pools[0].0.as_str(), read.pools[0].1.task_name.as_str()), ("x", "x"));
    assert_eq!((read.pools[1].0.as_str(), read.pools[1].1.task_name.as_str()), ("y", "t"));
}

#[test]
fn a_short_consensus_or_memory_leaves_the_error_of_the_backend() {
    let mut daemon = small_daemon();
    daemon.engine.consensus = vec![1, 0];
    let refused = Err("wrong length".to_string());
    let err = daemon.learn_task_with_evolution("t", vec![0], 1, 1, refused).unwrap_err();
    assert_eq!(err.message(), "TCI learn_task failed: wrong length");
    assert_eq!(daemon.engine.consensus, vec![1, 0]);
    daemon.learn_task_with_evolution("t", vec![0], 1, 1, Ok(trained(&[1; 8]))).unwrap();
    assert!(daemon.in_order());

    daemon.engine.tasks[0].weights = vec![1];
    assert!(!daemon.engine.covers_template());
    let err = daemon.learn_task_with_evolution("u", vec![], 0, 1, Ok(trained(&[1; 8])));
    assert_eq!(
        err.unwrap_err().message(),
        "TCI learn_task failed: learn_task: n_samples must be > 0"
    );
    assert_eq!(daemon.engine.task_count(), 1);
}
