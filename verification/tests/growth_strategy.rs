use converge_domain::agent::{Agent, Invariant, InvariantClass, InvariantResult};
use converge_domain::context::{Context, ContextKey, Fact};
use converge_domain::growth_strategy::evaluate_strategy;
use converge_domain::{
    BrandSafetyInvariant, CompetitorAgent, EvaluationAgent, MarketSignalAgent,
    RequireEvaluationRationale, RequireMultipleStrategies, RequireStrategyEvaluations,
    StrategyAgent,
};

// A small convergence loop: each cycle runs every agent whose dependencies
// changed in the last cycle (or that has none) and that accepts the context,
// merges the proposed facts in registration order, and checks invariants by
// class. It stops when no agent runs or no fact was added.

type AcceptFn = Box<dyn Fn(&Context) -> bool>;
type ExecFn = Box<dyn Fn(&Context) -> Vec<Fact>>;
type CheckFn = Box<dyn Fn(&Context) -> InvariantResult>;

struct Step {
    deps: Vec<ContextKey>,
    accepts: AcceptFn,
    execute: ExecFn,
}

struct Check {
    name: &'static str,
    class: InvariantClass,
    check: CheckFn,
}

struct Engine {
    steps: Vec<Step>,
    checks: Vec<Check>,
    max_cycles: u32,
}

#[derive(Debug)]
struct Converged {
    context: Context,
    cycles: u32,
    converged: bool,
}

#[allow(dead_code)]
#[derive(Debug)]
enum RunError {
    Invariant { name: &'static str, class: InvariantClass, reason: String, context: Context },
    Conflict(String),
    Budget,
}

#[allow(dead_code)]
impl Engine {
    fn new() -> Engine {
        Engine { steps: Vec::new(), checks: Vec::new(), max_cycles: 100 }
    }

    fn with_max_cycles(max_cycles: u32) -> Engine {
        Engine { steps: Vec::new(), checks: Vec::new(), max_cycles }
    }

    fn add_step(&mut self, deps: Vec<ContextKey>, accepts: AcceptFn, execute: ExecFn) -> usize {
        self.steps.push(Step { deps, accepts, execute });
        self.steps.len() - 1
    }

    /// An agent that adds one seed, once.
    fn seed(&mut self, id: &'static str, content: &'static str) -> usize {
        self.add_step(
            Vec::new(),
            Box::new(move |ctx: &Context| !ctx.get(ContextKey::Seeds).iter().any(|f| f.id == id)),
            Box::new(move |_ctx: &Context| vec![Fact::new(ContextKey::Seeds, id, content)]),
        )
    }

    fn register<A: Agent + 'static>(&mut self, agent: A) -> usize {
        let deps = agent.dependencies();
        let a = std::rc::Rc::new(agent);
        let b = a.clone();
        self.add_step(
            deps,
            Box::new(move |ctx: &Context| a.accepts(ctx)),
            Box::new(move |ctx: &Context| b.execute(ctx).facts),
        )
    }

    fn register_invariant<I: Invariant + 'static>(&mut self, inv: I) {
        let name = inv.name();
        let class = inv.class();
        self.checks.push(Check { name, class, check: Box::new(move |ctx: &Context| inv.check(ctx)) });
    }

    /// Checks the invariants of a class; on a violation, the context is
    /// handed back with a diagnostic fact that names it.
    fn check_class(&self, class: InvariantClass, ctx: &Context) -> Result<(), RunError> {
        for c in self.checks.iter().filter(|c| c.class == class) {
            if let InvariantResult::Violated(v) = (c.check)(ctx) {
                let mut context = ctx.clone();
                context.add_fact(Fact::new(
                    ContextKey::Diagnostic,
                    &format!("violation:{}:{}", c.name, total_facts(ctx)),
                    &format!("{:?} invariant '{}' violated: {}", class, c.name, v.reason),
                ));
                return Err(RunError::Invariant { name: c.name, class, reason: v.reason, context });
            }
        }
        Ok(())
    }

    fn run(&self, mut ctx: Context) -> Result<Converged, RunError> {
        let all_keys = [
            ContextKey::Seeds,
            ContextKey::Hypotheses,
            ContextKey::Strategies,
            ContextKey::Constraints,
            ContextKey::Signals,
            ContextKey::Competitors,
            ContextKey::Evaluations,
            ContextKey::Proposals,
            ContextKey::Diagnostic,
        ];
        let mut dirty: Vec<ContextKey> = all_keys.iter().copied().filter(|k| ctx.has(*k)).collect();
        let mut cycles: u32 = 0;
        loop {
            cycles += 1;
            if cycles > self.max_cycles {
                return Err(RunError::Budget);
            }
            let eligible: Vec<usize> = (0..self.steps.len())
                .filter(|&i| {
                    let s = &self.steps[i];
                    (s.deps.is_empty() || s.deps.iter().any(|k| dirty.contains(k)))
                        && (s.accepts)(&ctx)
                })
                .collect();
            if eligible.is_empty() {
                self.check_class(InvariantClass::Acceptance, &ctx)?;
                return Ok(Converged { context: ctx, cycles, converged: true });
            }
            let effects: Vec<Vec<Fact>> =
                eligible.iter().map(|&i| (self.steps[i].execute)(&ctx)).collect();
            let mut changed: Vec<ContextKey> = Vec::new();
            for facts in effects {
                for f in facts {
                    if f.content.trim().is_empty() {
                        continue;
                    }
                    let existing = ctx.get(f.key).iter().find(|e| e.id == f.id).cloned();
                    match existing {
                        Some(e) if e.content == f.content => {}
                        Some(_) => return Err(RunError::Conflict(f.id)),
                        None => {
                            changed.push(f.key);
                            ctx.add_fact(f);
                        }
                    }
                }
            }
            dirty = changed;
            self.check_class(InvariantClass::Structure, &ctx)?;
            if dirty.is_empty() {
                self.check_class(InvariantClass::Acceptance, &ctx)?;
                return Ok(Converged { context: ctx, cycles, converged: true });
            }
            self.check_class(InvariantClass::Semantic, &ctx)?;
        }
    }
}

#[allow(dead_code)]
fn total_facts(ctx: &Context) -> usize {
    [
        ContextKey::Seeds,
        ContextKey::Hypotheses,
        ContextKey::Strategies,
        ContextKey::Constraints,
        ContextKey::Signals,
        ContextKey::Competitors,
        ContextKey::Evaluations,
        ContextKey::Proposals,
        ContextKey::Diagnostic,
    ]
    .iter()
    .map(|k| ctx.get(*k).len())
    .sum()
}

#[test]
fn market_signal_agent_emits_signals_from_seeds() {
    let mut engine = Engine::new();
    engine.seed("market:nordic-b2b", "Nordic B2B market");
    engine.register(MarketSignalAgent);

    let result = engine.run(Context::new()).expect("should converge");

    assert!(result.converged);
    assert!(result.context.has(ContextKey::Signals));

    let signals = result.context.get(ContextKey::Signals);
    assert!(signals.iter().any(|s| s.id.contains("nordic")));
}

#[test]
fn competitor_agent_analyzes_signals() {
    let mut engine = Engine::new();
    engine.seed("market:nordic-b2b", "Nordic B2B market");
    engine.register(MarketSignalAgent);
    engine.register(CompetitorAgent);

    let result = engine.run(Context::new()).expect("should converge");

    assert!(result.converged);
    assert!(result.context.has(ContextKey::Competitors));
}

#[test]
fn strategy_agent_proposes_strategies() {
    let mut engine = Engine::new();
    engine.seed("market:nordic-b2b", "Nordic B2B market");
    engine.register(MarketSignalAgent);
    engine.register(CompetitorAgent);
    engine.register(StrategyAgent);

    let result = engine.run(Context::new()).expect("should converge");

    assert!(result.converged);
    assert!(result.context.has(ContextKey::Strategies));

    let strategies = result.context.get(ContextKey::Strategies);
    assert!(strategies.len() >= 2, "Should have at least 2 strategies");
}

#[test]
fn evaluation_agent_scores_strategies() {
    let mut engine = Engine::new();
    engine.seed("market:nordic-b2b", "Nordic B2B market");
    engine.register(MarketSignalAgent);
    engine.register(CompetitorAgent);
    engine.register(StrategyAgent);
    engine.register(EvaluationAgent);

    let result = engine.run(Context::new()).expect("should converge");

    assert!(result.converged);
    assert!(result.context.has(ContextKey::Evaluations));

    let evals = result.context.get(ContextKey::Evaluations);
    assert!(!evals.is_empty());
    assert!(evals.iter().any(|e| e.content.contains("RECOMMENDED")));
}

#[test]
fn growth_strategy_full_pipeline_converges_deterministically() {
    let run = || {
        let mut engine = Engine::new();
        engine.seed("market:nordic-b2b", "Nordic B2B market");
        engine.seed("product:product-x", "Product X - SaaS platform");
        engine.register(MarketSignalAgent);
        engine.register(CompetitorAgent);
        engine.register(StrategyAgent);
        engine.register(EvaluationAgent);
        engine.run(Context::new()).expect("should converge")
    };

    let r1 = run();
    let r2 = run();

    assert_eq!(r1.cycles, r2.cycles);
    assert_eq!(
        r1.context.get(ContextKey::Strategies),
        r2.context.get(ContextKey::Strategies)
    );
    assert_eq!(
        r1.context.get(ContextKey::Evaluations),
        r2.context.get(ContextKey::Evaluations)
    );
}

#[test]
fn verbose_growth_strategy_execution() {
    let mut engine = Engine::with_max_cycles(100);
    engine.seed("market:nordic-b2b", "Nordic B2B market");
    engine.seed("product:product-x", "Product X - SaaS platform");
    engine.register(MarketSignalAgent);
    engine.register(CompetitorAgent);
    engine.register(StrategyAgent);
    engine.register(EvaluationAgent);
    engine.register_invariant(BrandSafetyInvariant::default());
    engine.register_invariant(RequireEvaluationRationale);
    engine.register_invariant(RequireMultipleStrategies);
    engine.register_invariant(RequireStrategyEvaluations);

    let result = engine.run(Context::new()).expect("should converge");
    assert!(total_facts(&result.context) <= 1000);

    let strategies = result.context.get(ContextKey::Strategies);
    let evaluations = result.context.get(ContextKey::Evaluations);
    assert!(result.converged);
    assert!(strategies.len() >= 2);
    assert_eq!(strategies.len(), evaluations.len());
}

// Each agent runs once: running a second time on the context it produced
// is refused.
#[test]
fn growth_strategy_agents_run_once() {
    let mut ctx = Context::new();
    ctx.add_fact(Fact::new(ContextKey::Seeds, "market:nordic-b2b", "Nordic B2B market"));
    assert!(MarketSignalAgent.accepts(&ctx));
    ctx.apply(MarketSignalAgent.execute(&ctx));
    assert!(!MarketSignalAgent.accepts(&ctx));
    assert!(CompetitorAgent.accepts(&ctx));
    ctx.apply(CompetitorAgent.execute(&ctx));
    assert!(!CompetitorAgent.accepts(&ctx));
    assert!(StrategyAgent.accepts(&ctx));
    ctx.apply(StrategyAgent.execute(&ctx));
    assert!(!StrategyAgent.accepts(&ctx));
    assert!(EvaluationAgent.accepts(&ctx));
    ctx.apply(EvaluationAgent.execute(&ctx));
    assert!(!EvaluationAgent.accepts(&ctx));
    // Every strategy has an evaluation.
    assert_eq!(
        ctx.get(ContextKey::Strategies).len(),
        ctx.get(ContextKey::Evaluations).len()
    );
}

#[test]
fn a_single_strategy_violates_require_multiple_strategies() {
    let mut engine = Engine::new();
    engine.seed("market:nordic-b2b", "Nordic B2B market");
    engine.register_invariant(RequireMultipleStrategies);
    let mut ctx = Context::new();
    ctx.add_fact(Fact::new(ContextKey::Strategies, "strategy:only", "one plan"));
    let err = engine.run(ctx).expect_err("one strategy is not enough");
    match err {
        RunError::Invariant { class, .. } => assert_eq!(class, InvariantClass::Acceptance),
        other => panic!("unexpected {other:?}"),
    }
}

#[test]
fn brand_safety_flags_forbidden_terms() {
    let inv = BrandSafetyInvariant::default();
    let mut ctx = Context::new();
    ctx.add_fact(Fact::new(ContextKey::Strategies, "s1", "A safe strategy"));
    assert_eq!(inv.check(&ctx), InvariantResult::Holds);
    ctx.add_fact(Fact::new(ContextKey::Strategies, "s2", "Spam every inbox"));
    assert!(!inv.check(&ctx).is_ok());
}

#[test]
fn evaluate_strategy_scores_exactly() {
    assert_eq!(
        evaluate_strategy("Focus on LinkedIn and B2B buyers"),
        (78, "High-reach channel with proven B2B effectiveness")
    );
    assert_eq!(
        evaluate_strategy("Target SMB on LinkedIn"),
        (85, "Strong competitive differentiation in underserved segment")
    );
    assert_eq!(
        evaluate_strategy("Something else"),
        (50, "Standard approach, moderate differentiation")
    );
}
