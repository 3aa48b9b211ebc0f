use converge_domain::agent::{Agent, Invariant, InvariantClass, InvariantResult};
use converge_domain::context::{Context, ContextKey, Fact};
use converge_domain::{
    DependencyGraphAgent, DocumentationAgent, PerformanceRegressionAgent, ReleaseReadyAgent,
    RequireAllChecksComplete, RequireMinimumCoverage, RequireNoCriticalVulnerabilities,
    RiskSummaryAgent, SecurityScanAgent, TestCoverageAgent,
};

// A small convergence loop: each cycle runs every agent whose dependencies
// changed in the last cycle (or that has none) and that accepts the context,
// merges the proposed facts in registration order, and checks invariants by
// class. It stops when no agent runs or no fact was added.

type AcceptFn = Box<dyn Fn(&Context) -> bool>;
type ExecFn = Box<dyn Fn(&Context) -> Vec<Fact>>;
type CheckFn = Box<dyn Fn(&Context) -> InvariantResult>;

struct Step {
    deps: Vec<ContextKey>,
    accepts: AcceptFn,
    execute: ExecFn,
}

struct Check {
    name: &'static str,
    class: InvariantClass,
    check: CheckFn,
}

struct Engine {
    steps: Vec<Step>,
    checks: Vec<Check>,
    max_cycles: u32,
}

#[derive(Debug)]
struct Converged {
    context: Context,
    cycles: u32,
    converged: bool,
}

#[allow(dead_code)]
#[derive(Debug)]
enum RunError {
    Invariant { name: &'static str, class: InvariantClass, reason: String, context: Context },
    Conflict(String),
    Budget,
}

#[allow(dead_code)]
impl Engine {
    fn new() -> Engine {
        Engine { steps: Vec::new(), checks: Vec::new(), max_cycles: 100 }
    }

    fn with_max_cycles(max_cycles: u32) -> Engine {
        Engine { steps: Vec::new(), checks: Vec::new(), max_cycles }
    }

    fn add_step(&mut self, deps: Vec<ContextKey>, accepts: AcceptFn, execute: ExecFn) -> usize {
        self.steps.push(Step { deps, accepts, execute });
        self.steps.len() - 1
    }

    /// An agent that adds one seed, once.
    fn seed(&mut self, id: &'static str, content: &'static str) -> usize {
        self.add_step(
            Vec::new(),
            Box::new(move |ctx: &Context| !ctx.get(ContextKey::Seeds).iter().any(|f| f.id == id)),
            Box::new(move |_ctx: &Context| vec![Fact::new(ContextKey::Seeds, id, content)]),
        )
    }

    fn register<A: Agent + 'static>(&mut self, agent: A) -> usize {
        let deps = agent.dependencies();
        let a = std::rc::Rc::new(agent);
        let b = a.clone();
        self.add_step(
            deps,
            Box::new(move |ctx: &Context| a.accepts(ctx)),
            Box::new(move |ctx: &Context| b.execute(ctx).facts),
        )
    }

    fn register_invariant<I: Invariant + 'static>(&mut self, inv: I) {
        let name = inv.name();
        let class = inv.class();
        self.checks.push(Check { name, class, check: Box::new(move |ctx: &Context| inv.check(ctx)) });
    }

    /// Checks the invariants of a class; on a violation, the context is
    /// handed back with a diagnostic fact that names it.
    fn check_class(&self, class: InvariantClass, ctx: &Context) -> Result<(), RunError> {
        for c in self.checks.iter().filter(|c| c.class == class) {
            if let InvariantResult::Violated(v) = (c.check)(ctx) {
                let mut context = ctx.clone();
                context.add_fact(Fact::new(
                    ContextKey::Diagnostic,
                    &format!("violation:{}:{}", c.name, total_facts(ctx)),
                    &format!("{:?} invariant '{}' violated: {}", class, c.name, v.reason),
                ));
                return Err(RunError::Invariant { name: c.name, class, reason: v.reason, context });
            }
        }
        Ok(())
    }

    fn run(&self, mut ctx: Context) -> Result<Converged, RunError> {
        let all_keys = [
            ContextKey::Seeds,
            ContextKey::Hypotheses,
            ContextKey::Strategies,
            ContextKey::Constraints,
            ContextKey::Signals,
            ContextKey::Competitors,
            ContextKey::Evaluations,
            ContextKey::Proposals,
            ContextKey::Diagnostic,
        ];
        let mut dirty: Vec<ContextKey> = all_keys.iter().copied().filter(|k| ctx.has(*k)).collect();
        let mut cycles: u32 = 0;
        loop {
            cycles += 1;
            if cycles > self.max_cycles {
                return Err(RunError::Budget);
            }
            let eligible: Vec<usize> = (0..self.steps.len())
                .filter(|&i| {
                    let s = &self.steps[i];
                    (s.deps.is_empty() || s.deps.iter().any(|k| dirty.contains(k)))
                        && (s.accepts)(&ctx)
                })
                .collect();
            if eligible.is_empty() {
                self.check_class(InvariantClass::Acceptance, &ctx)?;
                return Ok(Converged { context: ctx, cycles, converged: true });
            }
            let effects: Vec<Vec<Fact>> =
                eligible.iter().map(|&i| (self.steps[i].execute)(&ctx)).collect();
            let mut changed: Vec<ContextKey> = Vec::new();
            for facts in effects {
                for f in facts {
                    if f.content.trim().is_empty() {
                        continue;
                    }
                    let existing = ctx.get(f.key).iter().find(|e| e.id == f.id).cloned();
                    match existing {
                        Some(e) if e.content == f.content => {}
                        Some(_) => return Err(RunError::Conflict(f.id)),
                        None => {
                            changed.push(f.key);
                            ctx.add_fact(f);
                        }
                    }
                }
            }
            dirty = changed;
            self.check_class(InvariantClass::Structure, &ctx)?;
            if dirty.is_empty() {
                self.check_class(InvariantClass::Acceptance, &ctx)?;
                return Ok(Converged { context: ctx, cycles, converged: true });
            }
            self.check_class(InvariantClass::Semantic, &ctx)?;
        }
    }
}

#[allow(dead_code)]
fn total_facts(ctx: &Context) -> usize {
    [
        ContextKey::Seeds,
        ContextKey::Hypotheses,
        ContextKey::Strategies,
        ContextKey::Constraints,
        ContextKey::Signals,
        ContextKey::Competitors,
        ContextKey::Evaluations,
        ContextKey::Proposals,
        ContextKey::Diagnostic,
    ]
    .iter()
    .map(|k| ctx.get(*k).len())
    .sum()
}

#[test]
fn all_check_agents_run_in_parallel() {
    let mut engine = Engine::new();
    engine.seed("release:v1.0.0", "Release candidate");
    engine.register(DependencyGraphAgent);
    engine.register(TestCoverageAgent);
    engine.register(SecurityScanAgent);
    engine.register(PerformanceRegressionAgent);
    engine.register(DocumentationAgent);

    let result = engine.run(Context::new()).expect("should converge");

    assert!(result.converged);
    let signals = result.context.get(ContextKey::Signals);
    assert!(signals.iter().any(|s| s.id.starts_with("dependency:")));
    assert!(signals.iter().any(|s| s.id.starts_with("coverage:")));
    assert!(signals.iter().any(|s| s.id.starts_with("security:")));
    assert!(signals.iter().any(|s| s.id.starts_with("performance:")));
    assert!(signals.iter().any(|s| s.id.starts_with("docs:")));
}

#[test]
fn risk_summary_waits_for_all_checks() {
    let mut engine = Engine::new();
    engine.seed("release:v1.0.0", "Release candidate");
    engine.register(DependencyGraphAgent);
    engine.register(TestCoverageAgent);
    engine.register(SecurityScanAgent);
    engine.register(PerformanceRegressionAgent);
    engine.register(DocumentationAgent);
    engine.register(RiskSummaryAgent);

    let result = engine.run(Context::new()).expect("should converge");

    assert!(result.converged);
    assert!(result.context.has(ContextKey::Strategies));
    let strategies = result.context.get(ContextKey::Strategies);
    assert!(strategies.iter().any(|s| s.id.starts_with("risk:")));
}

#[test]
fn release_ready_agent_makes_decision() {
    let mut engine = Engine::new();
    engine.seed("release:v1.0.0", "Release candidate");
    engine.register(DependencyGraphAgent);
    engine.register(TestCoverageAgent);
    engine.register(SecurityScanAgent);
    engine.register(PerformanceRegressionAgent);
    engine.register(DocumentationAgent);
    engine.register(RiskSummaryAgent);
    engine.register(ReleaseReadyAgent);

    let result = engine.run(Context::new()).expect("should converge");

    assert!(result.converged);
    assert!(result.context.has(ContextKey::Evaluations));
    let evals = result.context.get(ContextKey::Evaluations);
    assert!(evals.iter().any(|e| e.id == "eval:release-readiness"));
    assert!(evals
        .iter()
        .any(|e| e.content.contains("READY") || e.content.contains("BLOCKED")));
}

#[test]
fn invariants_enforce_quality_gates() {
    let mut engine = Engine::new();
    engine.seed("release:v1.0.0", "Release candidate");
    engine.register(DependencyGraphAgent);
    engine.register(TestCoverageAgent);
    engine.register(SecurityScanAgent);
    engine.register(PerformanceRegressionAgent);
    engine.register(DocumentationAgent);
    engine.register(RiskSummaryAgent);
    engine.register(ReleaseReadyAgent);

    engine.register_invariant(RequireAllChecksComplete);
    engine.register_invariant(RequireNoCriticalVulnerabilities);
    engine.register_invariant(RequireMinimumCoverage);

    let result = engine.run(Context::new());

    assert!(result.is_ok());
    let result = result.unwrap();
    assert!(result.converged);
}

#[test]
fn release_readiness_full_pipeline_converges_deterministically() {
    let run = || {
        let mut engine = Engine::new();
        engine.seed("release:v1.0.0", "Release candidate");
        engine.register(DependencyGraphAgent);
        engine.register(TestCoverageAgent);
        engine.register(SecurityScanAgent);
        engine.register(PerformanceRegressionAgent);
        engine.register(DocumentationAgent);
        engine.register(RiskSummaryAgent);
        engine.register(ReleaseReadyAgent);
        engine.run(Context::new()).expect("should converge")
    };

    let r1 = run();
    let r2 = run();

    assert_eq!(r1.cycles, r2.cycles);
    assert_eq!(
        r1.context.get(ContextKey::Signals),
        r2.context.get(ContextKey::Signals)
    );
    assert_eq!(
        r1.context.get(ContextKey::Evaluations),
        r2.context.get(ContextKey::Evaluations)
    );
}

#[test]
fn verbose_release_readiness_execution() {
    let mut engine = Engine::with_max_cycles(100);
    engine.seed("release:v1.2.0", "Release candidate v1.2.0");
    engine.register(DependencyGraphAgent);
    engine.register(TestCoverageAgent);
    engine.register(SecurityScanAgent);
    engine.register(PerformanceRegressionAgent);
    engine.register(DocumentationAgent);
    engine.register(RiskSummaryAgent);
    engine.register(ReleaseReadyAgent);
    engine.register_invariant(RequireNoCriticalVulnerabilities);
    engine.register_invariant(RequireMinimumCoverage);
    engine.register_invariant(RequireAllChecksComplete);

    let result = engine.run(Context::new()).expect("should converge");
    assert!(total_facts(&result.context) <= 1000);
    let evaluations = result.context.get(ContextKey::Evaluations);
    assert!(result.converged);
    assert!(!evaluations.is_empty());
}

#[test]
fn release_readiness_agents_run_once() {
    let mut ctx = Context::new();
    ctx.add_fact(Fact::new(ContextKey::Seeds, "release:v2", "Release candidate"));
    assert!(DependencyGraphAgent.accepts(&ctx));
    ctx.apply(DependencyGraphAgent.execute(&ctx));
    assert!(!DependencyGraphAgent.accepts(&ctx));
    assert!(TestCoverageAgent.accepts(&ctx));
    ctx.apply(TestCoverageAgent.execute(&ctx));
    assert!(!TestCoverageAgent.accepts(&ctx));
    assert!(SecurityScanAgent.accepts(&ctx));
    ctx.apply(SecurityScanAgent.execute(&ctx));
    assert!(!SecurityScanAgent.accepts(&ctx));
    assert!(PerformanceRegressionAgent.accepts(&ctx));
    ctx.apply(PerformanceRegressionAgent.execute(&ctx));
    assert!(!PerformanceRegressionAgent.accepts(&ctx));
    assert!(DocumentationAgent.accepts(&ctx));
    ctx.apply(DocumentationAgent.execute(&ctx));
    assert!(!DocumentationAgent.accepts(&ctx));
    assert!(RiskSummaryAgent.accepts(&ctx));
    ctx.apply(RiskSummaryAgent.execute(&ctx));
    assert!(!RiskSummaryAgent.accepts(&ctx));
    assert!(ReleaseReadyAgent.accepts(&ctx));
    ctx.apply(ReleaseReadyAgent.execute(&ctx));
    assert!(!ReleaseReadyAgent.accepts(&ctx));
    assert_eq!(RequireAllChecksComplete.check(&ctx), InvariantResult::Holds);
}

#[test]
fn checks_need_a_release_seed() {
    let mut ctx = Context::new();
    ctx.add_fact(Fact::new(ContextKey::Seeds, "other", "Something else"));
    let effect = DependencyGraphAgent.execute(&ctx);
    assert!(effect.facts.is_empty());
}

#[test]
fn critical_vulnerabilities_are_refused() {
    assert_eq!(RequireNoCriticalVulnerabilities.class(), InvariantClass::Structure);
    let mut ctx = Context::new();
    ctx.add_fact(Fact::new(
        ContextKey::Signals,
        "security:vulnerabilities",
        "Security scan: 0 critical, 2 medium",
    ));
    assert_eq!(RequireNoCriticalVulnerabilities.check(&ctx), InvariantResult::Holds);
    ctx.add_fact(Fact::new(ContextKey::Signals, "security:extra", "Security scan: 3 critical"));
    match RequireNoCriticalVulnerabilities.check(&ctx) {
        InvariantResult::Violated(v) => {
            assert_eq!(v.reason, "critical security vulnerabilities detected");
            assert_eq!(v.fact_ids, vec!["security:extra".to_string()]);
        }
        InvariantResult::Holds => panic!("a critical vulnerability must be refused"),
    }
}

#[test]
fn low_coverage_is_refused() {
    let mut ctx = Context::new();
    ctx.add_fact(Fact::new(ContextKey::Signals, "coverage:unit", "Unit test coverage: 65% | 10 tests"));
    match RequireMinimumCoverage.check(&ctx) {
        InvariantResult::Violated(v) => {
            assert_eq!(v.reason, "coverage 65% below minimum threshold of 70%")
        }
        InvariantResult::Holds => panic!("low coverage must be refused"),
    }
}
