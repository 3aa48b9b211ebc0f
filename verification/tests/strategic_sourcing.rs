use converge_domain::agent::{Agent, Invariant, InvariantClass, InvariantResult};
use converge_domain::context::{Context, ContextKey, Fact};
use converge_domain::strategic_sourcing::{read_esg_score, read_vendor_name, RequireCompleteAssessments};
use converge_domain::{
    ComplianceAgent, ESGScoringAgent, PriceBenchmarkAgent, RequireCompliantVendor,
    RequireShortlistCompliance, RequireSourcingAssessments, RiskModelAgent, SourcingStrategyAgent,
    SupplierDiscoveryAgent, VendorRankingAgent,
};

// A small convergence loop: each cycle runs every agent whose dependencies
// changed in the last cycle (or that has none) and that accepts the context,
// merges the proposed facts in registration order, and checks invariants by
// class. It stops when no agent runs or no fact was added.

type AcceptFn = Box<dyn Fn(&Context) -> bool>;
type ExecFn = Box<dyn Fn(&Context) -> Vec<Fact>>;
type CheckFn = Box<dyn Fn(&Context) -> InvariantResult>;

struct Step {
    deps: Vec<ContextKey>,
    accepts: AcceptFn,
    execute: ExecFn,
}

struct Check {
    name: &'static str,
    class: InvariantClass,
    check: CheckFn,
}

struct Engine {
    steps: Vec<Step>,
    checks: Vec<Check>,
    max_cycles: u32,
}

#[derive(Debug)]
struct Converged {
    context: Context,
    cycles: u32,
    converged: bool,
}

#[allow(dead_code)]
#[derive(Debug)]
enum RunError {
    Invariant { name: &'static str, class: InvariantClass, reason: String, context: Context },
    Conflict(String),
    Budget,
}

#[allow(dead_code)]
impl Engine {
    fn new() -> Engine {
        Engine { steps: Vec::new(), checks: Vec::new(), max_cycles: 100 }
    }

    fn with_max_cycles(max_cycles: u32) -> Engine {
        Engine { steps: Vec::new(), checks: Vec::new(), max_cycles }
    }

    fn add_step(&mut self, deps: Vec<ContextKey>, accepts: AcceptFn, execute: ExecFn) -> usize {
        self.steps.push(Step { deps, accepts, execute });
        self.steps.len() - 1
    }

    /// An agent that adds one seed, once.
    fn seed(&mut self, id: &'static str, content: &'static str) -> usize {
        self.add_step(
            Vec::new(),
            Box::new(move |ctx: &Context| !ctx.get(ContextKey::Seeds).iter().any(|f| f.id == id)),
            Box::new(move |_ctx: &Context| vec![Fact::new(ContextKey::Seeds, id, content)]),
        )
    }

    fn register<A: Agent + 'static>(&mut self, agent: A) -> usize {
        let deps = agent.dependencies();
        let a = std::rc::Rc::new(agent);
        let b = a.clone();
        self.add_step(
            deps,
            Box::new(move |ctx: &Context| a.accepts(ctx)),
            Box::new(move |ctx: &Context| b.execute(ctx).facts),
        )
    }

    fn register_invariant<I: Invariant + 'static>(&mut self, inv: I) {
        let name = inv.name();
        let class = inv.class();
        self.checks.push(Check { name, class, check: Box::new(move |ctx: &Context| inv.check(ctx)) });
    }

    /// Checks the invariants of a class; on a violation, the context is
    /// handed back with a diagnostic fact that names it.
    fn check_class(&self, class: InvariantClass, ctx: &Context) -> Result<(), RunError> {
        for c in self.checks.iter().filter(|c| c.class == class) {
            if let InvariantResult::Violated(v) = (c.check)(ctx) {
                let mut context = ctx.clone();
                context.add_fact(Fact::new(
                    ContextKey::Diagnostic,
                    &format!("violation:{}:{}", c.name, total_facts(ctx)),
                    &format!("{:?} invariant '{}' violated: {}", class, c.name, v.reason),
                ));
                return Err(RunError::Invariant { name: c.name, class, reason: v.reason, context });
            }
        }
        Ok(())
    }

    fn run(&self, mut ctx: Context) -> Result<Converged, RunError> {
        let all_keys = [
            ContextKey::Seeds,
            ContextKey::Hypotheses,
            ContextKey::Strategies,
            ContextKey::Constraints,
            ContextKey::Signals,
            ContextKey::Competitors,
            ContextKey::Evaluations,
            ContextKey::Proposals,
            ContextKey::Diagnostic,
        ];
        let mut dirty: Vec<ContextKey> = all_keys.iter().copied().filter(|k| ctx.has(*k)).collect();
        let mut cycles: u32 = 0;
        loop {
            cycles += 1;
            if cycles > self.max_cycles {
                return Err(RunError::Budget);
            }
            let eligible: Vec<usize> = (0..self.steps.len())
                .filter(|&i| {
                    let s = &self.steps[i];
                    (s.deps.is_empty() || s.deps.iter().any(|k| dirty.contains(k)))
                        && (s.accepts)(&ctx)
                })
                .collect();
            if eligible.is_empty() {
                self.check_class(InvariantClass::Acceptance, &ctx)?;
                return Ok(Converged { context: ctx, cycles, converged: true });
            }
            let effects: Vec<Vec<Fact>> =
                eligible.iter().map(|&i| (self.steps[i].execute)(&ctx)).collect();
            let mut changed: Vec<ContextKey> = Vec::new();
            for facts in effects {
                for f in facts {
                    if f.content.trim().is_empty() {
                        continue;
                    }
                    let existing = ctx.get(f.key).iter().find(|e| e.id == f.id).cloned();
                    match existing {
                        Some(e) if e.content == f.content => {}
                        Some(_) => return Err(RunError::Conflict(f.id)),
                        None => {
                            changed.push(f.key);
                            ctx.add_fact(f);
                        }
                    }
                }
            }
            dirty = changed;
            self.check_class(InvariantClass::Structure, &ctx)?;
            if dirty.is_empty() {
                self.check_class(InvariantClass::Acceptance, &ctx)?;
                return Ok(Converged { context: ctx, cycles, converged: true });
            }
            self.check_class(InvariantClass::Semantic, &ctx)?;
        }
    }
}

#[allow(dead_code)]
fn total_facts(ctx: &Context) -> usize {
    [
        ContextKey::Seeds,
        ContextKey::Hypotheses,
        ContextKey::Strategies,
        ContextKey::Constraints,
        ContextKey::Signals,
        ContextKey::Competitors,
        ContextKey::Evaluations,
        ContextKey::Proposals,
        ContextKey::Diagnostic,
    ]
    .iter()
    .map(|k| ctx.get(*k).len())
    .sum()
}

#[test]
fn parallel_assessment_agents_run_independently() {
    let mut engine = Engine::new();
    engine.seed("suppliers", "VendorA, VendorB, VendorC");
    engine.register(SupplierDiscoveryAgent);
    engine.register(ComplianceAgent);
    engine.register(ESGScoringAgent);
    engine.register(PriceBenchmarkAgent);
    engine.register(RiskModelAgent);

    let result = engine.run(Context::new()).expect("should converge");

    assert!(result.converged);
    let signals = result.context.get(ContextKey::Signals);
    assert!(signals.iter().any(|s| s.id.starts_with("compliance:")));
    assert!(signals.iter().any(|s| s.id.starts_with("esg:")));
    assert!(signals.iter().any(|s| s.id.starts_with("price:")));
    assert!(signals.iter().any(|s| s.id.starts_with("risk:")));
}

#[test]
fn sourcing_strategy_waits_for_all_assessments() {
    let mut engine = Engine::new();
    engine.seed("suppliers", "VendorA, VendorB");
    engine.register(SupplierDiscoveryAgent);
    engine.register(ComplianceAgent);
    engine.register(ESGScoringAgent);
    engine.register(PriceBenchmarkAgent);
    engine.register(RiskModelAgent);
    engine.register(SourcingStrategyAgent);

    let result = engine.run(Context::new()).expect("should converge");

    assert!(result.converged);
    assert!(result.context.has(ContextKey::Strategies));
    let strategies = result.context.get(ContextKey::Strategies);
    assert!(strategies.iter().any(|s| s.id.starts_with("shortlist:")));
}

#[test]
fn vendor_ranking_provides_rationale() {
    let mut engine = Engine::new();
    engine.seed("suppliers", "VendorA, VendorB, VendorD");
    engine.register(SupplierDiscoveryAgent);
    engine.register(ComplianceAgent);
    engine.register(ESGScoringAgent);
    engine.register(PriceBenchmarkAgent);
    engine.register(RiskModelAgent);
    engine.register(SourcingStrategyAgent);
    engine.register(VendorRankingAgent);

    let result = engine.run(Context::new()).expect("should converge");

    assert!(result.converged);
    assert!(result.context.has(ContextKey::Evaluations));
    let evals = result.context.get(ContextKey::Evaluations);
    assert!(!evals.is_empty());
    assert!(
        evals
            .iter()
            .any(|e| e.content.contains("RECOMMENDED") || e.content.contains("Rationale"))
    );
}

#[test]
fn strategic_sourcing_invariants_enforce_quality() {
    let mut engine = Engine::new();
    engine.seed("suppliers", "VendorA, VendorB");
    engine.register(SupplierDiscoveryAgent);
    engine.register(ComplianceAgent);
    engine.register(ESGScoringAgent);
    engine.register(PriceBenchmarkAgent);
    engine.register(RiskModelAgent);
    engine.register(SourcingStrategyAgent);
    engine.register(VendorRankingAgent);

    engine.register_invariant(RequireCompliantVendor);
    engine.register_invariant(RequireShortlistCompliance);
    engine.register_invariant(RequireCompleteAssessments);

    let result = engine.run(Context::new());

    assert!(result.is_ok());
    let result = result.unwrap();
    assert!(result.converged);
}

#[test]
fn handles_no_qualified_vendors() {
    let mut engine = Engine::new();
    // Use only VendorC which fails compliance
    engine.seed("suppliers", "VendorC");
    engine.register(SupplierDiscoveryAgent);
    engine.register(ComplianceAgent);
    engine.register(ESGScoringAgent);
    engine.register(PriceBenchmarkAgent);
    engine.register(RiskModelAgent);
    engine.register(SourcingStrategyAgent);
    engine.register(VendorRankingAgent);

    let result = engine.run(Context::new()).expect("should converge");

    assert!(result.converged);
    let evals = result.context.get(ContextKey::Evaluations);
    // Should indicate no vendors found (either NO VENDORS message or empty evaluations)
    assert!(evals.is_empty() || evals.iter().any(|e| e.content.contains("NO VENDORS")));
}

#[test]
fn strategic_sourcing_full_pipeline_converges_deterministically() {
    let run = || {
        let mut engine = Engine::new();
        engine.seed("suppliers", "VendorA, VendorB, VendorD");
        engine.register(SupplierDiscoveryAgent);
        engine.register(ComplianceAgent);
        engine.register(ESGScoringAgent);
        engine.register(PriceBenchmarkAgent);
        engine.register(RiskModelAgent);
        engine.register(SourcingStrategyAgent);
        engine.register(VendorRankingAgent);
        engine.run(Context::new()).expect("should converge")
    };

    let r1 = run();
    let r2 = run();

    assert_eq!(r1.cycles, r2.cycles);
    assert_eq!(
        r1.context.get(ContextKey::Evaluations),
        r2.context.get(ContextKey::Evaluations)
    );
}

#[test]
fn verbose_strategic_sourcing_execution() {
    let mut engine = Engine::with_max_cycles(100);
    engine.seed("suppliers", "VendorA, VendorB, VendorC");
    engine.register(SupplierDiscoveryAgent);
    engine.register(ComplianceAgent);
    engine.register(ESGScoringAgent);
    engine.register(PriceBenchmarkAgent);
    engine.register(RiskModelAgent);
    engine.register(SourcingStrategyAgent);
    engine.register(VendorRankingAgent);
    engine.register_invariant(RequireSourcingAssessments);
    engine.register_invariant(RequireCompliantVendor);
    engine.register_invariant(RequireShortlistCompliance);

    let result = engine.run(Context::new()).expect("should converge");
    assert!(total_facts(&result.context) <= 1000);
    assert!(result.converged);
}

#[test]
fn sourcing_agents_run_once() {
    let mut ctx = Context::new();
    ctx.add_fact(Fact::new(ContextKey::Seeds, "suppliers", "VendorA, VendorB, VendorD, VendorE"));
    assert!(SupplierDiscoveryAgent.accepts(&ctx));
    ctx.apply(SupplierDiscoveryAgent.execute(&ctx));
    assert!(!SupplierDiscoveryAgent.accepts(&ctx));
    assert!(ComplianceAgent.accepts(&ctx));
    ctx.apply(ComplianceAgent.execute(&ctx));
    assert!(!ComplianceAgent.accepts(&ctx));
    assert!(ESGScoringAgent.accepts(&ctx));
    ctx.apply(ESGScoringAgent.execute(&ctx));
    assert!(!ESGScoringAgent.accepts(&ctx));
    assert!(PriceBenchmarkAgent.accepts(&ctx));
    ctx.apply(PriceBenchmarkAgent.execute(&ctx));
    assert!(!PriceBenchmarkAgent.accepts(&ctx));
    assert!(RiskModelAgent.accepts(&ctx));
    ctx.apply(RiskModelAgent.execute(&ctx));
    assert!(!RiskModelAgent.accepts(&ctx));
    assert!(SourcingStrategyAgent.accepts(&ctx));
    ctx.apply(SourcingStrategyAgent.execute(&ctx));
    assert!(!SourcingStrategyAgent.accepts(&ctx));
    // The shortlist keeps at most three vendors.
    let shortlist = ctx
        .get(ContextKey::Strategies)
        .iter()
        .filter(|s| s.id.starts_with("shortlist:"))
        .count();
    assert!(shortlist <= 3);
    assert!(VendorRankingAgent.accepts(&ctx));
    ctx.apply(VendorRankingAgent.execute(&ctx));
    assert!(!VendorRankingAgent.accepts(&ctx));
    assert_eq!(RequireShortlistCompliance.check(&ctx), InvariantResult::Holds);
    assert_eq!(RequireCompleteAssessments.check(&ctx), InvariantResult::Holds);
}

#[test]
fn esg_scores_and_vendor_names_are_exact() {
    assert_eq!(read_esg_score("vendora"), 95);
    assert_eq!(read_esg_score("vendorb"), 85);
    assert_eq!(read_esg_score("vendorc"), 60);
    assert_eq!(read_esg_score("vendord"), 75);
    assert_eq!(read_esg_score("acme"), 70);
    assert_eq!(read_vendor_name("Shortlist 1: VendorA | Score: 90"), "VendorA");
    assert_eq!(read_vendor_name("no separator"), "unknown");
    let _: InvariantClass = RequireCompliantVendor.class();
}

#[test]
fn non_compliant_suppliers_are_never_shortlisted() {
    let mut ctx = Context::new();
    ctx.add_fact(Fact::new(ContextKey::Signals, "supplier:x", "Supplier 1: X"));
    ctx.add_fact(Fact::new(ContextKey::Signals, "compliance:x", "Compliance x: NON-COMPLIANT | Status: FAIL"));
    ctx.add_fact(Fact::new(ContextKey::Signals, "esg:x", "ESG x: Score 95/100"));
    ctx.add_fact(Fact::new(ContextKey::Signals, "price:x", "Price x: $80/unit"));
    ctx.add_fact(Fact::new(ContextKey::Signals, "risk:x", "Risk x: Score 20/100"));
    let effect = SourcingStrategyAgent.execute(&ctx);
    assert_eq!(
        effect.facts,
        vec![Fact::new(ContextKey::Strategies, "shortlist:none", "No suppliers meet minimum criteria")]
    );
}
