use converge_domain::agent::{Agent, Invariant, InvariantClass, InvariantResult};
use converge_domain::compliance_monitoring::read_requirements;
use converge_domain::context::{Context, ContextKey, Fact};
use converge_domain::{
    EvidenceCollectorAgent, PolicyRuleAgent, RegulationParserAgent, RemediationProposalAgent,
    RequireEvidenceForAllRegulations, RequireRemediationPlans, ViolationDetectorAgent,
};

// A small convergence loop: each cycle runs every agent whose dependencies
// changed in the last cycle (or that has none) and that accepts the context,
// merges the proposed facts in registration order, and checks invariants by
// class. It stops when no agent runs or no fact was added.

type AcceptFn = Box<dyn Fn(&Context) -> bool>;
type ExecFn = Box<dyn Fn(&Context) -> Vec<Fact>>;
type CheckFn = Box<dyn Fn(&Context) -> InvariantResult>;

struct Step {
    deps: Vec<ContextKey>,
    accepts: AcceptFn,
    execute: ExecFn,
}

struct Check {
    name: &'static str,
    class: InvariantClass,
    check: CheckFn,
}

struct Engine {
    steps: Vec<Step>,
    checks: Vec<Check>,
    max_cycles: u32,
}

#[derive(Debug)]
struct Converged {
    context: Context,
    cycles: u32,
    converged: bool,
}

#[allow(dead_code)]
#[derive(Debug)]
enum RunError {
    Invariant { name: &'static str, class: InvariantClass, reason: String, context: Context },
    Conflict(String),
    Budget,
}

#[allow(dead_code)]
impl Engine {
    fn new() -> Engine {
        Engine { steps: Vec::new(), checks: Vec::new(), max_cycles: 100 }
    }

    fn with_max_cycles(max_cycles: u32) -> Engine {
        Engine { steps: Vec::new(), checks: Vec::new(), max_cycles }
    }

    fn add_step(&mut self, deps: Vec<ContextKey>, accepts: AcceptFn, execute: ExecFn) -> usize {
        self.steps.push(Step { deps, accepts, execute });
        self.steps.len() - 1
    }

    /// An agent that adds one seed, once.
    fn seed(&mut self, id: &'static str, content: &'static str) -> usize {
        self.add_step(
            Vec::new(),
            Box::new(move |ctx: &Context| !ctx.get(ContextKey::Seeds).iter().any(|f| f.id == id)),
            Box::new(move |_ctx: &Context| vec![Fact::new(ContextKey::Seeds, id, content)]),
        )
    }

    fn register<A: Agent + 'static>(&mut self, agent: A) -> usize {
        let deps = agent.dependencies();
        let a = std::rc::Rc::new(agent);
        let b = a.clone();
        self.add_step(
            deps,
            Box::new(move |ctx: &Context| a.accepts(ctx)),
            Box::new(move |ctx: &Context| b.execute(ctx).facts),
        )
    }

    fn register_invariant<I: Invariant + 'static>(&mut self, inv: I) {
        let name = inv.name();
        let class = inv.class();
        self.checks.push(Check { name, class, check: Box::new(move |ctx: &Context| inv.check(ctx)) });
    }

    /// Checks the invariants of a class; on a violation, the context is
    /// handed back with a diagnostic fact that names it.
    fn check_class(&self, class: InvariantClass, ctx: &Context) -> Result<(), RunError> {
        for c in self.checks.iter().filter(|c| c.class == class) {
            if let InvariantResult::Violated(v) = (c.check)(ctx) {
                let mut context = ctx.clone();
                context.add_fact(Fact::new(
                    ContextKey::Diagnostic,
                    &format!("violation:{}:{}", c.name, total_facts(ctx)),
                    &format!("{:?} invariant '{}' violated: {}", class, c.name, v.reason),
                ));
                return Err(RunError::Invariant { name: c.name, class, reason: v.reason, context });
            }
        }
        Ok(())
    }

    fn run(&self, mut ctx: Context) -> Result<Converged, RunError> {
        let all_keys = [
            ContextKey::Seeds,
            ContextKey::Hypotheses,
            ContextKey::Strategies,
            ContextKey::Constraints,
            ContextKey::Signals,
            ContextKey::Competitors,
            ContextKey::Evaluations,
            ContextKey::Proposals,
            ContextKey::Diagnostic,
        ];
        let mut dirty: Vec<ContextKey> = all_keys.iter().copied().filter(|k| ctx.has(*k)).collect();
        let mut cycles: u32 = 0;
        loop {
            cycles += 1;
            if cycles > self.max_cycles {
                return Err(RunError::Budget);
            }
            let eligible: Vec<usize> = (0..self.steps.len())
                .filter(|&i| {
                    let s = &self.steps[i];
                    (s.deps.is_empty() || s.deps.iter().any(|k| dirty.contains(k)))
                        && (s.accepts)(&ctx)
                })
                .collect();
            if eligible.is_empty() {
                self.check_class(InvariantClass::Acceptance, &ctx)?;
                return Ok(Converged { context: ctx, cycles, converged: true });
            }
            let effects: Vec<Vec<Fact>> =
                eligible.iter().map(|&i| (self.steps[i].execute)(&ctx)).collect();
            let mut changed: Vec<ContextKey> = Vec::new();
            for facts in effects {
                for f in facts {
                    if f.content.trim().is_empty() {
                        continue;
                    }
                    let existing = ctx.get(f.key).iter().find(|e| e.id == f.id).cloned();
                    match existing {
                        Some(e) if e.content == f.content => {}
                        Some(_) => return Err(RunError::Conflict(f.id)),
                        None => {
                            changed.push(f.key);
                            ctx.add_fact(f);
                        }
                    }
                }
            }
            dirty = changed;
            self.check_class(InvariantClass::Structure, &ctx)?;
            if dirty.is_empty() {
                self.check_class(InvariantClass::Acceptance, &ctx)?;
                return Ok(Converged { context: ctx, cycles, converged: true });
            }
            self.check_class(InvariantClass::Semantic, &ctx)?;
        }
    }
}

#[allow(dead_code)]
fn total_facts(ctx: &Context) -> usize {
    [
        ContextKey::Seeds,
        ContextKey::Hypotheses,
        ContextKey::Strategies,
        ContextKey::Constraints,
        ContextKey::Signals,
        ContextKey::Competitors,
        ContextKey::Evaluations,
        ContextKey::Proposals,
        ContextKey::Diagnostic,
    ]
    .iter()
    .map(|k| ctx.get(*k).len())
    .sum()
}

#[test]
fn regulation_parsing_creates_signals() {
    let mut engine = Engine::new();
    engine.seed("regulations", "GDPR, SOC2");
    engine.register(RegulationParserAgent);

    let result = engine.run(Context::new()).expect("should converge");

    assert!(result.converged);
    let signals = result.context.get(ContextKey::Signals);
    assert!(signals.iter().any(|s| s.id.starts_with("regulation:")));
}

#[test]
fn policy_rules_created_from_regulations() {
    let mut engine = Engine::new();
    engine.seed("regulations", "GDPR");
    engine.register(RegulationParserAgent);
    engine.register(PolicyRuleAgent);

    let result = engine.run(Context::new()).expect("should converge");

    assert!(result.converged);
    assert!(result.context.has(ContextKey::Constraints));
}

#[test]
fn violations_detected_when_evidence_missing() {
    let mut engine = Engine::new();
    engine.seed("regulations", "GDPR, SOC2");
    engine.register(RegulationParserAgent);
    engine.register(PolicyRuleAgent);
    engine.register(EvidenceCollectorAgent);
    engine.register(ViolationDetectorAgent);

    let result = engine.run(Context::new()).expect("should converge");

    assert!(result.converged);
    assert!(result.context.has(ContextKey::Strategies));
    let strategies = result.context.get(ContextKey::Strategies);
    // Should have violations (GDPR missing evidence)
    assert!(strategies.iter().any(|s| s.id.starts_with("violation:")));
}

#[test]
fn remediation_proposed_for_violations() {
    let mut engine = Engine::new();
    engine.seed("regulations", "GDPR");
    engine.register(RegulationParserAgent);
    engine.register(PolicyRuleAgent);
    engine.register(EvidenceCollectorAgent);
    engine.register(ViolationDetectorAgent);
    engine.register(RemediationProposalAgent);

    let result = engine.run(Context::new()).expect("should converge");

    assert!(result.converged);
    assert!(result.context.has(ContextKey::Evaluations));
    let evals = result.context.get(ContextKey::Evaluations);
    assert!(!evals.is_empty());
}

#[test]
fn invariants_enforce_compliance() {
    let mut engine = Engine::new();
    engine.seed("regulations", "GDPR, SOC2");
    engine.register(RegulationParserAgent);
    engine.register(PolicyRuleAgent);
    engine.register(EvidenceCollectorAgent);
    engine.register(ViolationDetectorAgent);
    engine.register(RemediationProposalAgent);

    engine.register_invariant(RequireRemediationPlans);
    engine.register_invariant(RequireEvidenceForAllRegulations);

    let result = engine.run(Context::new());

    assert!(result.is_ok());
    let result = result.unwrap();
    assert!(result.converged);
}

#[test]
fn handles_all_compliant_scenario() {
    let mut engine = Engine::new();
    // Use only SOC2 which has evidence
    engine.seed("regulations", "SOC2");
    engine.register(RegulationParserAgent);
    engine.register(PolicyRuleAgent);
    engine.register(EvidenceCollectorAgent);
    engine.register(ViolationDetectorAgent);
    engine.register(RemediationProposalAgent);

    let result = engine.run(Context::new()).expect("should converge");

    assert!(result.converged);
    let evals = result.context.get(ContextKey::Evaluations);
    // Should indicate compliance
    assert!(
        evals
            .iter()
            .any(|e| e.content.contains("COMPLIANT") || evals.is_empty())
    );
}

#[test]
fn compliance_monitoring_full_pipeline_converges_deterministically() {
    let run = || {
        let mut engine = Engine::new();
        engine.seed("regulations", "GDPR, SOC2");
        engine.register(RegulationParserAgent);
        engine.register(PolicyRuleAgent);
        engine.register(EvidenceCollectorAgent);
        engine.register(ViolationDetectorAgent);
        engine.register(RemediationProposalAgent);
        engine.run(Context::new()).expect("should converge")
    };

    let r1 = run();
    let r2 = run();

    assert_eq!(r1.cycles, r2.cycles);
    assert_eq!(
        r1.context.get(ContextKey::Evaluations),
        r2.context.get(ContextKey::Evaluations)
    );
}

#[test]
fn verbose_compliance_monitoring_execution() {
    let mut engine = Engine::with_max_cycles(100);
    engine.seed("regulations", "GDPR, SOC2, HIPAA");
    engine.register(RegulationParserAgent);
    engine.register(PolicyRuleAgent);
    engine.register(EvidenceCollectorAgent);
    engine.register(ViolationDetectorAgent);
    engine.register(RemediationProposalAgent);
    engine.register_invariant(RequireEvidenceForAllRegulations);
    engine.register_invariant(RequireRemediationPlans);

    let result = engine.run(Context::new()).expect("should converge");
    assert!(total_facts(&result.context) <= 1000);
    assert!(result.converged);
}

#[test]
fn regulation_ids_are_lowercased() {
    let mut ctx = Context::new();
    ctx.add_fact(Fact::new(ContextKey::Seeds, "regulations", "GDPR, Custom Rule"));
    let effect = RegulationParserAgent.execute(&ctx);
    let ids: Vec<&str> = effect.facts.iter().map(|f| f.id.as_str()).collect();
    assert_eq!(ids, vec!["regulation:gdpr", "regulation:custom rule"]);
    assert_eq!(
        effect.facts[0].content,
        "Regulation GDPR: Parsed | Requirements: Data privacy, consent, right to deletion | Applicable: Yes"
    );
}

#[test]
fn compliance_agents_run_once() {
    let mut ctx = Context::new();
    ctx.add_fact(Fact::new(ContextKey::Seeds, "regulations", "GDPR, SOC2"));
    assert!(RegulationParserAgent.accepts(&ctx));
    ctx.apply(RegulationParserAgent.execute(&ctx));
    assert!(!RegulationParserAgent.accepts(&ctx));
    assert!(PolicyRuleAgent.accepts(&ctx));
    ctx.apply(PolicyRuleAgent.execute(&ctx));
    assert!(!PolicyRuleAgent.accepts(&ctx));
    assert!(EvidenceCollectorAgent.accepts(&ctx));
    ctx.apply(EvidenceCollectorAgent.execute(&ctx));
    assert!(!EvidenceCollectorAgent.accepts(&ctx));
    assert!(ViolationDetectorAgent.accepts(&ctx));
    ctx.apply(ViolationDetectorAgent.execute(&ctx));
    assert!(!ViolationDetectorAgent.accepts(&ctx));
    assert!(RemediationProposalAgent.accepts(&ctx));
    ctx.apply(RemediationProposalAgent.execute(&ctx));
    assert!(!RemediationProposalAgent.accepts(&ctx));
    // Every violation has a remediation.
    assert_eq!(RequireRemediationPlans.check(&ctx), InvariantResult::Holds);
    assert_eq!(RequireEvidenceForAllRegulations.check(&ctx), InvariantResult::Holds);
}

#[test]
fn requirements_are_looked_up_by_name() {
    assert_eq!(read_requirements("SOC2"), "Security controls, access management, monitoring");
    assert_eq!(read_requirements("HIPAA"), "PHI protection, access controls, audit logs");
    assert_eq!(read_requirements("gdpr"), "General compliance requirements");
    let _: InvariantClass = RequireRemediationPlans.class();
}
