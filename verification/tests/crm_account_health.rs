use converge_domain::agent::{Agent, Invariant, InvariantClass, InvariantResult};
use converge_domain::context::{Context, ContextKey, Fact};
use converge_domain::crm_account_health::read_account;
use converge_domain::{
    ActionPrioritizationAgent, ChurnRiskAgent, RequireChurnActionPlan, RequireCompleteAnalysis,
    RevenueTrendAgent, SupportTicketAgent, UpsellOpportunityAgent, UsageSignalAgent,
};

// A small convergence loop: each cycle runs every agent whose dependencies
// changed in the last cycle (or that has none) and that accepts the context,
// merges the proposed facts in registration order, and checks invariants by
// class. It stops when no agent runs or no fact was added.

type AcceptFn = Box<dyn Fn(&Context) -> bool>;
type ExecFn = Box<dyn Fn(&Context) -> Vec<Fact>>;
type CheckFn = Box<dyn Fn(&Context) -> InvariantResult>;

struct Step {
    deps: Vec<ContextKey>,
    accepts: AcceptFn,
    execute: ExecFn,
}

struct Check {
    name: &'static str,
    class: InvariantClass,
    check: CheckFn,
}

struct Engine {
    steps: Vec<Step>,
    checks: Vec<Check>,
    max_cycles: u32,
}

#[derive(Debug)]
struct Converged {
    context: Context,
    cycles: u32,
    converged: bool,
}

#[allow(dead_code)]
#[derive(Debug)]
enum RunError {
    Invariant { name: &'static str, class: InvariantClass, reason: String, context: Context },
    Conflict(String),
    Budget,
}

#[allow(dead_code)]
impl Engine {
    fn new() -> Engine {
        Engine { steps: Vec::new(), checks: Vec::new(), max_cycles: 100 }
    }

    fn with_max_cycles(max_cycles: u32) -> Engine {
        Engine { steps: Vec::new(), checks: Vec::new(), max_cycles }
    }

    fn add_step(&mut self, deps: Vec<ContextKey>, accepts: AcceptFn, execute: ExecFn) -> usize {
        self.steps.push(Step { deps, accepts, execute });
        self.steps.len() - 1
    }

    /// An agent that adds one seed, once.
    fn seed(&mut self, id: &'static str, content: &'static str) -> usize {
        self.add_step(
            Vec::new(),
            Box::new(move |ctx: &Context| !ctx.get(ContextKey::Seeds).iter().any(|f| f.id == id)),
            Box::new(move |_ctx: &Context| vec![Fact::new(ContextKey::Seeds, id, content)]),
        )
    }

    fn register<A: Agent + 'static>(&mut self, agent: A) -> usize {
        let deps = agent.dependencies();
        let a = std::rc::Rc::new(agent);
        let b = a.clone();
        self.add_step(
            deps,
            Box::new(move |ctx: &Context| a.accepts(ctx)),
            Box::new(move |ctx: &Context| b.execute(ctx).facts),
        )
    }

    fn register_invariant<I: Invariant + 'static>(&mut self, inv: I) {
        let name = inv.name();
        let class = inv.class();
        self.checks.push(Check { name, class, check: Box::new(move |ctx: &Context| inv.check(ctx)) });
    }

    /// Checks the invariants of a class; on a violation, the context is
    /// handed back with a diagnostic fact that names it.
    fn check_class(&self, class: InvariantClass, ctx: &Context) -> Result<(), RunError> {
        for c in self.checks.iter().filter(|c| c.class == class) {
            if let InvariantResult::Violated(v) = (c.check)(ctx) {
                let mut context = ctx.clone();
                context.add_fact(Fact::new(
                    ContextKey::Diagnostic,
                    &format!("violation:{}:{}", c.name, total_facts(ctx)),
                    &format!("{:?} invariant '{}' violated: {}", class, c.name, v.reason),
                ));
                return Err(RunError::Invariant { name: c.name, class, reason: v.reason, context });
            }
        }
        Ok(())
    }

    fn run(&self, mut ctx: Context) -> Result<Converged, RunError> {
        let all_keys = [
            ContextKey::Seeds,
            ContextKey::Hypotheses,
            ContextKey::Strategies,
            ContextKey::Constraints,
            ContextKey::Signals,
            ContextKey::Competitors,
            ContextKey::Evaluations,
            ContextKey::Proposals,
            ContextKey::Diagnostic,
        ];
        let mut dirty: Vec<ContextKey> = all_keys.iter().copied().filter(|k| ctx.has(*k)).collect();
        let mut cycles: u32 = 0;
        loop {
            cycles += 1;
            if cycles > self.max_cycles {
                return Err(RunError::Budget);
            }
            let eligible: Vec<usize> = (0..self.steps.len())
                .filter(|&i| {
                    let s = &self.steps[i];
                    (s.deps.is_empty() || s.deps.iter().any(|k| dirty.contains(k)))
                        && (s.accepts)(&ctx)
                })
                .collect();
            if eligible.is_empty() {
                self.check_class(InvariantClass::Acceptance, &ctx)?;
                return Ok(Converged { context: ctx, cycles, converged: true });
            }
            let effects: Vec<Vec<Fact>> =
                eligible.iter().map(|&i| (self.steps[i].execute)(&ctx)).collect();
            let mut changed: Vec<ContextKey> = Vec::new();
            for facts in effects {
                for f in facts {
                    if f.content.trim().is_empty() {
                        continue;
                    }
                    let existing = ctx.get(f.key).iter().find(|e| e.id == f.id).cloned();
                    match existing {
                        Some(e) if e.content == f.content => {}
                        Some(_) => return Err(RunError::Conflict(f.id)),
                        None => {
                            changed.push(f.key);
                            ctx.add_fact(f);
                        }
                    }
                }
            }
            dirty = changed;
            self.check_class(InvariantClass::Structure, &ctx)?;
            if dirty.is_empty() {
                self.check_class(InvariantClass::Acceptance, &ctx)?;
                return Ok(Converged { context: ctx, cycles, converged: true });
            }
            self.check_class(InvariantClass::Semantic, &ctx)?;
        }
    }
}

#[allow(dead_code)]
fn total_facts(ctx: &Context) -> usize {
    [
        ContextKey::Seeds,
        ContextKey::Hypotheses,
        ContextKey::Strategies,
        ContextKey::Constraints,
        ContextKey::Signals,
        ContextKey::Competitors,
        ContextKey::Evaluations,
        ContextKey::Proposals,
        ContextKey::Diagnostic,
    ]
    .iter()
    .map(|k| ctx.get(*k).len())
    .sum()
}

#[test]
fn parallel_signal_agents_run_independently() {
    let mut engine = Engine::new();
    engine.seed("account", "Account123");
    engine.register(UsageSignalAgent);
    engine.register(SupportTicketAgent);
    engine.register(RevenueTrendAgent);

    let result = engine.run(Context::new()).expect("should converge");

    assert!(result.converged);
    let signals = result.context.get(ContextKey::Signals);
    assert!(signals.iter().any(|s| s.id.starts_with("usage:")));
    assert!(signals.iter().any(|s| s.id.starts_with("support:")));
    assert!(signals.iter().any(|s| s.id.starts_with("revenue:")));
}

#[test]
fn churn_risk_assessed_from_signals() {
    let mut engine = Engine::new();
    engine.seed("account", "Account123");
    engine.register(UsageSignalAgent);
    engine.register(SupportTicketAgent);
    engine.register(RevenueTrendAgent);
    engine.register(ChurnRiskAgent);

    let result = engine.run(Context::new()).expect("should converge");

    assert!(result.converged);
    assert!(result.context.has(ContextKey::Strategies));
    let strategies = result.context.get(ContextKey::Strategies);
    assert!(strategies.iter().any(|s| s.id.starts_with("risk:")));
}

#[test]
fn upsell_opportunities_identified() {
    let mut engine = Engine::new();
    engine.seed("account", "Account123");
    engine.register(UsageSignalAgent);
    engine.register(SupportTicketAgent);
    engine.register(RevenueTrendAgent);
    engine.register(UpsellOpportunityAgent);

    let result = engine.run(Context::new()).expect("should converge");

    assert!(result.converged);
    let strategies = result.context.get(ContextKey::Strategies);
    // May or may not have opportunity depending on signals
    assert!(
        strategies
            .iter()
            .any(|s| s.id.starts_with("risk:") || s.id.starts_with("opportunity:"))
    );
}

#[test]
fn actions_prioritized() {
    let mut engine = Engine::new();
    engine.seed("account", "Account123");
    engine.register(UsageSignalAgent);
    engine.register(SupportTicketAgent);
    engine.register(RevenueTrendAgent);
    engine.register(ChurnRiskAgent);
    engine.register(UpsellOpportunityAgent);
    engine.register(ActionPrioritizationAgent);

    let result = engine.run(Context::new()).expect("should converge");

    assert!(result.converged);
    assert!(result.context.has(ContextKey::Evaluations));
    let evals = result.context.get(ContextKey::Evaluations);
    assert!(!evals.is_empty());
}

#[test]
fn crm_account_health_invariants_enforce_quality() {
    let mut engine = Engine::new();
    engine.seed("account", "Account123");
    engine.register(UsageSignalAgent);
    engine.register(SupportTicketAgent);
    engine.register(RevenueTrendAgent);
    engine.register(ChurnRiskAgent);
    engine.register(UpsellOpportunityAgent);
    engine.register(ActionPrioritizationAgent);

    engine.register_invariant(RequireChurnActionPlan);
    engine.register_invariant(RequireCompleteAnalysis);

    let result = engine.run(Context::new());

    assert!(result.is_ok());
    let result = result.unwrap();
    assert!(result.converged);
}

#[test]
fn crm_account_health_full_pipeline_converges_deterministically() {
    let run = || {
        let mut engine = Engine::new();
        engine.seed("account", "Account123");
        engine.register(UsageSignalAgent);
        engine.register(SupportTicketAgent);
        engine.register(RevenueTrendAgent);
        engine.register(ChurnRiskAgent);
        engine.register(UpsellOpportunityAgent);
        engine.register(ActionPrioritizationAgent);
        engine.run(Context::new()).expect("should converge")
    };

    let r1 = run();
    let r2 = run();

    assert_eq!(r1.cycles, r2.cycles);
    assert_eq!(
        r1.context.get(ContextKey::Evaluations),
        r2.context.get(ContextKey::Evaluations)
    );
}

#[test]
fn verbose_crm_account_health_execution() {
    let mut engine = Engine::with_max_cycles(100);
    engine.seed("account", "Account123");
    engine.register(UsageSignalAgent);
    engine.register(SupportTicketAgent);
    engine.register(RevenueTrendAgent);
    engine.register(ChurnRiskAgent);
    engine.register(UpsellOpportunityAgent);
    engine.register(ActionPrioritizationAgent);
    engine.register_invariant(RequireCompleteAnalysis);
    engine.register_invariant(RequireChurnActionPlan);

    let result = engine.run(Context::new()).expect("should converge");
    assert!(total_facts(&result.context) <= 1000);
    assert!(result.converged);
}

#[test]
fn crm_agents_run_once() {
    let mut ctx = Context::new();
    ctx.add_fact(Fact::new(ContextKey::Seeds, "account", "Acme"));
    assert!(UsageSignalAgent.accepts(&ctx));
    ctx.apply(UsageSignalAgent.execute(&ctx));
    assert!(!UsageSignalAgent.accepts(&ctx));
    assert!(SupportTicketAgent.accepts(&ctx));
    ctx.apply(SupportTicketAgent.execute(&ctx));
    assert!(!SupportTicketAgent.accepts(&ctx));
    assert!(RevenueTrendAgent.accepts(&ctx));
    ctx.apply(RevenueTrendAgent.execute(&ctx));
    assert!(!RevenueTrendAgent.accepts(&ctx));
    assert!(ChurnRiskAgent.accepts(&ctx));
    ctx.apply(ChurnRiskAgent.execute(&ctx));
    assert!(!ChurnRiskAgent.accepts(&ctx));
    if UpsellOpportunityAgent.accepts(&ctx) {
        ctx.apply(UpsellOpportunityAgent.execute(&ctx));
    }
    assert!(ActionPrioritizationAgent.accepts(&ctx));
    ctx.apply(ActionPrioritizationAgent.execute(&ctx));
    assert!(!ActionPrioritizationAgent.accepts(&ctx));
    assert_eq!(RequireChurnActionPlan.check(&ctx), InvariantResult::Holds);
    assert_eq!(RequireCompleteAnalysis.check(&ctx), InvariantResult::Holds);
    // Every signal names the account.
    assert!(ctx.get(ContextKey::Signals).iter().all(|s| s.content.contains("Acme")));
}

#[test]
fn the_account_is_read_from_its_seed() {
    let seeds = vec![Fact::new(ContextKey::Seeds, "account", "Globex")];
    assert_eq!(read_account(&seeds), "Globex");
    assert_eq!(read_account(&Vec::new()), "Account123");
    let _: InvariantClass = RequireChurnActionPlan.class();
}

#[test]
fn a_high_churn_risk_gets_a_recommended_action() {
    let mut ctx = Context::new();
    ctx.add_fact(Fact::new(ContextKey::Strategies, "risk:churn", "Churn risk: HIGH | Score: 80/100"));
    ctx.add_fact(Fact::new(ContextKey::Strategies, "opportunity:upsell", "Upsell potential: HIGH"));
    assert!(!RequireChurnActionPlan.check(&ctx).is_ok());
    assert!(ActionPrioritizationAgent.accepts(&ctx));
    ctx.apply(ActionPrioritizationAgent.execute(&ctx));
    let evals = ctx.get(ContextKey::Evaluations);
    assert!(evals[0].content.starts_with("Action 1: Churn Risk | Churn risk: HIGH"));
    assert!(evals[0].content.ends_with("RECOMMENDED"));
    assert_eq!(RequireChurnActionPlan.check(&ctx), InvariantResult::Holds);
}
