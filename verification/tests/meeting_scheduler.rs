use converge_domain::agent::{Agent, Invariant, InvariantClass, InvariantResult};
use converge_domain::context::{Context, ContextKey, Fact};
use converge_domain::{
    AvailabilityRetrievalAgent, ConflictDetectionAgent, RequireParticipantAvailability,
    RequirePositiveDuration, RequireValidSlot, SlotOptimizationAgent, TimeZoneNormalizationAgent,
    WorkingHoursConstraintAgent,
};

// A small convergence loop: each cycle runs every agent whose dependencies
// changed in the last cycle (or that has none) and that accepts the context,
// merges the proposed facts in registration order, and checks invariants by
// class. It stops when no agent runs or no fact was added.

type AcceptFn = Box<dyn Fn(&Context) -> bool>;
type ExecFn = Box<dyn Fn(&Context) -> Vec<Fact>>;
type CheckFn = Box<dyn Fn(&Context) -> InvariantResult>;

struct Step {
    deps: Vec<ContextKey>,
    accepts: AcceptFn,
    execute: ExecFn,
}

struct Check {
    name: &'static str,
    class: InvariantClass,
    check: CheckFn,
}

struct Engine {
    steps: Vec<Step>,
    checks: Vec<Check>,
    max_cycles: u32,
}

#[derive(Debug)]
struct Converged {
    context: Context,
    cycles: u32,
    converged: bool,
}

#[allow(dead_code)]
#[derive(Debug)]
enum RunError {
    Invariant { name: &'static str, class: InvariantClass, reason: String, context: Context },
    Conflict(String),
    Budget,
}

#[allow(dead_code)]
impl Engine {
    fn new() -> Engine {
        Engine { steps: Vec::new(), checks: Vec::new(), max_cycles: 100 }
    }

    fn with_max_cycles(max_cycles: u32) -> Engine {
        Engine { steps: Vec::new(), checks: Vec::new(), max_cycles }
    }

    fn add_step(&mut self, deps: Vec<ContextKey>, accepts: AcceptFn, execute: ExecFn) -> usize {
        self.steps.push(Step { deps, accepts, execute });
        self.steps.len() - 1
    }

    /// An agent that adds one seed, once.
    fn seed(&mut self, id: &'static str, content: &'static str) -> usize {
        self.add_step(
            Vec::new(),
            Box::new(move |ctx: &Context| !ctx.get(ContextKey::Seeds).iter().any(|f| f.id == id)),
            Box::new(move |_ctx: &Context| vec![Fact::new(ContextKey::Seeds, id, content)]),
        )
    }

    fn register<A: Agent + 'static>(&mut self, agent: A) -> usize {
        let deps = agent.dependencies();
        let a = std::rc::Rc::new(agent);
        let b = a.clone();
        self.add_step(
            deps,
            Box::new(move |ctx: &Context| a.accepts(ctx)),
            Box::new(move |ctx: &Context| b.execute(ctx).facts),
        )
    }

    fn register_invariant<I: Invariant + 'static>(&mut self, inv: I) {
        let name = inv.name();
        let class = inv.class();
        self.checks.push(Check { name, class, check: Box::new(move |ctx: &Context| inv.check(ctx)) });
    }

    /// Checks the invariants of a class; on a violation, the context is
    /// handed back with a diagnostic fact that names it.
    fn check_class(&self, class: InvariantClass, ctx: &Context) -> Result<(), RunError> {
        for c in self.checks.iter().filter(|c| c.class == class) {
            if let InvariantResult::Violated(v) = (c.check)(ctx) {
                let mut context = ctx.clone();
                context.add_fact(Fact::new(
                    ContextKey::Diagnostic,
                    &format!("violation:{}:{}", c.name, total_facts(ctx)),
                    &format!("{:?} invariant '{}' violated: {}", class, c.name, v.reason),
                ));
                return Err(RunError::Invariant { name: c.name, class, reason: v.reason, context });
            }
        }
        Ok(())
    }

    fn run(&self, mut ctx: Context) -> Result<Converged, RunError> {
        let all_keys = [
            ContextKey::Seeds,
            ContextKey::Hypotheses,
            ContextKey::Strategies,
            ContextKey::Constraints,
            ContextKey::Signals,
            ContextKey::Competitors,
            ContextKey::Evaluations,
            ContextKey::Proposals,
            ContextKey::Diagnostic,
        ];
        let mut dirty: Vec<ContextKey> = all_keys.iter().copied().filter(|k| ctx.has(*k)).collect();
        let mut cycles: u32 = 0;
        loop {
            cycles += 1;
            if cycles > self.max_cycles {
                return Err(RunError::Budget);
            }
            let eligible: Vec<usize> = (0..self.steps.len())
                .filter(|&i| {
                    let s = &self.steps[i];
                    (s.deps.is_empty() || s.deps.iter().any(|k| dirty.contains(k)))
                        && (s.accepts)(&ctx)
                })
                .collect();
            if eligible.is_empty() {
                self.check_class(InvariantClass::Acceptance, &ctx)?;
                return Ok(Converged { context: ctx, cycles, converged: true });
            }
            let effects: Vec<Vec<Fact>> =
                eligible.iter().map(|&i| (self.steps[i].execute)(&ctx)).collect();
            let mut changed: Vec<ContextKey> = Vec::new();
            for facts in effects {
                for f in facts {
                    if f.content.trim().is_empty() {
                        continue;
                    }
                    let existing = ctx.get(f.key).iter().find(|e| e.id == f.id).cloned();
                    match existing {
                        Some(e) if e.content == f.content => {}
                        Some(_) => return Err(RunError::Conflict(f.id)),
                        None => {
                            changed.push(f.key);
                            ctx.add_fact(f);
                        }
                    }
                }
            }
            dirty = changed;
            self.check_class(InvariantClass::Structure, &ctx)?;
            if dirty.is_empty() {
                self.check_class(InvariantClass::Acceptance, &ctx)?;
                return Ok(Converged { context: ctx, cycles, converged: true });
            }
            self.check_class(InvariantClass::Semantic, &ctx)?;
        }
    }
}

#[allow(dead_code)]
fn total_facts(ctx: &Context) -> usize {
    [
        ContextKey::Seeds,
        ContextKey::Hypotheses,
        ContextKey::Strategies,
        ContextKey::Constraints,
        ContextKey::Signals,
        ContextKey::Competitors,
        ContextKey::Evaluations,
        ContextKey::Proposals,
        ContextKey::Diagnostic,
    ]
    .iter()
    .map(|k| ctx.get(*k).len())
    .sum()
}

#[test]
fn availability_agent_retrieves_availability() {
    let mut engine = Engine::new();
    engine.seed("participants", "Alice, Bob, Carol");
    engine.register(AvailabilityRetrievalAgent);

    let result = engine.run(Context::new()).expect("should converge");

    assert!(result.converged);
    assert!(result.context.has(ContextKey::Signals));

    let signals = result.context.get(ContextKey::Signals);
    assert!(signals.iter().any(|s| s.id.contains("availability")));
}

#[test]
fn timezone_agent_normalizes_availability() {
    let mut engine = Engine::new();
    engine.seed("participants", "Alice, Bob, Carol");
    engine.register(AvailabilityRetrievalAgent);
    engine.register(TimeZoneNormalizationAgent);

    let result = engine.run(Context::new()).expect("should converge");

    assert!(result.converged);
    let signals = result.context.get(ContextKey::Signals);
    assert!(signals.iter().any(|s| s.id.starts_with("normalized:")));
}

#[test]
fn working_hours_agent_enforces_constraints() {
    let mut engine = Engine::new();
    engine.seed("participants", "Alice, Bob, Carol");
    engine.seed("duration", "60");
    engine.register(AvailabilityRetrievalAgent);
    engine.register(TimeZoneNormalizationAgent);
    engine.register(WorkingHoursConstraintAgent);

    let result = engine.run(Context::new()).expect("should converge");

    assert!(result.converged);
    assert!(result.context.has(ContextKey::Constraints));
}

#[test]
fn slot_optimization_agent_generates_candidates() {
    let mut engine = Engine::new();
    engine.seed("participants", "Alice, Bob, Carol");
    engine.seed("duration", "60");
    engine.register(AvailabilityRetrievalAgent);
    engine.register(TimeZoneNormalizationAgent);
    engine.register(WorkingHoursConstraintAgent);
    engine.register(SlotOptimizationAgent);

    let result = engine.run(Context::new()).expect("should converge");

    assert!(result.converged);
    assert!(result.context.has(ContextKey::Strategies));

    let slots = result.context.get(ContextKey::Strategies);
    assert!(!slots.is_empty());
}

#[test]
fn conflict_detection_agent_ranks_slots() {
    let mut engine = Engine::new();
    engine.seed("participants", "Alice, Bob, Carol");
    engine.seed("duration", "60");
    engine.register(AvailabilityRetrievalAgent);
    engine.register(TimeZoneNormalizationAgent);
    engine.register(WorkingHoursConstraintAgent);
    engine.register(SlotOptimizationAgent);
    engine.register(ConflictDetectionAgent);

    let result = engine.run(Context::new()).expect("should converge");

    assert!(result.converged);
    assert!(result.context.has(ContextKey::Evaluations));

    let evals = result.context.get(ContextKey::Evaluations);
    assert!(!evals.is_empty());
    assert!(evals.iter().any(|e| e.content.contains("RECOMMENDED")));
}

#[test]
fn meeting_scheduler_full_pipeline_converges_deterministically() {
    let run = || {
        let mut engine = Engine::new();
        engine.seed("participants", "Alice, Bob, Carol");
        engine.seed("duration", "60");
        engine.register(AvailabilityRetrievalAgent);
        engine.register(TimeZoneNormalizationAgent);
        engine.register(WorkingHoursConstraintAgent);
        engine.register(SlotOptimizationAgent);
        engine.register(ConflictDetectionAgent);
        engine.run(Context::new()).expect("should converge")
    };

    let r1 = run();
    let r2 = run();

    // Same number of cycles
    assert_eq!(r1.cycles, r2.cycles);

    // Same slots
    assert_eq!(
        r1.context.get(ContextKey::Strategies),
        r2.context.get(ContextKey::Strategies)
    );

    // Same evaluations
    assert_eq!(
        r1.context.get(ContextKey::Evaluations),
        r2.context.get(ContextKey::Evaluations)
    );
}

#[test]
fn verbose_meeting_scheduler_execution() {
    let mut engine = Engine::with_max_cycles(100);
    engine.seed("participants", "Alice, Bob, Carol");
    engine.seed("duration", "60");
    engine.seed("window", "next week");
    engine.register(AvailabilityRetrievalAgent);
    engine.register(TimeZoneNormalizationAgent);
    engine.register(WorkingHoursConstraintAgent);
    engine.register(SlotOptimizationAgent);
    engine.register(ConflictDetectionAgent);
    engine.register_invariant(RequirePositiveDuration);
    engine.register_invariant(RequireParticipantAvailability);
    engine.register_invariant(RequireValidSlot);

    let result = engine.run(Context::new()).expect("should converge");
    assert!(total_facts(&result.context) <= 1000);
    let evaluations = result.context.get(ContextKey::Evaluations);
    assert!(result.converged);
    assert!(!evaluations.is_empty());
}

#[test]
fn meeting_scheduler_agents_run_once() {
    let mut ctx = Context::new();
    ctx.add_fact(Fact::new(ContextKey::Seeds, "participants", "Alice, Bob, Carol"));
    ctx.add_fact(Fact::new(ContextKey::Seeds, "duration", "60"));
    assert!(AvailabilityRetrievalAgent.accepts(&ctx));
    ctx.apply(AvailabilityRetrievalAgent.execute(&ctx));
    assert!(!AvailabilityRetrievalAgent.accepts(&ctx));
    assert!(TimeZoneNormalizationAgent.accepts(&ctx));
    ctx.apply(TimeZoneNormalizationAgent.execute(&ctx));
    assert!(!TimeZoneNormalizationAgent.accepts(&ctx));
    assert!(WorkingHoursConstraintAgent.accepts(&ctx));
    ctx.apply(WorkingHoursConstraintAgent.execute(&ctx));
    assert!(!WorkingHoursConstraintAgent.accepts(&ctx));
    assert!(SlotOptimizationAgent.accepts(&ctx));
    ctx.apply(SlotOptimizationAgent.execute(&ctx));
    assert!(!SlotOptimizationAgent.accepts(&ctx));
    assert!(ConflictDetectionAgent.accepts(&ctx));
    ctx.apply(ConflictDetectionAgent.execute(&ctx));
    assert!(!ConflictDetectionAgent.accepts(&ctx));
    assert_eq!(RequireValidSlot.check(&ctx), InvariantResult::Holds);
}

#[test]
fn zero_duration_is_refused() {
    let mut ctx = Context::new();
    ctx.add_fact(Fact::new(ContextKey::Seeds, "duration", "0"));
    let r = RequirePositiveDuration.check(&ctx);
    match r {
        InvariantResult::Violated(v) => {
            assert_eq!(v.reason, "meeting duration must be greater than zero")
        }
        InvariantResult::Holds => panic!("a zero duration must be refused"),
    }
    let mut ok = Context::new();
    ok.add_fact(Fact::new(ContextKey::Seeds, "duration", "30"));
    assert_eq!(RequirePositiveDuration.check(&ok), InvariantResult::Holds);
    assert_eq!(RequirePositiveDuration.class(), InvariantClass::Structure);
}

#[test]
fn no_valid_slot_is_refused() {
    let mut ctx = Context::new();
    ctx.add_fact(Fact::new(ContextKey::Evaluations, "eval:none", "Status: INFEASIBLE"));
    assert!(!RequireValidSlot.check(&ctx).is_ok());
}
