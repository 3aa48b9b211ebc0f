use converge_domain::agent::{Agent, Invariant, InvariantClass, InvariantResult};
use converge_domain::context::{Context, ContextKey, Fact};
use converge_domain::resource_routing::{evaluate_assignment, read_assigned_resource, read_capacity};
use converge_domain::{
    ConstraintValidationAgent, FeasibilityAgent, RequireAllTasksAssigned,
    RequireCapacityRespected, RequireValidDefinitions, ResourceRetrievalAgent, SolverAgent,
    TaskRetrievalAgent,
};

// A small convergence loop: each cycle runs every agent whose dependencies
// changed in the last cycle (or that has none) and that accepts the context,
// merges the proposed facts in registration order, and checks invariants by
// class. It stops when no agent runs or no fact was added.

type AcceptFn = Box<dyn Fn(&Context) -> bool>;
type ExecFn = Box<dyn Fn(&Context) -> Vec<Fact>>;
type CheckFn = Box<dyn Fn(&Context) -> InvariantResult>;

struct Step {
    deps: Vec<ContextKey>,
    accepts: AcceptFn,
    execute: ExecFn,
}

struct Check {
    name: &'static str,
    class: InvariantClass,
    check: CheckFn,
}

struct Engine {
    steps: Vec<Step>,
    checks: Vec<Check>,
    max_cycles: u32,
}

#[derive(Debug)]
struct Converged {
    context: Context,
    cycles: u32,
    converged: bool,
}

#[allow(dead_code)]
#[derive(Debug)]
enum RunError {
    Invariant { name: &'static str, class: InvariantClass, reason: String, context: Context },
    Conflict(String),
    Budget,
}

#[allow(dead_code)]
impl Engine {
    fn new() -> Engine {
        Engine { steps: Vec::new(), checks: Vec::new(), max_cycles: 100 }
    }

    fn with_max_cycles(max_cycles: u32) -> Engine {
        Engine { steps: Vec::new(), checks: Vec::new(), max_cycles }
    }

    fn add_step(&mut self, deps: Vec<ContextKey>, accepts: AcceptFn, execute: ExecFn) -> usize {
        self.steps.push(Step { deps, accepts, execute });
        self.steps.len() - 1
    }

    /// An agent that adds one seed, once.
    fn seed(&mut self, id: &'static str, content: &'static str) -> usize {
        self.add_step(
            Vec::new(),
            Box::new(move |ctx: &Context| !ctx.get(ContextKey::Seeds).iter().any(|f| f.id == id)),
            Box::new(move |_ctx: &Context| vec![Fact::new(ContextKey::Seeds, id, content)]),
        )
    }

    fn register<A: Agent + 'static>(&mut self, agent: A) -> usize {
        let deps = agent.dependencies();
        let a = std::rc::Rc::new(agent);
        let b = a.clone();
        self.add_step(
            deps,
            Box::new(move |ctx: &Context| a.accepts(ctx)),
            Box::new(move |ctx: &Context| b.execute(ctx).facts),
        )
    }

    fn register_invariant<I: Invariant + 'static>(&mut self, inv: I) {
        let name = inv.name();
        let class = inv.class();
        self.checks.push(Check { name, class, check: Box::new(move |ctx: &Context| inv.check(ctx)) });
    }

    /// Checks the invariants of a class; on a violation, the context is
    /// handed back with a diagnostic fact that names it.
    fn check_class(&self, class: InvariantClass, ctx: &Context) -> Result<(), RunError> {
        for c in self.checks.iter().filter(|c| c.class == class) {
            if let InvariantResult::Violated(v) = (c.check)(ctx) {
                let mut context = ctx.clone();
                context.add_fact(Fact::new(
                    ContextKey::Diagnostic,
                    &format!("violation:{}:{}", c.name, total_facts(ctx)),
                    &format!("{:?} invariant '{}' violated: {}", class, c.name, v.reason),
                ));
                return Err(RunError::Invariant { name: c.name, class, reason: v.reason, context });
            }
        }
        Ok(())
    }

    fn run(&self, mut ctx: Context) -> Result<Converged, RunError> {
        let all_keys = [
            ContextKey::Seeds,
            ContextKey::Hypotheses,
            ContextKey::Strategies,
            ContextKey::Constraints,
            ContextKey::Signals,
            ContextKey::Competitors,
            ContextKey::Evaluations,
            ContextKey::Proposals,
            ContextKey::Diagnostic,
        ];
        let mut dirty: Vec<ContextKey> = all_keys.iter().copied().filter(|k| ctx.has(*k)).collect();
        let mut cycles: u32 = 0;
        loop {
            cycles += 1;
            if cycles > self.max_cycles {
                return Err(RunError::Budget);
            }
            let eligible: Vec<usize> = (0..self.steps.len())
                .filter(|&i| {
                    let s = &self.steps[i];
                    (s.deps.is_empty() || s.deps.iter().any(|k| dirty.contains(k)))
                        && (s.accepts)(&ctx)
                })
                .collect();
            if eligible.is_empty() {
                self.check_class(InvariantClass::Acceptance, &ctx)?;
                return Ok(Converged { context: ctx, cycles, converged: true });
            }
            let effects: Vec<Vec<Fact>> =
                eligible.iter().map(|&i| (self.steps[i].execute)(&ctx)).collect();
            let mut changed: Vec<ContextKey> = Vec::new();
            for facts in effects {
                for f in facts {
                    if f.content.trim().is_empty() {
                        continue;
                    }
                    let existing = ctx.get(f.key).iter().find(|e| e.id == f.id).cloned();
                    match existing {
                        Some(e) if e.content == f.content => {}
                        Some(_) => return Err(RunError::Conflict(f.id)),
                        None => {
                            changed.push(f.key);
                            ctx.add_fact(f);
                        }
                    }
                }
            }
            dirty = changed;
            self.check_class(InvariantClass::Structure, &ctx)?;
            if dirty.is_empty() {
                self.check_class(InvariantClass::Acceptance, &ctx)?;
                return Ok(Converged { context: ctx, cycles, converged: true });
            }
            self.check_class(InvariantClass::Semantic, &ctx)?;
        }
    }
}

#[allow(dead_code)]
fn total_facts(ctx: &Context) -> usize {
    [
        ContextKey::Seeds,
        ContextKey::Hypotheses,
        ContextKey::Strategies,
        ContextKey::Constraints,
        ContextKey::Signals,
        ContextKey::Competitors,
        ContextKey::Evaluations,
        ContextKey::Proposals,
        ContextKey::Diagnostic,
    ]
    .iter()
    .map(|k| ctx.get(*k).len())
    .sum()
}

#[test]
fn task_retrieval_agent_extracts_tasks() {
    let mut engine = Engine::new();
    engine.seed("tasks", "Delivery A, Delivery B, Delivery C");
    engine.register(TaskRetrievalAgent);

    let result = engine.run(Context::new()).expect("should converge");

    assert!(result.converged);
    assert!(result.context.has(ContextKey::Signals));

    let signals = result.context.get(ContextKey::Signals);
    assert!(signals.iter().any(|s| s.id.starts_with("task:")));
}

#[test]
fn resource_retrieval_agent_extracts_resources() {
    let mut engine = Engine::new();
    engine.seed("resources", "Vehicle 1, Vehicle 2");
    engine.register(ResourceRetrievalAgent);

    let result = engine.run(Context::new()).expect("should converge");

    assert!(result.converged);
    let signals = result.context.get(ContextKey::Signals);
    assert!(signals.iter().any(|s| s.id.starts_with("resource:")));
}

#[test]
fn constraint_validation_agent_creates_constraints() {
    let mut engine = Engine::new();
    engine.seed("tasks", "Delivery A, Delivery B");
    engine.seed("resources", "Vehicle 1");
    engine.register(TaskRetrievalAgent);
    engine.register(ResourceRetrievalAgent);
    engine.register(ConstraintValidationAgent);

    let result = engine.run(Context::new()).expect("should converge");

    assert!(result.converged);
    assert!(result.context.has(ContextKey::Constraints));
}

#[test]
fn solver_agent_generates_assignments() {
    let mut engine = Engine::new();
    engine.seed("tasks", "Delivery A, Delivery B");
    engine.seed("resources", "Vehicle 1, Vehicle 2");
    engine.register(TaskRetrievalAgent);
    engine.register(ResourceRetrievalAgent);
    engine.register(ConstraintValidationAgent);
    engine.register(SolverAgent);

    let result = engine.run(Context::new()).expect("should converge");

    assert!(result.converged);
    assert!(result.context.has(ContextKey::Strategies));

    let assignments = result.context.get(ContextKey::Strategies);
    assert!(!assignments.is_empty());
}

#[test]
fn feasibility_agent_evaluates_assignments() {
    let mut engine = Engine::new();
    engine.seed("tasks", "Delivery A, Delivery B");
    engine.seed("resources", "Vehicle 1, Vehicle 2");
    engine.register(TaskRetrievalAgent);
    engine.register(ResourceRetrievalAgent);
    engine.register(ConstraintValidationAgent);
    engine.register(SolverAgent);
    engine.register(FeasibilityAgent);

    let result = engine.run(Context::new()).expect("should converge");

    assert!(result.converged);
    assert!(result.context.has(ContextKey::Evaluations));

    let evals = result.context.get(ContextKey::Evaluations);
    assert!(!evals.is_empty());
}

#[test]
fn resource_routing_full_pipeline_converges_deterministically() {
    let run = || {
        let mut engine = Engine::new();
        engine.seed("tasks", "Delivery A, Delivery B, Delivery C");
        engine.seed("resources", "Vehicle 1, Vehicle 2");
        engine.register(TaskRetrievalAgent);
        engine.register(ResourceRetrievalAgent);
        engine.register(ConstraintValidationAgent);
        engine.register(SolverAgent);
        engine.register(FeasibilityAgent);
        engine.run(Context::new()).expect("should converge")
    };

    let r1 = run();
    let r2 = run();

    // Same number of cycles
    assert_eq!(r1.cycles, r2.cycles);

    // Same assignments
    assert_eq!(
        r1.context.get(ContextKey::Strategies),
        r2.context.get(ContextKey::Strategies)
    );

    // Same evaluations
    assert_eq!(
        r1.context.get(ContextKey::Evaluations),
        r2.context.get(ContextKey::Evaluations)
    );
}

#[test]
fn verbose_resource_routing_execution() {
    let mut engine = Engine::with_max_cycles(100);
    engine.seed("tasks", "Delivery A, Delivery B, Delivery C");
    engine.seed("resources", "Vehicle 1, Vehicle 2");
    engine.register(TaskRetrievalAgent);
    engine.register(ResourceRetrievalAgent);
    engine.register(ConstraintValidationAgent);
    engine.register(SolverAgent);
    engine.register(FeasibilityAgent);
    engine.register_invariant(RequireValidDefinitions);
    engine.register_invariant(RequireCapacityRespected);
    engine.register_invariant(RequireAllTasksAssigned);

    let result = engine.run(Context::new()).expect("should converge");
    assert!(total_facts(&result.context) <= 1000);
    let evaluations = result.context.get(ContextKey::Evaluations);
    assert!(result.converged);
    assert!(!evaluations.is_empty());
}

#[test]
fn definitions_are_judged_once_given() {
    assert_eq!(RequireValidDefinitions.check(&Context::new()), InvariantResult::Holds);
    let mut ctx = Context::new();
    ctx.add_fact(Fact::new(ContextKey::Signals, "resource:1", "Resource 1: Van | Capacity: 3 tasks"));
    match RequireValidDefinitions.check(&ctx) {
        InvariantResult::Violated(v) => assert_eq!(v.reason, "no tasks defined"),
        InvariantResult::Holds => panic!("resources without tasks are refused"),
    }
    ctx.add_fact(Fact::new(ContextKey::Signals, "task:1", "Task 1: Delivery A"));
    assert_eq!(RequireValidDefinitions.check(&ctx), InvariantResult::Holds);
}

#[test]
fn resource_routing_pipeline_respects_capacity_and_assigns_all() {
    let mut engine = Engine::with_max_cycles(100);
    engine.seed("tasks", "Delivery A, Delivery B, Delivery C");
    engine.seed("resources", "Vehicle 1, Vehicle 2");
    engine.register(TaskRetrievalAgent);
    engine.register(ResourceRetrievalAgent);
    engine.register(ConstraintValidationAgent);
    engine.register(SolverAgent);
    engine.register(FeasibilityAgent);
    engine.register_invariant(RequireCapacityRespected);
    engine.register_invariant(RequireAllTasksAssigned);

    let result = engine.run(Context::new()).expect("should converge");
    let evaluations = result.context.get(ContextKey::Evaluations);
    assert!(result.converged);
    assert!(!evaluations.is_empty());
}

#[test]
fn resource_routing_agents_run_once() {
    let mut ctx = Context::new();
    ctx.add_fact(Fact::new(ContextKey::Seeds, "tasks", "Delivery A, Delivery B"));
    ctx.add_fact(Fact::new(ContextKey::Seeds, "resources", "Vehicle 1"));
    for step in 0..5 {
        let before = total_facts(&ctx);
        match step {
            0 => {
                assert!(TaskRetrievalAgent.accepts(&ctx));
                ctx.apply(TaskRetrievalAgent.execute(&ctx));
                assert!(!TaskRetrievalAgent.accepts(&ctx));
            }
            1 => {
                assert!(ResourceRetrievalAgent.accepts(&ctx));
                ctx.apply(ResourceRetrievalAgent.execute(&ctx));
                assert!(!ResourceRetrievalAgent.accepts(&ctx));
            }
            2 => {
                assert!(ConstraintValidationAgent.accepts(&ctx));
                ctx.apply(ConstraintValidationAgent.execute(&ctx));
                assert!(!ConstraintValidationAgent.accepts(&ctx));
            }
            3 => {
                assert!(SolverAgent.accepts(&ctx));
                ctx.apply(SolverAgent.execute(&ctx));
                assert!(!SolverAgent.accepts(&ctx));
            }
            _ => {
                assert!(FeasibilityAgent.accepts(&ctx));
                ctx.apply(FeasibilityAgent.execute(&ctx));
                assert!(!FeasibilityAgent.accepts(&ctx));
            }
        }
        assert!(total_facts(&ctx) > before);
    }
    assert_eq!(RequireCapacityRespected.check(&ctx), InvariantResult::Holds);
    assert_eq!(RequireValidDefinitions.check(&ctx), InvariantResult::Holds);
}

#[test]
fn solver_respects_capacity_with_many_tasks() {
    let mut engine = Engine::new();
    engine.seed("tasks", "T1, T2, T3, T4, T5, T6, T7, T8, T9, T10");
    engine.seed("resources", "Van");
    engine.register(TaskRetrievalAgent);
    engine.register(ResourceRetrievalAgent);
    engine.register(ConstraintValidationAgent);
    engine.register(SolverAgent);
    engine.register_invariant(RequireCapacityRespected);
    let result = engine.run(Context::new()).expect("capacity is respected");
    let strategies = result.context.get(ContextKey::Strategies);
    let assigned = strategies.iter().filter(|s| !s.content.contains("INFEASIBLE")).count();
    let capacity = result
        .context
        .get(ContextKey::Signals)
        .iter()
        .filter(|s| s.id.starts_with("resource:"))
        .map(|s| read_capacity(&s.content, 2))
        .sum::<usize>();
    assert_eq!(capacity, 3);
    assert_eq!(assigned, 3);
}

#[test]
fn reading_capacities_and_assignments() {
    assert_eq!(read_capacity("Vehicle | Capacity: 7 tasks", 5), 7);
    assert_eq!(read_capacity("Vehicle without a number", 5), 5);
    assert_eq!(read_capacity("Capacity: lots", 4), 4);
    assert_eq!(
        read_assigned_resource("Task A → Vehicle 1 | Load: 1/5"),
        Some("Vehicle 1".to_string())
    );
    assert_eq!(read_assigned_resource("no arrow here"), None);
}

#[test]
fn assignment_scores_are_exact() {
    assert_eq!(
        evaluate_assignment("Load: 1/5", true),
        (95, "Optimal assignment with balanced resource utilization")
    );
    assert_eq!(
        evaluate_assignment("Load: 3/5", true),
        (85, "Good assignment, resource fully utilized")
    );
    assert_eq!(
        evaluate_assignment("Load: 4/5", true),
        (75, "Valid assignment within capacity constraints")
    );
    assert_eq!(
        evaluate_assignment("Load: 1/5", false),
        (50, "Partial assignment, not all tasks assigned")
    );
}

#[test]
fn unassigned_tasks_are_refused_at_acceptance() {
    assert_eq!(RequireAllTasksAssigned.class(), InvariantClass::Acceptance);
    let mut ctx = Context::new();
    ctx.add_fact(Fact::new(ContextKey::Signals, "task:a", "Task a"));
    ctx.add_fact(Fact::new(ContextKey::Signals, "task:b", "Task b"));
    ctx.add_fact(Fact::new(ContextKey::Strategies, "assignment:a", "Task a → Van | Load: 1/1"));
    assert!(!RequireAllTasksAssigned.check(&ctx).is_ok());
}
