use converge_domain::agent::{Agent, Invariant, InvariantClass, InvariantResult};
use converge_domain::catalog_enrichment::{
    category_from_lowered, normalized_content, read_field, title_case_str, PriceCheck,
};
use converge_domain::context::{Context, ContextKey, Fact};
use converge_domain::{
    AttributeNormalizationAgent, CategoryInferenceAgent, DeduplicationAgent, FeedIngestionAgent,
    PricingValidationAgent, ProductReadyAgent, RequireNoDuplicates, RequireRequiredAttributes,
    RequireValidPrices, SchemaInvariantAgent,
};

// A small convergence loop: each cycle runs every agent whose dependencies
// changed in the last cycle (or that has none) and that accepts the context,
// merges the proposed facts in registration order, and checks invariants by
// class. It stops when no agent runs or no fact was added.

type AcceptFn = Box<dyn Fn(&Context) -> bool>;
type ExecFn = Box<dyn Fn(&Context) -> Vec<Fact>>;
type CheckFn = Box<dyn Fn(&Context) -> InvariantResult>;

struct Step {
    deps: Vec<ContextKey>,
    accepts: AcceptFn,
    execute: ExecFn,
}

struct Check {
    name: &'static str,
    class: InvariantClass,
    check: CheckFn,
}

struct Engine {
    steps: Vec<Step>,
    checks: Vec<Check>,
    max_cycles: u32,
}

#[derive(Debug)]
struct Converged {
    context: Context,
    cycles: u32,
    converged: bool,
}

#[allow(dead_code)]
#[derive(Debug)]
enum RunError {
    Invariant { name: &'static str, class: InvariantClass, reason: String, context: Context },
    Conflict(String),
    Budget,
}

#[allow(dead_code)]
impl Engine {
    fn new() -> Engine {
        Engine { steps: Vec::new(), checks: Vec::new(), max_cycles: 100 }
    }

    fn with_max_cycles(max_cycles: u32) -> Engine {
        Engine { steps: Vec::new(), checks: Vec::new(), max_cycles }
    }

    fn add_step(&mut self, deps: Vec<ContextKey>, accepts: AcceptFn, execute: ExecFn) -> usize {
        self.steps.push(Step { deps, accepts, execute });
        self.steps.len() - 1
    }

    /// An agent that adds one seed, once.
    fn seed(&mut self, id: &'static str, content: &'static str) -> usize {
        self.add_step(
            Vec::new(),
            Box::new(move |ctx: &Context| !ctx.get(ContextKey::Seeds).iter().any(|f| f.id == id)),
            Box::new(move |_ctx: &Context| vec![Fact::new(ContextKey::Seeds, id, content)]),
        )
    }

    fn register<A: Agent + 'static>(&mut self, agent: A) -> usize {
        let deps = agent.dependencies();
        let a = std::rc::Rc::new(agent);
        let b = a.clone();
        self.add_step(
            deps,
            Box::new(move |ctx: &Context| a.accepts(ctx)),
            Box::new(move |ctx: &Context| b.execute(ctx).facts),
        )
    }

    fn register_invariant<I: Invariant + 'static>(&mut self, inv: I) {
        let name = inv.name();
        let class = inv.class();
        self.checks.push(Check { name, class, check: Box::new(move |ctx: &Context| inv.check(ctx)) });
    }

    /// Checks the invariants of a class; on a violation, the context is
    /// handed back with a diagnostic fact that names it.
    fn check_class(&self, class: InvariantClass, ctx: &Context) -> Result<(), RunError> {
        for c in self.checks.iter().filter(|c| c.class == class) {
            if let InvariantResult::Violated(v) = (c.check)(ctx) {
                let mut context = ctx.clone();
                context.add_fact(Fact::new(
                    ContextKey::Diagnostic,
                    &format!("violation:{}:{}", c.name, total_facts(ctx)),
                    &format!("{:?} invariant '{}' violated: {}", class, c.name, v.reason),
                ));
                return Err(RunError::Invariant { name: c.name, class, reason: v.reason, context });
            }
        }
        Ok(())
    }

    fn run(&self, mut ctx: Context) -> Result<Converged, RunError> {
        let all_keys = [
            ContextKey::Seeds,
            ContextKey::Hypotheses,
            ContextKey::Strategies,
            ContextKey::Constraints,
            ContextKey::Signals,
            ContextKey::Competitors,
            ContextKey::Evaluations,
            ContextKey::Proposals,
            ContextKey::Diagnostic,
        ];
        let mut dirty: Vec<ContextKey> = all_keys.iter().copied().filter(|k| ctx.has(*k)).collect();
        let mut cycles: u32 = 0;
        loop {
            cycles += 1;
            if cycles > self.max_cycles {
                return Err(RunError::Budget);
            }
            let eligible: Vec<usize> = (0..self.steps.len())
                .filter(|&i| {
                    let s = &self.steps[i];
                    (s.deps.is_empty() || s.deps.iter().any(|k| dirty.contains(k)))
                        && (s.accepts)(&ctx)
                })
                .collect();
            if eligible.is_empty() {
                self.check_class(InvariantClass::Acceptance, &ctx)?;
                return Ok(Converged { context: ctx, cycles, converged: true });
            }
            let effects: Vec<Vec<Fact>> =
                eligible.iter().map(|&i| (self.steps[i].execute)(&ctx)).collect();
            let mut changed: Vec<ContextKey> = Vec::new();
            for facts in effects {
                for f in facts {
                    if f.content.trim().is_empty() {
                        continue;
                    }
                    let existing = ctx.get(f.key).iter().find(|e| e.id == f.id).cloned();
                    match existing {
                        Some(e) if e.content == f.content => {}
                        Some(_) => return Err(RunError::Conflict(f.id)),
                        None => {
                            changed.push(f.key);
                            ctx.add_fact(f);
                        }
                    }
                }
            }
            dirty = changed;
            self.check_class(InvariantClass::Structure, &ctx)?;
            if dirty.is_empty() {
                self.check_class(InvariantClass::Acceptance, &ctx)?;
                return Ok(Converged { context: ctx, cycles, converged: true });
            }
            self.check_class(InvariantClass::Semantic, &ctx)?;
        }
    }
}

#[allow(dead_code)]
fn total_facts(ctx: &Context) -> usize {
    [
        ContextKey::Seeds,
        ContextKey::Hypotheses,
        ContextKey::Strategies,
        ContextKey::Constraints,
        ContextKey::Signals,
        ContextKey::Competitors,
        ContextKey::Evaluations,
        ContextKey::Proposals,
        ContextKey::Diagnostic,
    ]
    .iter()
    .map(|k| ctx.get(*k).len())
    .sum()
}

// Prices are read as decimal numbers here; a price that does not read
// counts as zero.
fn price_check(text: &str) -> PriceCheck {
    let p: f64 = text.parse().unwrap_or(0.0);
    if p > 0.0 && p < 10000.0 {
        PriceCheck::InRange
    } else if p <= 0.0 {
        PriceCheck::NotPositive
    } else if p >= 10000.0 {
        PriceCheck::TooHigh
    } else {
        PriceCheck::NotANumber
    }
}

fn price_validations(ctx: &Context) -> Vec<Fact> {
    let agent = PricingValidationAgent;
    let checks: Vec<PriceCheck> = agent.prices(ctx).iter().map(|t| price_check(t)).collect();
    agent.validations(ctx, &checks).facts
}

fn register_pricing(engine: &mut Engine) -> usize {
    engine.add_step(
        PricingValidationAgent.dependencies(),
        Box::new(|ctx: &Context| PricingValidationAgent.accepts(ctx)),
        Box::new(price_validations),
    )
}

#[test]
fn feed_ingestion_processes_multiple_feeds() {
    let mut engine = Engine::new();
    engine.seed("feeds", "ProductA:Widget:99.99|ProductB:Gadget:149.99");
    engine.register(FeedIngestionAgent);

    let result = engine.run(Context::new()).expect("should converge");

    assert!(result.converged);
    let signals = result.context.get(ContextKey::Signals);
    assert!(signals.iter().any(|s| s.id.starts_with("product:")));
}

#[test]
fn deduplication_removes_duplicates() {
    let mut engine = Engine::new();
    engine.seed("feeds", "ProductA:Widget:99.99|ProductA:Widget:99.99");
    engine.register(FeedIngestionAgent);
    engine.register(DeduplicationAgent);

    let result = engine.run(Context::new()).expect("should converge");

    assert!(result.converged);
    let signals = result.context.get(ContextKey::Signals);
    let dedup = signals
        .iter()
        .filter(|s| s.id.starts_with("dedup:"))
        .count();
    assert!(dedup > 0);
}

#[test]
fn full_pipeline_enriches_products() {
    let mut engine = Engine::new();
    engine.seed("feeds", "ProductA:Widget:99.99|ProductB:Gadget:149.99");
    engine.register(FeedIngestionAgent);
    engine.register(DeduplicationAgent);
    engine.register(AttributeNormalizationAgent);
    engine.register(CategoryInferenceAgent);
    register_pricing(&mut engine);
    engine.register(SchemaInvariantAgent);
    engine.register(ProductReadyAgent);

    let result = engine.run(Context::new()).expect("should converge");

    assert!(result.converged);
    assert!(result.context.has(ContextKey::Evaluations));
    let evals = result.context.get(ContextKey::Evaluations);
    assert!(!evals.is_empty());
}

#[test]
fn invariants_enforce_schema() {
    let mut engine = Engine::new();
    engine.seed("feeds", "ProductA:Widget:99.99");
    engine.register(FeedIngestionAgent);
    engine.register(DeduplicationAgent);
    engine.register(AttributeNormalizationAgent);
    engine.register(CategoryInferenceAgent);
    register_pricing(&mut engine);
    engine.register(SchemaInvariantAgent);
    engine.register(ProductReadyAgent);

    engine.register_invariant(RequireValidPrices);
    engine.register_invariant(RequireNoDuplicates);
    engine.register_invariant(RequireRequiredAttributes);

    let result = engine.run(Context::new());

    assert!(result.is_ok());
    let result = result.unwrap();
    assert!(result.converged);
}

#[test]
fn handles_invalid_prices() {
    let mut engine = Engine::new();
    engine.seed("feeds", "ProductA:Widget:-10.00|ProductB:Gadget:99999.99");
    engine.register(FeedIngestionAgent);
    engine.register(DeduplicationAgent);
    engine.register(AttributeNormalizationAgent);
    engine.register(CategoryInferenceAgent);
    register_pricing(&mut engine);
    engine.register(SchemaInvariantAgent);
    engine.register(ProductReadyAgent);

    let result = engine.run(Context::new()).expect("should converge");

    assert!(result.converged);
    // Test that system handles invalid prices gracefully - just verify convergence
    // The actual validation behavior may vary based on agent implementation
}

#[test]
fn catalog_enrichment_full_pipeline_converges_deterministically() {
    let run = || {
        let mut engine = Engine::new();
        engine.seed("feeds", "ProductA:Widget:99.99|ProductB:Gadget:149.99");
        engine.register(FeedIngestionAgent);
        engine.register(DeduplicationAgent);
        engine.register(AttributeNormalizationAgent);
        engine.register(CategoryInferenceAgent);
        register_pricing(&mut engine);
        engine.register(SchemaInvariantAgent);
        engine.register(ProductReadyAgent);
        engine.run(Context::new()).expect("should converge")
    };

    let r1 = run();
    let r2 = run();

    assert_eq!(r1.cycles, r2.cycles);
    assert_eq!(
        r1.context.get(ContextKey::Evaluations),
        r2.context.get(ContextKey::Evaluations)
    );
}

#[test]
fn verbose_catalog_enrichment_execution() {
    let mut engine = Engine::with_max_cycles(100);
    engine.seed("feeds", "ProductA:Widget:99.99|ProductB:Gadget:149.99");
    engine.register(FeedIngestionAgent);
    engine.register(DeduplicationAgent);
    engine.register(AttributeNormalizationAgent);
    engine.register(CategoryInferenceAgent);
    register_pricing(&mut engine);
    engine.register(SchemaInvariantAgent);
    engine.register(ProductReadyAgent);
    engine.register_invariant(RequireNoDuplicates);
    engine.register_invariant(RequireRequiredAttributes);
    engine.register_invariant(RequireValidPrices);

    let result = engine.run(Context::new()).expect("should converge");
    assert!(total_facts(&result.context) <= 1000);
    assert!(result.converged);
}

#[test]
fn prices_are_validated_exactly() {
    let mut engine = Engine::new();
    engine.seed("feeds", "ProductA:Widget:-10.00|ProductB:Gadget:99999.99|ProductC:Thing:5.50");
    engine.register(FeedIngestionAgent);
    engine.register(DeduplicationAgent);
    engine.register(AttributeNormalizationAgent);
    register_pricing(&mut engine);
    let result = engine.run(Context::new()).expect("should converge");
    let signals = result.context.get(ContextKey::Signals);
    let checks: Vec<&Fact> = signals.iter().filter(|s| s.id.starts_with("price-valid:")).collect();
    assert_eq!(checks.len(), 3);
    assert!(checks.iter().any(|c| c.content.contains("Status: INVALID | Reason: Price must be positive")));
    assert!(checks.iter().any(|c| c.content.contains("Status: INVALID | Reason: Price exceeds maximum")));
    assert!(checks.iter().any(|c| c.content.contains("Status: VALID | Reason: Valid price")));
}

#[test]
fn catalog_agents_run_once() {
    let mut ctx = Context::new();
    ctx.add_fact(Fact::new(ContextKey::Seeds, "feeds", "ProductA:Widget:99.99|ProductB:Gadget:149.99"));
    assert!(FeedIngestionAgent.accepts(&ctx));
    ctx.apply(FeedIngestionAgent.execute(&ctx));
    assert!(!FeedIngestionAgent.accepts(&ctx));
    assert!(DeduplicationAgent.accepts(&ctx));
    ctx.apply(DeduplicationAgent.execute(&ctx));
    assert!(!DeduplicationAgent.accepts(&ctx));
    assert!(AttributeNormalizationAgent.accepts(&ctx));
    ctx.apply(AttributeNormalizationAgent.execute(&ctx));
    assert!(!AttributeNormalizationAgent.accepts(&ctx));
    assert!(CategoryInferenceAgent.accepts(&ctx));
    ctx.apply(CategoryInferenceAgent.execute(&ctx));
    assert!(!CategoryInferenceAgent.accepts(&ctx));
    assert!(PricingValidationAgent.accepts(&ctx));
    let facts = price_validations(&ctx);
    ctx.apply(converge_domain::context::AgentEffect::with_facts(facts));
    assert!(!PricingValidationAgent.accepts(&ctx));
    assert!(SchemaInvariantAgent.accepts(&ctx));
    ctx.apply(SchemaInvariantAgent.execute(&ctx));
    assert!(!SchemaInvariantAgent.accepts(&ctx));
    assert!(ProductReadyAgent.accepts(&ctx));
    ctx.apply(ProductReadyAgent.execute(&ctx));
    assert!(!ProductReadyAgent.accepts(&ctx));
    assert_eq!(RequireNoDuplicates.check(&ctx), InvariantResult::Holds);
    assert_eq!(RequireValidPrices.check(&ctx), InvariantResult::Holds);
    let _: InvariantClass = RequireRequiredAttributes.class();
}

#[test]
fn titles_and_fields_are_read() {
    assert_eq!(title_case_str("hello WORLD"), "Hello World");
    assert_eq!(title_case_str("  many   spaces "), "Many Spaces");
    assert_eq!(read_field("Name: Widget | Price: $9.50 | X", "Price: $", "0.00"), "9.50");
    assert_eq!(read_field("Name: Widget", "Price: $", "0.00"), "0.00");
}

#[test]
fn invalid_prices_are_never_published() {
    let mut ctx = Context::new();
    ctx.add_fact(Fact::new(ContextKey::Signals, "normalized:1", "Normalized: 1 | Name: PRODUCTA | Category: Widget | Price: $-10.00"));
    ctx.add_fact(Fact::new(ContextKey::Signals, "category:1", "Category 1: Widget | Inferred: Electronics > Widgets"));
    ctx.add_fact(Fact::new(ContextKey::Signals, "price-valid:1", "Price validation 1: $-10.00 | Status: INVALID | Reason: Price must be positive"));
    ctx.add_fact(Fact::new(ContextKey::Constraints, "schema:price-range", "Schema: Price range $0.01 - $9,999.99"));
    let effect = ProductReadyAgent.execute(&ctx);
    assert_eq!(
        effect.facts,
        vec![Fact::new(
            ContextKey::Evaluations,
            "eval:1",
            "Product 1: NOT READY | Category: Assigned | Price: Invalid | Status: REVIEW"
        )]
    );
}

#[test]
fn normalized_text_and_category_are_built_from_mapped_strings() {
    assert_eq!(
        normalized_content("a1", "WIDGET", "Home Tools", "9.99"),
        "Normalized: a1 | Name: WIDGET | Category: Home Tools | Price: $9.99"
    );
    assert_eq!(category_from_lowered("blue widget"), "Electronics > Widgets");
    assert_eq!(category_from_lowered("tiny gadget"), "Electronics > Gadgets");
    assert_eq!(category_from_lowered("Widget"), "General > Uncategorized");
    assert_eq!(category_from_lowered("lamp"), "General > Uncategorized");
}
