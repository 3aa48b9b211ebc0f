use converge_domain::context::{Context, ContextKey, Fact};
use converge_domain::evals::{
    eval_agent_should_run, eval_dirty_keys, EvalOutcome, EvalResult,
    LeadQualificationQualityEval, MeetingScheduleFeasibilityEval, Score, StrategyDiversityEval,
};

fn ratio(s: Score) -> f64 {
    s.num as f64 / s.den as f64
}

// The share of qualified leads is shown as a percentage with one decimal.
fn lead_quality(ctx: &Context) -> EvalResult {
    let eval = LeadQualificationQualityEval;
    let (q, n) = eval.counts(ctx);
    let percent = if n == 0 { String::new() } else { format!("{:.1}", q as f64 / n as f64 * 100.0) };
    eval.evaluate(ctx, &percent)
}

#[test]
fn strategy_diversity_passes_with_three_strategies() {
    let eval = StrategyDiversityEval;
    let mut ctx = Context::new();

    ctx.add_fact(Fact::new(ContextKey::Strategies, "strat-1", "email marketing campaign"));
    ctx.add_fact(Fact::new(ContextKey::Strategies, "strat-2", "social media outreach"));
    ctx.add_fact(Fact::new(ContextKey::Strategies, "strat-3", "content marketing strategy"));

    let result = eval.evaluate(&ctx);
    assert_eq!(result.outcome, EvalOutcome::Pass);
    assert_eq!(ratio(result.score), 1.0);
}

#[test]
fn strategy_diversity_fails_with_insufficient_strategies() {
    let eval = StrategyDiversityEval;
    let mut ctx = Context::new();

    ctx.add_fact(Fact::new(ContextKey::Strategies, "strat-1", "email campaign"));

    let result = eval.evaluate(&ctx);
    assert_eq!(result.outcome, EvalOutcome::Fail);
    assert!(ratio(result.score) < 1.0);
}

#[test]
fn lead_qualification_quality_passes_with_high_quality() {
    let mut ctx = Context::new();

    for i in 0..10 {
        ctx.add_fact(Fact::new(
            ContextKey::Strategies,
            &format!("lead-{}", i),
            "ICP fit: yes, because: qualified, next action: call",
        ));
    }

    let result = lead_quality(&ctx);
    assert_eq!(result.outcome, EvalOutcome::Pass);
    assert!(ratio(result.score) >= 0.8);
}

#[test]
fn eval_agent_executes_registered_evals() {
    let mut ctx = Context::new();
    ctx.add_fact(Fact::new(ContextKey::Strategies, "strat-1", "email campaign"));

    assert!(eval_agent_should_run(&ctx, "test_eval_agent"));
    assert_eq!(eval_dirty_keys(&ctx), vec![ContextKey::Strategies]);

    let result = StrategyDiversityEval.evaluate(&ctx);
    assert_eq!(result.eval_name, "strategy_diversity");
    assert_eq!(result.fact_ids, vec!["strat-1".to_string()]);
}

#[test]
fn eval_agent_is_idempotent() {
    let mut ctx = Context::new();
    ctx.add_fact(Fact::new(ContextKey::Strategies, "strat-1", "email campaign"));

    assert!(eval_agent_should_run(&ctx, "test_eval_agent"));
    ctx.add_fact(Fact::new(
        ContextKey::Evaluations,
        "eval:strategy_diversity:test_eval_agent",
        "Only 1 strategies found, need at least 3",
    ));
    assert!(!eval_agent_should_run(&ctx, "test_eval_agent"));
    // Another agent's results do not count.
    assert!(eval_agent_should_run(&ctx, "other_agent"));
}

#[test]
fn eval_agents_wait_for_inputs() {
    let ctx = Context::new();
    assert!(!eval_agent_should_run(&ctx, "agent"));
    assert_eq!(eval_dirty_keys(&ctx), Vec::<ContextKey>::new());
}

#[test]
fn diversity_counts_channels() {
    let mut ctx = Context::new();
    ctx.add_fact(Fact::new(ContextKey::Strategies, "s1", "email one"));
    ctx.add_fact(Fact::new(ContextKey::Strategies, "s2", "email two"));
    ctx.add_fact(Fact::new(ContextKey::Strategies, "s3", "social three"));
    let result = StrategyDiversityEval.evaluate(&ctx);
    assert_eq!(result.outcome, EvalOutcome::Fail);
    assert_eq!(result.score, Score { num: 2, den: 3 });
    assert_eq!(
        result.rationale,
        "Only 2 unique channels found across 3 strategies, need at least 3"
    );
}

#[test]
fn lead_quality_below_threshold_fails() {
    let mut ctx = Context::new();
    for i in 0..4 {
        let content = if i < 3 { "ICP fit, because good, next call" } else { "cold lead" };
        ctx.add_fact(Fact::new(ContextKey::Strategies, &format!("lead-{i}"), content));
    }
    let result = lead_quality(&ctx);
    assert_eq!(result.outcome, EvalOutcome::Fail);
    assert_eq!(result.score, Score { num: 3, den: 4 });
    assert_eq!(result.rationale, "Only 3/4 leads (75.0%) meet quality criteria, need 80%");
    let empty = lead_quality(&Context::new());
    assert_eq!(empty.outcome, EvalOutcome::Indeterminate);
}

#[test]
fn lead_quality_at_exactly_eighty_percent_passes() {
    let mut ctx = Context::new();
    for i in 0..5 {
        let content = if i < 4 { "ICP fit, because good, next call" } else { "cold lead" };
        ctx.add_fact(Fact::new(ContextKey::Strategies, &format!("lead-{i}"), content));
    }
    let result = lead_quality(&ctx);
    assert_eq!(result.outcome, EvalOutcome::Pass);
    assert_eq!(result.rationale, "4/5 leads (80.0%) meet quality criteria");
}

#[test]
fn meeting_feasibility_checks_working_hours() {
    let eval = MeetingScheduleFeasibilityEval;
    let mut ctx = Context::new();
    ctx.add_fact(Fact::new(
        ContextKey::Constraints,
        "working-hours:policy",
        "Working hours: Common availability: Mon-Fri 10-16 UTC (all participants) | Minimum duration: 60 minutes",
    ));
    ctx.add_fact(Fact::new(ContextKey::Strategies, "slot:1", "Candidate slot 1: Mon 10:00 - Mon 11:00 (60 minutes)"));
    let result = eval.evaluate(&ctx);
    assert_eq!(result.outcome, EvalOutcome::Pass);
    assert_eq!(ratio(result.score), 1.0);
    assert_eq!(result.rationale, "All 1 meetings respect working hours");

    ctx.add_fact(Fact::new(ContextKey::Strategies, "slot:2", "Candidate slot 2: Tue 15:30 - Tue 16:30 (60 minutes)"));
    ctx.add_fact(Fact::new(ContextKey::Strategies, "slot:3", "Meeting at night"));
    let result = eval.evaluate(&ctx);
    assert_eq!(result.outcome, EvalOutcome::Fail);
    assert_eq!(result.score, Score { num: 1, den: 3 });
    assert_eq!(result.rationale, "Only 1/3 meetings respect working hours");
}

#[test]
fn meeting_feasibility_uses_the_stated_hours() {
    let eval = MeetingScheduleFeasibilityEval;
    let mut ctx = Context::new();
    ctx.add_fact(Fact::new(ContextKey::Constraints, "working-hours:default", "Working hours: Mon-Fri 9-17 UTC"));
    ctx.add_fact(Fact::new(ContextKey::Strategies, "slot:1", "Candidate slot 1: Mon 09:00 - Mon 17:00 (480 minutes)"));
    assert_eq!(eval.evaluate(&ctx).outcome, EvalOutcome::Pass);
    let mut none = Context::new();
    none.add_fact(Fact::new(ContextKey::Strategies, "slot:1", "Candidate slot 1: Mon 09:00 - Mon 10:00"));
    let r = eval.evaluate(&none);
    assert_eq!(r.outcome, EvalOutcome::Indeterminate);
    assert_eq!(r.rationale, "Working hours constraint not found");
}

#[test]
fn diversity_refuses_a_shared_channel() {
    let mut ctx = Context::new();
    ctx.add_fact(Fact::new(ContextKey::Strategies, "s1", "email campaign"));
    ctx.add_fact(Fact::new(ContextKey::Strategies, "s2", "email newsletter"));
    ctx.add_fact(Fact::new(ContextKey::Strategies, "s3", "social media outreach"));
    ctx.add_fact(Fact::new(ContextKey::Strategies, "s4", "content marketing"));
    let result = StrategyDiversityEval.evaluate(&ctx);
    assert_eq!(result.outcome, EvalOutcome::Fail);
    assert_eq!(result.score, Score { num: 3, den: 4 });
    assert_eq!(
        result.rationale,
        "Channel email is targeted by 2 strategies, need no two on the same primary channel"
    );
}
