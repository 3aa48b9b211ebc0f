//! Release readiness agents: quality gates and the go/no-go decision.
//!
//! ```text
//! Seeds (release candidate, dependencies)
//!    │
//!    ├─► DependencyGraphAgent → Signals (dependency analysis)
//!    ├─► TestCoverageAgent → Signals (coverage metrics)
//!    ├─► SecurityScanAgent → Signals (vulnerability reports)
//!    ├─► PerformanceRegressionAgent → Signals (performance metrics)
//!    └─► DocumentationAgent → Signals (docs status)
//!    │
//!    ▼
//! RiskSummaryAgent → Strategies (risk assessments)
//!    │
//!    ▼
//! ReleaseReadyAgent → Evaluations (go/no-go decision)
//! ```
use crate::agent::{
    any, broken, broken_at, count, count_by, exists_fact, find, id_has, id_prefix, is_first,
    lemma_find_none, lemma_first_unique, position, position_by, Agent, FactTest, Invariant,
    InvariantClass, InvariantResult, Verdict,
};
use crate::context::{
    fact_views, fv, keyed, push_fact, AgentEffect, Context, ContextKey, Fact, FactView,
};
use crate::text::{
    before, before_str, contains, dec, lemma_contains_after_prefix, lemma_prefix_of_concat, join, join_strings, last, parse_u32, parse_u32_str,
    push_dec, str_contains, str_starts_with, views, word_last, words,
};
use crate::agent::{lemma_added_fact, lemma_added_prefixed};
use vstd::prelude::*;

verus! {

/// The two signals of a quality check, when a seed names a release.
pub open spec fn check_facts(
    seeds: Seq<Fact>,
    id1: Seq<char>,
    c1: Seq<char>,
    id2: Seq<char>,
    c2: Seq<char>,
) -> Seq<FactView> {
    if any(seeds, id_has("release"@)) {
        seq![fv(ContextKey::Signals, id1, c1), fv(ContextKey::Signals, id2, c2)]
    } else {
        seq![]
    }
}

/// Emits the two signals of a quality check when a seed names a release.
fn emit_check(ctx: &Context, id1: &str, c1: &str, id2: &str, c2: &str) -> (r: AgentEffect)
    ensures
        r@ == check_facts(ctx.facts(ContextKey::Seeds), id1@, c1@, id2@, c2@),
{
    let mut facts: Vec<Fact> = Vec::new();
    if exists_fact(ctx.get(ContextKey::Seeds), FactTest::IdHas, "release") {
        push_fact(&mut facts, Fact::new(ContextKey::Signals, id1, c1));
        push_fact(&mut facts, Fact::new(ContextKey::Signals, id2, c2));
    }
    let r = AgentEffect::with_facts(facts);
    assert(r@ =~= check_facts(ctx.facts(ContextKey::Seeds), id1@, c1@, id2@, c2@));
    r
}

// ---------------------------------------------------------------------------
// Quality checks
// ---------------------------------------------------------------------------

/// Analyzes the dependency graph.
pub struct DependencyGraphAgent;

/// The dependency signals.
pub open spec fn dependency_facts(seeds: Seq<Fact>) -> Seq<FactView> {
    check_facts(
        seeds,
        "dependency:graph"@,
        "Dependency graph: 45 direct, 234 transitive | No circular deps | All pinned"@,
        "dependency:outdated"@,
        "Outdated deps: 2 minor updates available | No security patches needed"@,
    )
}

impl Agent for DependencyGraphAgent {
    fn name(&self) -> (r: &'static str)
        ensures
            r@ == "DependencyGraphAgent"@,
    {
        "DependencyGraphAgent"
    }

    fn dependencies(&self) -> (r: Vec<ContextKey>)
        ensures
            r@ == seq![ContextKey::Seeds],
    {
        vec![ContextKey::Seeds]
    }

    /// Runs when seeds exist and no dependency signal does.
    open spec fn runs_on(&self, ctx: Context) -> bool {
        (ctx.facts(ContextKey::Seeds).len() > 0 && !any(
            ctx.facts(ContextKey::Signals),
            id_prefix("dependency:"@),
        ))
    }

    fn accepts(&self, ctx: &Context) -> (r: bool) {
        ctx.has(ContextKey::Seeds) && !exists_fact(
            ctx.get(ContextKey::Signals),
            FactTest::IdPrefix,
            "dependency:",
        )
    }

    open spec fn proposes(&self, ctx: Context) -> Seq<FactView> {
        dependency_facts(ctx.facts(ContextKey::Seeds))
    }

    fn execute(&self, ctx: &Context) -> (r: AgentEffect) {
        emit_check(
            ctx,
            "dependency:graph",
            "Dependency graph: 45 direct, 234 transitive | No circular deps | All pinned",
            "dependency:outdated",
            "Outdated deps: 2 minor updates available | No security patches needed",
        )
    }
}

/// Reports test coverage.
pub struct TestCoverageAgent;

/// The coverage signals.
pub open spec fn coverage_facts(seeds: Seq<Fact>) -> Seq<FactView> {
    check_facts(
        seeds,
        "coverage:unit"@,
        "Unit test coverage: 87% | 1,234 tests | All passing"@,
        "coverage:integration"@,
        "Integration test coverage: 72% | 89 tests | All passing"@,
    )
}

impl Agent for TestCoverageAgent {
    fn name(&self) -> (r: &'static str)
        ensures
            r@ == "TestCoverageAgent"@,
    {
        "TestCoverageAgent"
    }

    fn dependencies(&self) -> (r: Vec<ContextKey>)
        ensures
            r@ == seq![ContextKey::Seeds],
    {
        vec![ContextKey::Seeds]
    }

    /// Runs when seeds exist and no coverage signal does.
    open spec fn runs_on(&self, ctx: Context) -> bool {
        (ctx.facts(ContextKey::Seeds).len() > 0 && !any(
            ctx.facts(ContextKey::Signals),
            id_prefix("coverage:"@),
        ))
    }

    fn accepts(&self, ctx: &Context) -> (r: bool) {
        ctx.has(ContextKey::Seeds) && !exists_fact(
            ctx.get(ContextKey::Signals),
            FactTest::IdPrefix,
            "coverage:",
        )
    }

    open spec fn proposes(&self, ctx: Context) -> Seq<FactView> {
        coverage_facts(ctx.facts(ContextKey::Seeds))
    }

    fn execute(&self, ctx: &Context) -> (r: AgentEffect) {
        emit_check(
            ctx,
            "coverage:unit",
            "Unit test coverage: 87% | 1,234 tests | All passing",
            "coverage:integration",
            "Integration test coverage: 72% | 89 tests | All passing",
        )
    }
}

/// Scans for security vulnerabilities.
pub struct SecurityScanAgent;

/// The security signals.
pub open spec fn security_facts(seeds: Seq<Fact>) -> Seq<FactView> {
    check_facts(
        seeds,
        "security:vulnerabilities"@,
        "Security scan: 0 critical, 2 medium, 5 low | All in dev deps only"@,
        "security:licenses"@,
        "License check: All compatible | No GPL dependencies"@,
    )
}

impl Agent for SecurityScanAgent {
    fn name(&self) -> (r: &'static str)
        ensures
            r@ == "SecurityScanAgent"@,
    {
        "SecurityScanAgent"
    }

    fn dependencies(&self) -> (r: Vec<ContextKey>)
        ensures
            r@ == seq![ContextKey::Seeds],
    {
        vec![ContextKey::Seeds]
    }

    /// Runs when seeds exist and no security signal does.
    open spec fn runs_on(&self, ctx: Context) -> bool {
        (ctx.facts(ContextKey::Seeds).len() > 0 && !any(
            ctx.facts(ContextKey::Signals),
            id_prefix("security:"@),
        ))
    }

    fn accepts(&self, ctx: &Context) -> (r: bool) {
        ctx.has(ContextKey::Seeds) && !exists_fact(
            ctx.get(ContextKey::Signals),
            FactTest::IdPrefix,
            "security:",
        )
    }

    open spec fn proposes(&self, ctx: Context) -> Seq<FactView> {
        security_facts(ctx.facts(ContextKey::Seeds))
    }

    fn execute(&self, ctx: &Context) -> (r: AgentEffect) {
        emit_check(
            ctx,
            "security:vulnerabilities",
            "Security scan: 0 critical, 2 medium, 5 low | All in dev deps only",
            "security:licenses",
            "License check: All compatible | No GPL dependencies",
        )
    }
}

/// Checks for performance regressions.
pub struct PerformanceRegressionAgent;

/// The performance signals.
pub open spec fn performance_facts(seeds: Seq<Fact>) -> Seq<FactView> {
    check_facts(
        seeds,
        "performance:benchmarks"@,
        "Benchmarks: All within 5% of baseline | No regressions detected"@,
        "performance:memory"@,
        "Memory usage: Stable | No leaks detected"@,
    )
}

impl Agent for PerformanceRegressionAgent {
    fn name(&self) -> (r: &'static str)
        ensures
            r@ == "PerformanceRegressionAgent"@,
    {
        "PerformanceRegressionAgent"
    }

    fn dependencies(&self) -> (r: Vec<ContextKey>)
        ensures
            r@ == seq![ContextKey::Seeds],
    {
        vec![ContextKey::Seeds]
    }

    /// Runs when seeds exist and no performance signal does.
    open spec fn runs_on(&self, ctx: Context) -> bool {
        (ctx.facts(ContextKey::Seeds).len() > 0 && !any(
            ctx.facts(ContextKey::Signals),
            id_prefix("performance:"@),
        ))
    }

    fn accepts(&self, ctx: &Context) -> (r: bool) {
        ctx.has(ContextKey::Seeds) && !exists_fact(
            ctx.get(ContextKey::Signals),
            FactTest::IdPrefix,
            "performance:",
        )
    }

    open spec fn proposes(&self, ctx: Context) -> Seq<FactView> {
        performance_facts(ctx.facts(ContextKey::Seeds))
    }

    fn execute(&self, ctx: &Context) -> (r: AgentEffect) {
        emit_check(
            ctx,
            "performance:benchmarks",
            "Benchmarks: All within 5% of baseline | No regressions detected",
            "performance:memory",
            "Memory usage: Stable | No leaks detected",
        )
    }
}

/// Checks the documentation.
pub struct DocumentationAgent;

/// The documentation signals.
pub open spec fn docs_facts(seeds: Seq<Fact>) -> Seq<FactView> {
    check_facts(
        seeds,
        "docs:api"@,
        "API docs: 95% coverage | All public APIs documented"@,
        "docs:changelog"@,
        "Changelog: Updated | Breaking changes documented"@,
    )
}

impl Agent for DocumentationAgent {
    fn name(&self) -> (r: &'static str)
        ensures
            r@ == "DocumentationAgent"@,
    {
        "DocumentationAgent"
    }

    fn dependencies(&self) -> (r: Vec<ContextKey>)
        ensures
            r@ == seq![ContextKey::Seeds],
    {
        vec![ContextKey::Seeds]
    }

    /// Runs when seeds exist and no documentation signal does.
    open spec fn runs_on(&self, ctx: Context) -> bool {
        (ctx.facts(ContextKey::Seeds).len() > 0 && !any(
            ctx.facts(ContextKey::Signals),
            id_prefix("docs:"@),
        ))
    }

    fn accepts(&self, ctx: &Context) -> (r: bool) {
        ctx.has(ContextKey::Seeds) && !exists_fact(
            ctx.get(ContextKey::Signals),
            FactTest::IdPrefix,
            "docs:",
        )
    }

    open spec fn proposes(&self, ctx: Context) -> Seq<FactView> {
        docs_facts(ctx.facts(ContextKey::Seeds))
    }

    fn execute(&self, ctx: &Context) -> (r: AgentEffect) {
        emit_check(
            ctx,
            "docs:api",
            "API docs: 95% coverage | All public APIs documented",
            "docs:changelog",
            "Changelog: Updated | Breaking changes documented",
        )
    }
}

// ---------------------------------------------------------------------------
// Risk summary
// ---------------------------------------------------------------------------

/// Summarizes the checks into a release risk.
pub struct RiskSummaryAgent;

/// Signals that mention a critical issue.
pub open spec fn mentions_critical() -> spec_fn(Fact) -> bool {
    |f: Fact| contains(f.content@, "critical"@) || contains(f.content@, "Critical"@)
}

/// Signals that mention a warning.
pub open spec fn mentions_warning() -> spec_fn(Fact) -> bool {
    |f: Fact| contains(f.content@, "warning"@) || contains(f.content@, "Warning"@)
}

/// Signals that report critical vulnerabilities.
pub open spec fn critical_vulnerability() -> spec_fn(Fact) -> bool {
    |f: Fact| contains(f.content@, "vulnerabilities"@) && contains(f.content@, "critical"@)
}

/// Signals that report failing tests.
pub open spec fn test_failure() -> spec_fn(Fact) -> bool {
    |f: Fact| contains(f.content@, "failing"@) || contains(f.content@, "failed"@)
}

/// Signals that report a performance regression.
pub open spec fn perf_regression() -> spec_fn(Fact) -> bool {
    |f: Fact| contains(f.content@, "regression"@) && contains(f.content@, "performance"@)
}

fn is_critical_mention(f: &Fact) -> (r: bool)
    ensures
        r == mentions_critical()(*f),
{
    str_contains(f.content.as_str(), "critical") || str_contains(f.content.as_str(), "Critical")
}

fn is_warning_mention(f: &Fact) -> (r: bool)
    ensures
        r == mentions_warning()(*f),
{
    str_contains(f.content.as_str(), "warning") || str_contains(f.content.as_str(), "Warning")
}

fn is_critical_vulnerability(f: &Fact) -> (r: bool)
    ensures
        r == critical_vulnerability()(*f),
{
    str_contains(f.content.as_str(), "vulnerabilities") && str_contains(
        f.content.as_str(),
        "critical",
    )
}

fn is_test_failure(f: &Fact) -> (r: bool)
    ensures
        r == test_failure()(*f),
{
    str_contains(f.content.as_str(), "failing") || str_contains(f.content.as_str(), "failed")
}

fn is_perf_regression(f: &Fact) -> (r: bool)
    ensures
        r == perf_regression()(*f),
{
    str_contains(f.content.as_str(), "regression") && str_contains(
        f.content.as_str(),
        "performance",
    )
}

/// The release risk: high on any critical issue, vulnerability or test
/// failure; medium on more than two warnings or a performance regression;
/// else low.
pub open spec fn release_risk(signals: Seq<Fact>) -> Seq<char> {
    if count(signals, mentions_critical()) > 0 || any(signals, critical_vulnerability()) || any(
        signals,
        test_failure(),
    ) {
        "HIGH"@
    } else if count(signals, mentions_warning()) > 2 || any(signals, perf_regression()) {
        "MEDIUM"@
    } else {
        "LOW"@
    }
}

/// The risk summary.
pub open spec fn risk_summary_fact(signals: Seq<Fact>) -> FactView {
    let level = release_risk(signals);
    fv(
        ContextKey::Strategies,
        "risk:summary"@,
        "Risk Assessment: "@ + level + " | Critical: "@ + dec(count(signals, mentions_critical()))
            + " | Warnings: "@ + dec(count(signals, mentions_warning())) + " | Status: "@ + (if level
            == "HIGH"@ {
            "BLOCKED"@
        } else if level == "MEDIUM"@ {
            "REVIEW"@
        } else {
            "CLEAR"@
        }),
    )
}

impl Agent for RiskSummaryAgent {
    fn name(&self) -> (r: &'static str)
        ensures
            r@ == "RiskSummaryAgent"@,
    {
        "RiskSummaryAgent"
    }

    fn dependencies(&self) -> (r: Vec<ContextKey>)
        ensures
            r@ == seq![ContextKey::Signals],
    {
        vec![ContextKey::Signals]
    }

    /// Runs once: when every check has reported and no strategy exists.
    open spec fn runs_on(&self, ctx: Context) -> bool {
        (any(ctx.facts(ContextKey::Signals), id_prefix("dependency:"@)) && any(
            ctx.facts(ContextKey::Signals),
            id_prefix("coverage:"@),
        ) && any(ctx.facts(ContextKey::Signals), id_prefix("security:"@)) && any(
            ctx.facts(ContextKey::Signals),
            id_prefix("performance:"@),
        ) && any(ctx.facts(ContextKey::Signals), id_prefix("docs:"@)) && ctx.facts(
            ContextKey::Strategies,
        ).len() == 0)
    }

    fn accepts(&self, ctx: &Context) -> (r: bool) {
        let signals = ctx.get(ContextKey::Signals);
        exists_fact(signals, FactTest::IdPrefix, "dependency:") && exists_fact(
            signals,
            FactTest::IdPrefix,
            "coverage:",
        ) && exists_fact(signals, FactTest::IdPrefix, "security:") && exists_fact(
            signals,
            FactTest::IdPrefix,
            "performance:",
        ) && exists_fact(signals, FactTest::IdPrefix, "docs:") && !ctx.has(ContextKey::Strategies)
    }

    open spec fn proposes(&self, ctx: Context) -> Seq<FactView> {
        seq![risk_summary_fact(ctx.facts(ContextKey::Signals))]
    }

    fn execute(&self, ctx: &Context) -> (r: AgentEffect) {
        let signals = ctx.get(ContextKey::Signals);
        let critical = count_by(signals, is_critical_mention, Ghost(mentions_critical()));
        let warnings = count_by(signals, is_warning_mention, Ghost(mentions_warning()));
        let vulnerable = position_by(
            signals,
            is_critical_vulnerability,
            Ghost(critical_vulnerability()),
        ).is_some();
        let failing = position_by(signals, is_test_failure, Ghost(test_failure())).is_some();
        let regressed = position_by(signals, is_perf_regression, Ghost(perf_regression())).is_some();
        let level = if critical > 0 || vulnerable || failing {
            "HIGH"
        } else if warnings > 2 || regressed {
            "MEDIUM"
        } else {
            "LOW"
        };
        let status = if critical > 0 || vulnerable || failing {
            "BLOCKED"
        } else if warnings > 2 || regressed {
            "REVIEW"
        } else {
            "CLEAR"
        };
        let mut c = String::from_str("Risk Assessment: ");
        c.append(level);
        c.append(" | Critical: ");
        push_dec(&mut c, critical as u128);
        c.append(" | Warnings: ");
        push_dec(&mut c, warnings as u128);
        c.append(" | Status: ");
        c.append(status);
        proof {
            reveal_strlit("HIGH");
            reveal_strlit("MEDIUM");
            reveal_strlit("LOW");
            assert("MEDIUM"@ != "HIGH"@) by {
                assert("MEDIUM"@.len() != "HIGH"@.len());
            }
            assert("LOW"@ != "HIGH"@) by {
                assert("LOW"@[0] != "HIGH"@[0]);
            }
            assert("LOW"@ != "MEDIUM"@) by {
                assert("LOW"@.len() != "MEDIUM"@.len());
            }
        }
        let mut facts: Vec<Fact> = Vec::new();
        push_fact(
            &mut facts,
            Fact::from_strings(ContextKey::Strategies, String::from_str("risk:summary"), c),
        );
        let r = AgentEffect::with_facts(facts);
        assert(r@ =~= seq![risk_summary_fact(signals@)]);
        r
    }
}

// ---------------------------------------------------------------------------
// Release decision
// ---------------------------------------------------------------------------

/// Makes the go/no-go decision.
pub struct ReleaseReadyAgent;

/// The content of the first risk summary, or nothing.
pub open spec fn risk_summary_text(strategies: Seq<Fact>) -> Seq<char> {
    match find(strategies, id_prefix("risk:"@)) {
        Some(s) => s.content@,
        None => seq![],
    }
}

/// The release is ready unless the risk summary says blocked or high.
pub open spec fn release_ready(strategies: Seq<Fact>) -> bool {
    let summary = risk_summary_text(strategies);
    !contains(summary, "BLOCKED"@) && !contains(summary, "HIGH"@)
}

/// The release decision.
pub open spec fn release_decision(strategies: Seq<Fact>) -> FactView {
    fv(
        ContextKey::Evaluations,
        "eval:release-readiness"@,
        if release_ready(strategies) {
            "Status: READY | Rationale: All checks passed | No critical risks | Ready for release"@
        } else {
            "Status: BLOCKED | Rationale: Critical issues detected | Release blocked until resolved"@
        },
    )
}

impl Agent for ReleaseReadyAgent {
    fn name(&self) -> (r: &'static str)
        ensures
            r@ == "ReleaseReadyAgent"@,
    {
        "ReleaseReadyAgent"
    }

    fn dependencies(&self) -> (r: Vec<ContextKey>)
        ensures
            r@ == seq![ContextKey::Strategies],
    {
        vec![ContextKey::Strategies]
    }

    /// Runs once: when strategies exist and no evaluation does.
    open spec fn runs_on(&self, ctx: Context) -> bool {
        (ctx.facts(ContextKey::Strategies).len() > 0 && ctx.facts(
            ContextKey::Evaluations,
        ).len() == 0)
    }

    fn accepts(&self, ctx: &Context) -> (r: bool) {
        ctx.has(ContextKey::Strategies) && !ctx.has(ContextKey::Evaluations)
    }

    open spec fn proposes(&self, ctx: Context) -> Seq<FactView> {
        seq![release_decision(ctx.facts(ContextKey::Strategies))]
    }

    fn execute(&self, ctx: &Context) -> (r: AgentEffect) {
        let strategies = ctx.get(ContextKey::Strategies);
        let ready = match position(strategies, FactTest::IdPrefix, "risk:") {
            Some(k) => {
                let s = strategies[k].content.as_str();
                !str_contains(s, "BLOCKED") && !str_contains(s, "HIGH")
            },
            None => {
                proof {
                    reveal_strlit("BLOCKED");
                    reveal_strlit("HIGH");
                    assert(!contains(Seq::<char>::empty(), "BLOCKED"@));
                    assert(!contains(Seq::<char>::empty(), "HIGH"@));
                }
                true
            },
        };
        let content = if ready {
            "Status: READY | Rationale: All checks passed | No critical risks | Ready for release"
        } else {
            "Status: BLOCKED | Rationale: Critical issues detected | Release blocked until resolved"
        };
        let mut facts: Vec<Fact> = Vec::new();
        push_fact(
            &mut facts,
            Fact::new(ContextKey::Evaluations, "eval:release-readiness", content),
        );
        let r = AgentEffect::with_facts(facts);
        assert(r@ =~= seq![release_decision(strategies@)]);
        r
    }
}

// ---------------------------------------------------------------------------
// Invariants
// ---------------------------------------------------------------------------

/// Acceptance: every quality check has reported.
pub struct RequireAllChecksComplete;

/// The checks that have not reported, in the order dependency, coverage,
/// security, performance, docs.
pub open spec fn missing_checks(signals: Seq<Fact>) -> Seq<Seq<char>> {
    (if !any(signals, id_prefix("dependency:"@)) {
        seq!["dependency"@]
    } else {
        seq![]
    }) + (if !any(signals, id_prefix("coverage:"@)) {
        seq!["coverage"@]
    } else {
        seq![]
    }) + (if !any(signals, id_prefix("security:"@)) {
        seq!["security"@]
    } else {
        seq![]
    }) + (if !any(signals, id_prefix("performance:"@)) {
        seq!["performance"@]
    } else {
        seq![]
    }) + (if !any(signals, id_prefix("docs:"@)) {
        seq!["docs"@]
    } else {
        seq![]
    })
}

pub open spec fn checks_verdict(signals: Seq<Fact>) -> Verdict {
    let missing = missing_checks(signals);
    if missing.len() > 0 {
        broken("missing required checks: "@ + join(missing, ", "@))
    } else {
        Verdict::Pass
    }
}

impl Invariant for RequireAllChecksComplete {
    fn name(&self) -> (r: &'static str)
        ensures
            r@ == "require_all_checks_complete"@,
    {
        "require_all_checks_complete"
    }

    fn class(&self) -> (r: InvariantClass)
        ensures
            r == InvariantClass::Acceptance,
    {
        InvariantClass::Acceptance
    }

    open spec fn verdict(&self, ctx: Context) -> Verdict {
        checks_verdict(ctx.facts(ContextKey::Signals))
    }

    fn check(&self, ctx: &Context) -> (r: InvariantResult) {
        let signals = ctx.get(ContextKey::Signals);
        let mut missing: Vec<String> = Vec::new();
        if !exists_fact(signals, FactTest::IdPrefix, "dependency:") {
            missing.push(String::from_str("dependency"));
        }
        if !exists_fact(signals, FactTest::IdPrefix, "coverage:") {
            missing.push(String::from_str("coverage"));
        }
        if !exists_fact(signals, FactTest::IdPrefix, "security:") {
            missing.push(String::from_str("security"));
        }
        if !exists_fact(signals, FactTest::IdPrefix, "performance:") {
            missing.push(String::from_str("performance"));
        }
        if !exists_fact(signals, FactTest::IdPrefix, "docs:") {
            missing.push(String::from_str("docs"));
        }
        assert(views(missing@) =~= missing_checks(signals@));
        if missing.len() > 0 {
            let mut reason = String::from_str("missing required checks: ");
            let joined = join_strings(&missing, ", ");
            reason.append(joined.as_str());
            return InvariantResult::violated(reason);
        }
        InvariantResult::Holds
    }
}

/// Structural: no security report lists a critical vulnerability.
pub struct RequireNoCriticalVulnerabilities;

/// Security reports that mention critical issues other than "0 critical".
pub open spec fn critical_report() -> spec_fn(Fact) -> bool {
    |f: Fact|
        "security:"@.is_prefix_of(f.id@) && contains(f.content@, "critical"@) && !contains(
            f.content@,
            "0 critical"@,
        )
}

fn is_critical_report(f: &Fact) -> (r: bool)
    ensures
        r == critical_report()(*f),
{
    str_starts_with(f.id.as_str(), "security:") && str_contains(f.content.as_str(), "critical")
        && !str_contains(f.content.as_str(), "0 critical")
}

pub open spec fn vulnerability_verdict(signals: Seq<Fact>) -> Verdict {
    match find(signals, critical_report()) {
        Some(s) => broken_at("critical security vulnerabilities detected"@, s.id@),
        None => Verdict::Pass,
    }
}

impl Invariant for RequireNoCriticalVulnerabilities {
    fn name(&self) -> (r: &'static str)
        ensures
            r@ == "require_no_critical_vulnerabilities"@,
    {
        "require_no_critical_vulnerabilities"
    }

    fn class(&self) -> (r: InvariantClass)
        ensures
            r == InvariantClass::Structure,
    {
        InvariantClass::Structure
    }

    open spec fn verdict(&self, ctx: Context) -> Verdict {
        vulnerability_verdict(ctx.facts(ContextKey::Signals))
    }

    fn check(&self, ctx: &Context) -> (r: InvariantResult) {
        let signals = ctx.get(ContextKey::Signals);
        match position_by(signals, is_critical_report, Ghost(critical_report())) {
            Some(k) => InvariantResult::violated_at(
                String::from_str("critical security vulnerabilities detected"),
                signals[k].id.clone(),
            ),
            None => InvariantResult::Holds,
        }
    }
}

/// Semantic: every coverage report states at least 70%.
pub struct RequireMinimumCoverage;

/// The coverage a report states: the last word before the first `%`, if it
/// is a number.
pub open spec fn stated_coverage(content: Seq<char>) -> Option<nat> {
    match last(words(before(content, "%"@))) {
        Some(w) => parse_u32(w),
        None => None,
    }
}

/// Coverage reports below 70%.
pub open spec fn low_coverage() -> spec_fn(Fact) -> bool {
    |f: Fact|
        "coverage:"@.is_prefix_of(f.id@) && match stated_coverage(f.content@) {
            Some(c) => c < 70,
            None => false,
        }
}

pub open spec fn coverage_verdict(signals: Seq<Fact>) -> Verdict {
    match find(signals, low_coverage()) {
        Some(s) => broken_at(
            "coverage "@ + dec(stated_coverage(s.content@)->0) + "% below minimum threshold of 70%"@,
            s.id@,
        ),
        None => Verdict::Pass,
    }
}

/// The coverage a report states.
fn read_coverage(content: &str) -> (r: Option<u32>)
    ensures
        match r {
            Some(v) => stated_coverage(content@) == Some(v as nat),
            None => stated_coverage(content@) is None,
        },
{
    proof {
        reveal_strlit("%");
    }
    let head = before_str(content, "%");
    match word_last(head.as_str()) {
        Some(w) => parse_u32_str(w.as_str()),
        None => None,
    }
}

impl Invariant for RequireMinimumCoverage {
    fn name(&self) -> (r: &'static str)
        ensures
            r@ == "require_minimum_coverage"@,
    {
        "require_minimum_coverage"
    }

    fn class(&self) -> (r: InvariantClass)
        ensures
            r == InvariantClass::Semantic,
    {
        InvariantClass::Semantic
    }

    open spec fn verdict(&self, ctx: Context) -> Verdict {
        coverage_verdict(ctx.facts(ContextKey::Signals))
    }

    #[verifier::loop_isolation(false)]
    fn check(&self, ctx: &Context) -> (r: InvariantResult) {
        let signals = ctx.get(ContextKey::Signals);
        let ghost pred = low_coverage();
        let n = signals.len();
        let mut i: usize = 0;
        while i < n
            invariant
                n == signals.len(),
                i <= n,
                pred == low_coverage(),
                forall|j: int| 0 <= j < i ==> !pred(#[trigger] signals@[j]),
            decreases n - i,
        {
            let s = &signals[i];
            if str_starts_with(s.id.as_str(), "coverage:") {
                match read_coverage(s.content.as_str()) {
                    Some(c) => {
                        if c < 70 {
                            proof {
                                assert(pred(signals@[i as int]));
                                assert(is_first(signals@, pred, i as int));
                                let k = choose|k: int| is_first(signals@, pred, k);
                                lemma_first_unique(signals@, pred, i as int, k);
                            }
                            let mut reason = String::from_str("coverage ");
                            push_dec(&mut reason, c as u128);
                            reason.append("% below minimum threshold of 70%");
                            return InvariantResult::violated_at(reason, s.id.clone());
                        }
                    },
                    None => {},
                }
            }
            i = i + 1;
        }
        proof {
            lemma_find_none(signals@, pred);
        }
        InvariantResult::Holds
    }
}

// ---------------------------------------------------------------------------
// Laws: each agent runs once
// ---------------------------------------------------------------------------

/// Law: the dependency-graph agent runs once when a seed names a release.
pub proof fn lemma_dependency_graph_runs_once(ctx: Context, next: Context)
    requires
        DependencyGraphAgent.runs_on(ctx),
        next.extends(ctx, DependencyGraphAgent.proposes(ctx)),
        any(ctx.facts(ContextKey::Seeds), id_has("release"@)),
    ensures
        !DependencyGraphAgent.runs_on(next),
{
    reveal_strlit("dependency:graph");
    reveal_strlit("dependency:");
    assert("dependency:"@.is_prefix_of("dependency:graph"@));
    lemma_added_prefixed(ctx, next, DependencyGraphAgent.proposes(ctx), 0, "dependency:"@);
}

/// Law: the test-coverage agent runs once when a seed names a release.
pub proof fn lemma_test_coverage_runs_once(ctx: Context, next: Context)
    requires
        TestCoverageAgent.runs_on(ctx),
        next.extends(ctx, TestCoverageAgent.proposes(ctx)),
        any(ctx.facts(ContextKey::Seeds), id_has("release"@)),
    ensures
        !TestCoverageAgent.runs_on(next),
{
    reveal_strlit("coverage:unit");
    reveal_strlit("coverage:");
    assert("coverage:"@.is_prefix_of("coverage:unit"@));
    lemma_added_prefixed(ctx, next, TestCoverageAgent.proposes(ctx), 0, "coverage:"@);
}

/// Law: the security-scan agent runs once when a seed names a release.
pub proof fn lemma_security_scan_runs_once(ctx: Context, next: Context)
    requires
        SecurityScanAgent.runs_on(ctx),
        next.extends(ctx, SecurityScanAgent.proposes(ctx)),
        any(ctx.facts(ContextKey::Seeds), id_has("release"@)),
    ensures
        !SecurityScanAgent.runs_on(next),
{
    reveal_strlit("security:vulnerabilities");
    reveal_strlit("security:");
    assert("security:"@.is_prefix_of("security:vulnerabilities"@));
    lemma_added_prefixed(ctx, next, SecurityScanAgent.proposes(ctx), 0, "security:"@);
}

/// Law: the performance-regression agent runs once when a seed names a release.
pub proof fn lemma_performance_regression_runs_once(ctx: Context, next: Context)
    requires
        PerformanceRegressionAgent.runs_on(ctx),
        next.extends(ctx, PerformanceRegressionAgent.proposes(ctx)),
        any(ctx.facts(ContextKey::Seeds), id_has("release"@)),
    ensures
        !PerformanceRegressionAgent.runs_on(next),
{
    reveal_strlit("performance:benchmarks");
    reveal_strlit("performance:");
    assert("performance:"@.is_prefix_of("performance:benchmarks"@));
    lemma_added_prefixed(ctx, next, PerformanceRegressionAgent.proposes(ctx), 0, "performance:"@);
}

/// Law: the documentation agent runs once when a seed names a release.
pub proof fn lemma_documentation_runs_once(ctx: Context, next: Context)
    requires
        DocumentationAgent.runs_on(ctx),
        next.extends(ctx, DocumentationAgent.proposes(ctx)),
        any(ctx.facts(ContextKey::Seeds), id_has("release"@)),
    ensures
        !DocumentationAgent.runs_on(next),
{
    reveal_strlit("docs:api");
    reveal_strlit("docs:");
    assert("docs:"@.is_prefix_of("docs:api"@));
    lemma_added_prefixed(ctx, next, DocumentationAgent.proposes(ctx), 0, "docs:"@);
}

/// Law: the risk-summary agent runs once.
pub proof fn lemma_risk_summary_runs_once(ctx: Context, next: Context)
    requires
        RiskSummaryAgent.runs_on(ctx),
        next.extends(ctx, RiskSummaryAgent.proposes(ctx)),
    ensures
        !RiskSummaryAgent.runs_on(next),
{
    lemma_added_fact(ctx, next, RiskSummaryAgent.proposes(ctx), 0);
}

/// Law: the release-ready agent runs once.
pub proof fn lemma_release_ready_runs_once(ctx: Context, next: Context)
    requires
        ReleaseReadyAgent.runs_on(ctx),
        next.extends(ctx, ReleaseReadyAgent.proposes(ctx)),
    ensures
        !ReleaseReadyAgent.runs_on(next),
{
    lemma_added_fact(ctx, next, ReleaseReadyAgent.proposes(ctx), 0);
}

/// Law: failing tests make the release risk high. When any signal reports
/// failing or failed tests, the risk summary reads HIGH and ends in status
/// BLOCKED, whatever else the checks report.
pub proof fn lemma_test_failures_raise_risk(ctx: Context, i: int)
    requires
        0 <= i < ctx.facts(ContextKey::Signals).len(),
        contains(ctx.facts(ContextKey::Signals)[i].content@, "failing"@) || contains(
            ctx.facts(ContextKey::Signals)[i].content@,
            "failed"@,
        ),
    ensures
        RiskSummaryAgent.proposes(ctx).len() == 1,
        RiskSummaryAgent.proposes(ctx)[0].key == ContextKey::Strategies,
        RiskSummaryAgent.proposes(ctx)[0].id == "risk:summary"@,
        "Risk Assessment: HIGH | Critical: "@.is_prefix_of(RiskSummaryAgent.proposes(ctx)[0].content),
        " | Status: BLOCKED"@.is_suffix_of(RiskSummaryAgent.proposes(ctx)[0].content),
{
    let signals = ctx.facts(ContextKey::Signals);
    assert(test_failure()(signals[i]));
    assert(any(signals, test_failure()));
    assert(release_risk(signals) == "HIGH"@);
    let c = risk_summary_fact(signals).content;
    let mid = dec(count(signals, mentions_critical())) + " | Warnings: "@ + dec(
        count(signals, mentions_warning()),
    );
    reveal_strlit("Risk Assessment: ");
    reveal_strlit("HIGH");
    reveal_strlit(" | Critical: ");
    reveal_strlit(" | Status: ");
    reveal_strlit("BLOCKED");
    reveal_strlit("Risk Assessment: HIGH | Critical: ");
    reveal_strlit(" | Status: BLOCKED");
    let head = "Risk Assessment: HIGH | Critical: "@;
    let tail = " | Status: BLOCKED"@;
    assert(c =~= head + (mid + tail));
    lemma_prefix_of_concat(head, mid + tail);
    assert(c =~= (head + mid) + tail);
    assert(c.subrange(c.len() - tail.len(), c.len() as int) =~= tail);
}

/// Law: a release with failing tests is blocked. Once the risk summary of
/// checks where some signal reports failing or failed tests is recorded, the
/// release decision is BLOCKED.
pub proof fn lemma_test_failures_block_release(ctx: Context, next: Context, i: int)
    requires
        0 <= i < ctx.facts(ContextKey::Signals).len(),
        contains(ctx.facts(ContextKey::Signals)[i].content@, "failing"@) || contains(
            ctx.facts(ContextKey::Signals)[i].content@,
            "failed"@,
        ),
        RiskSummaryAgent.runs_on(ctx),
        next.extends(ctx, RiskSummaryAgent.proposes(ctx)),
    ensures
        ReleaseReadyAgent.proposes(next) == seq![
            fv(
                ContextKey::Evaluations,
                "eval:release-readiness"@,
                "Status: BLOCKED | Rationale: Critical issues detected | Release blocked until resolved"@,
            ),
        ],
{
    lemma_test_failures_raise_risk(ctx, i);
    lemma_summary_recorded(ctx, next);
    lemma_blocked_summary_blocks(next.facts(ContextKey::Strategies));
}

/// After the risk summary is recorded, it is the only strategy.
proof fn lemma_summary_recorded(ctx: Context, next: Context)
    requires
        RiskSummaryAgent.runs_on(ctx),
        next.extends(ctx, RiskSummaryAgent.proposes(ctx)),
    ensures
        next.facts(ContextKey::Strategies).len() == 1,
        next.facts(ContextKey::Strategies)[0]@ == RiskSummaryAgent.proposes(ctx)[0],
{
    let added = RiskSummaryAgent.proposes(ctx);
    let strategies = next.facts(ContextKey::Strategies);
    assert(added.filter(keyed(ContextKey::Strategies)) =~= added) by {
        reveal_with_fuel(Seq::filter, 2);
        assert(added.drop_last() =~= Seq::<FactView>::empty());
    }
    assert(fact_views(strategies) == fact_views(ctx.facts(ContextKey::Strategies)) + added.filter(
        keyed(ContextKey::Strategies),
    ));
    assert(fact_views(ctx.facts(ContextKey::Strategies)) =~= Seq::<FactView>::empty());
    assert(fact_views(strategies) =~= added);
    assert(fact_views(strategies)[0] == strategies[0]@);
}

/// A lone risk summary that ends in status BLOCKED blocks the release.
proof fn lemma_blocked_summary_blocks(strategies: Seq<Fact>)
    requires
        strategies.len() == 1,
        strategies[0].id@ == "risk:summary"@,
        " | Status: BLOCKED"@.is_suffix_of(strategies[0].content@),
    ensures
        !release_ready(strategies),
{
    reveal_strlit("risk:");
    reveal_strlit("risk:summary");
    assert("risk:"@.is_prefix_of(strategies[0].id@));
    assert(is_first(strategies, id_prefix("risk:"@), 0));
    let k = choose|k: int| is_first(strategies, id_prefix("risk:"@), k);
    lemma_first_unique(strategies, id_prefix("risk:"@), 0, k);
    let c = strategies[0].content@;
    assert(risk_summary_text(strategies) == c);
    reveal_strlit(" | Status: BLOCKED");
    reveal_strlit(" | Status: ");
    reveal_strlit("BLOCKED");
    let tail = " | Status: BLOCKED"@;
    assert(tail =~= " | Status: "@ + "BLOCKED"@);
    let front = c.subrange(0, c.len() - tail.len());
    assert(c.subrange(c.len() - tail.len(), c.len() as int) =~= tail);
    assert(c =~= front + tail);
    assert(c =~= (front + " | Status: "@) + "BLOCKED"@);
    lemma_contains_after_prefix(front + " | Status: "@, "BLOCKED"@);
}

} // verus!
