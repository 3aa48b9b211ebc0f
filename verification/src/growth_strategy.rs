//! Growth strategy agents for market analysis.
//!
//! ```text
//! Seeds (market, product)
//!    │
//!    ▼
//! MarketSignalAgent → Signals (market observations)
//!    │
//!    ▼
//! CompetitorAgent → Competitors (competitor profiles)
//!    │
//!    ▼
//! StrategyAgent → Strategies (proposed strategies)
//!    │
//!    ▼
//! EvaluationAgent → Evaluations (ranked strategies)
//! ```
use crate::agent::{
    any, broken, broken_at, content_has, exists_fact, find, id_has, is_first, lemma_added_fact,
    lemma_find_none, lemma_first_unique, Agent, FactTest, Invariant, InvariantClass,
    InvariantResult, Verdict,
};
use crate::context::{
    fact_views, fv, keyed, lemma_filter_all, AgentEffect, Context, ContextKey, Fact, FactView,
};
use crate::rank::{rank_label, rank_label_str};
use crate::text::{
    contains, dec, lemma_contains_after_prefix, lowercase, push_dec, str_contains, strip_prefix_or, strip_prefix_or_str,
    to_lowercase,
};
use vstd::prelude::*;

verus! {

/// Observes seeds and emits market signals.
pub struct MarketSignalAgent;

/// The market signals derived from the seeds.
pub open spec fn market_signals(seeds: Seq<Fact>) -> Seq<FactView> {
    let nordic = any(seeds, content_has("Nordic"@));
    let b2b = any(seeds, content_has("B2B"@));
    if !nordic && !b2b {
        seq![fv(ContextKey::Signals, "signal:baseline"@, "Market conditions stable"@)]
    } else {
        (if nordic {
            seq![
                fv(ContextKey::Signals, "signal:nordic-growth"@, "Nordic SaaS market growing 15% YoY"@),
                fv(ContextKey::Signals, "signal:nordic-competition"@, "3 major competitors in Nordic region"@),
            ]
        } else {
            seq![]
        }) + (if b2b {
            seq![
                fv(ContextKey::Signals, "signal:b2b-trend"@, "B2B buyers prefer self-service demos"@),
                fv(ContextKey::Signals, "signal:b2b-channel"@, "LinkedIn most effective B2B channel"@),
            ]
        } else {
            seq![]
        })
    }
}

impl Agent for MarketSignalAgent {
    fn name(&self) -> (r: &'static str)
        ensures
            r@ == "MarketSignalAgent"@,
    {
        "MarketSignalAgent"
    }

    fn dependencies(&self) -> (r: Vec<ContextKey>)
        ensures
            r@ == seq![ContextKey::Seeds],
    {
        vec![ContextKey::Seeds]
    }

    /// Runs once: when seeds exist and there are no signals yet.
    open spec fn runs_on(&self, ctx: Context) -> bool {
        (ctx.facts(ContextKey::Seeds).len() > 0 && ctx.facts(ContextKey::Signals).len()
            == 0)
    }

    fn accepts(&self, ctx: &Context) -> (r: bool) {
        ctx.has(ContextKey::Seeds) && !ctx.has(ContextKey::Signals)
    }

    open spec fn proposes(&self, ctx: Context) -> Seq<FactView> {
        market_signals(ctx.facts(ContextKey::Seeds))
    }

    fn execute(&self, ctx: &Context) -> (r: AgentEffect) {
        let seeds = ctx.get(ContextKey::Seeds);
        let has_nordic = exists_fact(seeds, FactTest::ContentHas, "Nordic");
        let has_b2b = exists_fact(seeds, FactTest::ContentHas, "B2B");
        let mut facts: Vec<Fact> = Vec::new();
        if has_nordic {
            facts.push(
                Fact::new(
                    ContextKey::Signals,
                    "signal:nordic-growth",
                    "Nordic SaaS market growing 15% YoY",
                ),
            );
            facts.push(
                Fact::new(
                    ContextKey::Signals,
                    "signal:nordic-competition",
                    "3 major competitors in Nordic region",
                ),
            );
        }
        if has_b2b {
            facts.push(
                Fact::new(
                    ContextKey::Signals,
                    "signal:b2b-trend",
                    "B2B buyers prefer self-service demos",
                ),
            );
            facts.push(
                Fact::new(
                    ContextKey::Signals,
                    "signal:b2b-channel",
                    "LinkedIn most effective B2B channel",
                ),
            );
        }
        if facts.len() == 0 {
            facts.push(
                Fact::new(ContextKey::Signals, "signal:baseline", "Market conditions stable"),
            );
        }
        let r = AgentEffect::with_facts(facts);
        assert(r@ =~= market_signals(ctx.facts(ContextKey::Seeds)));
        r
    }
}

/// Turns signals into competitor profiles.
pub struct CompetitorAgent;

/// The competitor profiles derived from the signals.
pub open spec fn competitor_profiles(signals: Seq<Fact>) -> Seq<FactView> {
    if any(signals, content_has("competitor"@)) {
        seq![
            fv(
                ContextKey::Competitors,
                "competitor:alpha-corp"@,
                "AlphaCorp: Strong in enterprise, weak in SMB"@,
            ),
            fv(
                ContextKey::Competitors,
                "competitor:beta-inc"@,
                "BetaInc: Price leader, limited features"@,
            ),
            fv(
                ContextKey::Competitors,
                "competitor:gamma-tech"@,
                "GammaTech: New entrant, aggressive marketing"@,
            ),
        ]
    } else {
        seq![
            fv(
                ContextKey::Competitors,
                "competitor:unknown"@,
                "Competitor landscape unclear - recommend analysis"@,
            ),
        ]
    }
}

impl Agent for CompetitorAgent {
    fn name(&self) -> (r: &'static str)
        ensures
            r@ == "CompetitorAgent"@,
    {
        "CompetitorAgent"
    }

    fn dependencies(&self) -> (r: Vec<ContextKey>)
        ensures
            r@ == seq![ContextKey::Signals],
    {
        vec![ContextKey::Signals]
    }

    /// Runs once: when signals exist and there are no competitor profiles yet.
    open spec fn runs_on(&self, ctx: Context) -> bool {
        (ctx.facts(ContextKey::Signals).len() > 0 && ctx.facts(
            ContextKey::Competitors,
        ).len() == 0)
    }

    fn accepts(&self, ctx: &Context) -> (r: bool) {
        ctx.has(ContextKey::Signals) && !ctx.has(ContextKey::Competitors)
    }

    open spec fn proposes(&self, ctx: Context) -> Seq<FactView> {
        competitor_profiles(ctx.facts(ContextKey::Signals))
    }

    fn execute(&self, ctx: &Context) -> (r: AgentEffect) {
        let signals = ctx.get(ContextKey::Signals);
        let mut facts: Vec<Fact> = Vec::new();
        if exists_fact(signals, FactTest::ContentHas, "competitor") {
            facts.push(
                Fact::new(
                    ContextKey::Competitors,
                    "competitor:alpha-corp",
                    "AlphaCorp: Strong in enterprise, weak in SMB",
                ),
            );
            facts.push(
                Fact::new(
                    ContextKey::Competitors,
                    "competitor:beta-inc",
                    "BetaInc: Price leader, limited features",
                ),
            );
            facts.push(
                Fact::new(
                    ContextKey::Competitors,
                    "competitor:gamma-tech",
                    "GammaTech: New entrant, aggressive marketing",
                ),
            );
        } else {
            facts.push(
                Fact::new(
                    ContextKey::Competitors,
                    "competitor:unknown",
                    "Competitor landscape unclear - recommend analysis",
                ),
            );
        }
        let r = AgentEffect::with_facts(facts);
        assert(r@ =~= competitor_profiles(ctx.facts(ContextKey::Signals)));
        r
    }
}

/// Synthesizes strategies from competitors and signals.
pub struct StrategyAgent;

/// The strategies that competitive gaps and channel signals suggest, before
/// the fallback is added.
pub open spec fn gap_strategies(competitors: Seq<Fact>, signals: Seq<Fact>) -> Seq<FactView> {
    (if any(competitors, content_has("weak in SMB"@)) {
        seq![
            fv(
                ContextKey::Strategies,
                "strategy:smb-focus"@,
                "Target SMB segment where AlphaCorp is weak. Position as affordable enterprise-grade solution."@,
            ),
        ]
    } else {
        seq![]
    }) + (if any(signals, content_has("LinkedIn"@)) {
        seq![
            fv(
                ContextKey::Strategies,
                "strategy:linkedin-campaign"@,
                "Launch targeted LinkedIn campaign for Nordic B2B. Focus on decision-maker personas."@,
            ),
        ]
    } else {
        seq![]
    }) + (if any(signals, content_has("self-service"@)) {
        seq![
            fv(
                ContextKey::Strategies,
                "strategy:self-service"@,
                "Build self-service demo experience. Reduce friction in buyer journey."@,
            ),
        ]
    } else {
        seq![]
    })
}

/// The strategies proposed: the suggested ones, and two general ones when
/// fewer than two were suggested.
pub open spec fn proposed_strategies(competitors: Seq<Fact>, signals: Seq<Fact>) -> Seq<FactView> {
    let s = gap_strategies(competitors, signals);
    if s.len() < 2 {
        s + seq![
            fv(
                ContextKey::Strategies,
                "strategy:content-marketing"@,
                "Establish thought leadership through content marketing. Build trust with educational content."@,
            ),
            fv(
                ContextKey::Strategies,
                "strategy:partnership"@,
                "Partner with local system integrators. Leverage existing relationships."@,
            ),
        ]
    } else {
        s
    }
}

impl Agent for StrategyAgent {
    fn name(&self) -> (r: &'static str)
        ensures
            r@ == "StrategyAgent"@,
    {
        "StrategyAgent"
    }

    fn dependencies(&self) -> (r: Vec<ContextKey>)
        ensures
            r@ == seq![ContextKey::Competitors, ContextKey::Signals],
    {
        vec![ContextKey::Competitors, ContextKey::Signals]
    }

    /// Runs once: when competitors exist and there are no strategies yet.
    open spec fn runs_on(&self, ctx: Context) -> bool {
        (ctx.facts(ContextKey::Competitors).len() > 0 && ctx.facts(
            ContextKey::Strategies,
        ).len() == 0)
    }

    fn accepts(&self, ctx: &Context) -> (r: bool) {
        ctx.has(ContextKey::Competitors) && !ctx.has(ContextKey::Strategies)
    }

    open spec fn proposes(&self, ctx: Context) -> Seq<FactView> {
        proposed_strategies(
            ctx.facts(ContextKey::Competitors),
            ctx.facts(ContextKey::Signals),
        )
    }

    fn execute(&self, ctx: &Context) -> (r: AgentEffect)
        ensures
            r@.len() >= 2,
    {
        let competitors = ctx.get(ContextKey::Competitors);
        let signals = ctx.get(ContextKey::Signals);
        let has_smb_gap = exists_fact(competitors, FactTest::ContentHas, "weak in SMB");
        let has_linkedin = exists_fact(signals, FactTest::ContentHas, "LinkedIn");
        let has_self_service = exists_fact(signals, FactTest::ContentHas, "self-service");
        let mut facts: Vec<Fact> = Vec::new();
        if has_smb_gap {
            facts.push(
                Fact::new(
                    ContextKey::Strategies,
                    "strategy:smb-focus",
                    "Target SMB segment where AlphaCorp is weak. Position as affordable enterprise-grade solution.",
                ),
            );
        }
        if has_linkedin {
            facts.push(
                Fact::new(
                    ContextKey::Strategies,
                    "strategy:linkedin-campaign",
                    "Launch targeted LinkedIn campaign for Nordic B2B. Focus on decision-maker personas.",
                ),
            );
        }
        if has_self_service {
            facts.push(
                Fact::new(
                    ContextKey::Strategies,
                    "strategy:self-service",
                    "Build self-service demo experience. Reduce friction in buyer journey.",
                ),
            );
        }
        assert(fact_views(facts@) =~= gap_strategies(competitors@, signals@));
        if facts.len() < 2 {
            facts.push(
                Fact::new(
                    ContextKey::Strategies,
                    "strategy:content-marketing",
                    "Establish thought leadership through content marketing. Build trust with educational content.",
                ),
            );
            facts.push(
                Fact::new(
                    ContextKey::Strategies,
                    "strategy:partnership",
                    "Partner with local system integrators. Leverage existing relationships.",
                ),
            );
        }
        let r = AgentEffect::with_facts(facts);
        assert(r@ =~= proposed_strategies(competitors@, signals@));
        r
    }
}

/// Scores strategies and ranks them.
pub struct EvaluationAgent;

/// The score and rationale a strategy receives, by what its content mentions.
pub open spec fn strategy_score(content: Seq<char>) -> (nat, Seq<char>) {
    if contains(content, "SMB"@) {
        (85, "Strong competitive differentiation in underserved segment"@)
    } else if contains(content, "LinkedIn"@) {
        (78, "High-reach channel with proven B2B effectiveness"@)
    } else if contains(content, "self-service"@) {
        (72, "Reduces friction but requires development investment"@)
    } else if contains(content, "content"@) {
        (65, "Long-term brand building, slower ROI"@)
    } else if contains(content, "partnership"@) {
        (60, "Leverages existing relationships, execution dependent"@)
    } else {
        (50, "Standard approach, moderate differentiation"@)
    }
}

/// Scores a strategy by what its content mentions.
pub fn evaluate_strategy(content: &str) -> (r: (u64, &'static str))
    ensures
        r.0 as nat == strategy_score(content@).0,
        r.1@ == strategy_score(content@).1,
{
    if str_contains(content, "SMB") {
        (85, "Strong competitive differentiation in underserved segment")
    } else if str_contains(content, "LinkedIn") {
        (78, "High-reach channel with proven B2B effectiveness")
    } else if str_contains(content, "self-service") {
        (72, "Reduces friction but requires development investment")
    } else if str_contains(content, "content") {
        (65, "Long-term brand building, slower ROI")
    } else if str_contains(content, "partnership") {
        (60, "Leverages existing relationships, execution dependent")
    } else {
        (50, "Standard approach, moderate differentiation")
    }
}

/// The evaluation of the `i`-th strategy.
pub open spec fn strategy_evaluation(i: int, strategy: Fact) -> FactView {
    let (score, rationale) = strategy_score(strategy.content@);
    fv(
        ContextKey::Evaluations,
        "eval:"@ + strip_prefix_or(strategy.id@, "strategy:"@, strategy.id@),
        "Score: "@ + dec(score) + "/100 | "@ + rank_label(i) + " | Rationale: "@ + rationale,
    )
}

/// One evaluation per strategy, in order.
pub open spec fn strategy_evaluations(strategies: Seq<Fact>) -> Seq<FactView> {
    strategies.map(|i: int, s: Fact| strategy_evaluation(i, s))
}

impl Agent for EvaluationAgent {
    fn name(&self) -> (r: &'static str)
        ensures
            r@ == "EvaluationAgent"@,
    {
        "EvaluationAgent"
    }

    fn dependencies(&self) -> (r: Vec<ContextKey>)
        ensures
            r@ == seq![ContextKey::Strategies],
    {
        vec![ContextKey::Strategies]
    }

    /// Runs once: when strategies exist and there are no evaluations yet.
    open spec fn runs_on(&self, ctx: Context) -> bool {
        (ctx.facts(ContextKey::Strategies).len() > 0 && ctx.facts(
            ContextKey::Evaluations,
        ).len() == 0)
    }

    fn accepts(&self, ctx: &Context) -> (r: bool) {
        ctx.has(ContextKey::Strategies) && !ctx.has(ContextKey::Evaluations)
    }

    open spec fn proposes(&self, ctx: Context) -> Seq<FactView> {
        strategy_evaluations(ctx.facts(ContextKey::Strategies))
    }

    fn execute(&self, ctx: &Context) -> (r: AgentEffect) {
        let strategies = ctx.get(ContextKey::Strategies);
        let n = strategies.len();
        let mut facts: Vec<Fact> = Vec::new();
        let mut i: usize = 0;
        while i < n
            invariant
                n == strategies.len(),
                i <= n,
                fact_views(facts@) == strategy_evaluations(strategies@).take(i as int),
            decreases n - i,
        {
            let strategy = &strategies[i];
            let (score, rationale) = evaluate_strategy(strategy.content.as_str());
            let mut id = String::from_str("eval:");
            let key = strip_prefix_or_str(strategy.id.as_str(), "strategy:", strategy.id.as_str());
            id.append(key.as_str());
            let mut content = String::from_str("Score: ");
            push_dec(&mut content, score as u128);
            content.append("/100 | ");
            content.append(rank_label_str(i));
            content.append(" | Rationale: ");
            content.append(rationale);
            let f = Fact::from_strings(ContextKey::Evaluations, id, content);
            proof {
                assert(f@ == strategy_evaluation(i as int, strategies@[i as int]));
            }
            let ghost prev = facts@;
            facts.push(f);
            proof {
                assert(fact_views(facts@) =~= fact_views(prev).push(f@));
                assert(strategy_evaluations(strategies@).take(i + 1) =~= strategy_evaluations(
                    strategies@,
                ).take(i as int).push(strategy_evaluation(i as int, strategies@[i as int])));
            }
            i = i + 1;
        }
        assert(strategy_evaluations(strategies@).take(n as int) =~= strategy_evaluations(
            strategies@,
        ));
        AgentEffect::with_facts(facts)
    }
}

// ---------------------------------------------------------------------------
// Invariants
// ---------------------------------------------------------------------------

/// Acceptance: at least two distinct strategies exist.
pub struct RequireMultipleStrategies;

pub open spec fn multiple_strategies_verdict(strategies: Seq<Fact>) -> Verdict {
    if strategies.len() < 2 {
        broken("need at least 2 strategies, found "@ + dec(strategies.len()))
    } else {
        Verdict::Pass
    }
}

impl Invariant for RequireMultipleStrategies {
    fn name(&self) -> (r: &'static str)
        ensures
            r@ == "require_multiple_strategies"@,
    {
        "require_multiple_strategies"
    }

    fn class(&self) -> (r: InvariantClass)
        ensures
            r == InvariantClass::Acceptance,
    {
        InvariantClass::Acceptance
    }

    open spec fn verdict(&self, ctx: Context) -> Verdict {
        multiple_strategies_verdict(ctx.facts(ContextKey::Strategies))
    }

    fn check(&self, ctx: &Context) -> (r: InvariantResult) {
        let strategies = ctx.get(ContextKey::Strategies);
        if strategies.len() < 2 {
            let mut reason = String::from_str("need at least 2 strategies, found ");
            push_dec(&mut reason, strategies.len() as u128);
            return InvariantResult::violated(reason);
        }
        InvariantResult::Holds
    }
}

/// Structural: no strategy mentions a term that violates brand safety.
pub struct BrandSafetyInvariant {
    /// Words that violate brand safety.
    pub forbidden_terms: Vec<&'static str>,
}

impl BrandSafetyInvariant {
    /// The forbidden terms, as text.
    pub open spec fn terms(&self) -> Seq<Seq<char>> {
        self.forbidden_terms@.map_values(|t: &'static str| t@)
    }
}

impl Default for BrandSafetyInvariant {
    /// The default forbidden terms.
    fn default() -> (r: BrandSafetyInvariant)
        ensures
            r.terms() == seq![
                "spam"@,
                "misleading"@,
                "aggressive"@,
                "deceptive"@,
                "unethical"@,
            ],
    {
        let r = BrandSafetyInvariant {
            forbidden_terms: vec!["spam", "misleading", "aggressive", "deceptive", "unethical"],
        };
        assert(r.terms() =~= seq![
            "spam"@,
            "misleading"@,
            "aggressive"@,
            "deceptive"@,
            "unethical"@,
        ]);
        r
    }
}

/// The first of `terms` that `text` contains.
pub open spec fn first_term_in(text: Seq<char>, terms: Seq<Seq<char>>) -> Option<Seq<char>>
    decreases terms.len(),
{
    if terms.len() == 0 {
        None
    } else if contains(text, terms[0]) {
        Some(terms[0])
    } else {
        first_term_in(text, terms.drop_first())
    }
}

/// The first strategy whose lowercased content contains a forbidden term,
/// with that term, if any.
pub open spec fn brand_safety_verdict(strategies: Seq<Fact>, terms: Seq<Seq<char>>) -> Verdict
    decreases strategies.len(),
{
    if strategies.len() == 0 {
        Verdict::Pass
    } else {
        match first_term_in(lowercase(strategies[0].content@), terms) {
            Some(t) => broken_at(
                "strategy contains forbidden term '"@ + t + "'"@,
                strategies[0].id@,
            ),
            None => brand_safety_verdict(strategies.drop_first(), terms),
        }
    }
}

impl Invariant for BrandSafetyInvariant {
    fn name(&self) -> (r: &'static str)
        ensures
            r@ == "brand_safety"@,
    {
        "brand_safety"
    }

    fn class(&self) -> (r: InvariantClass)
        ensures
            r == InvariantClass::Structure,
    {
        InvariantClass::Structure
    }

    open spec fn verdict(&self, ctx: Context) -> Verdict {
        brand_safety_verdict(ctx.facts(ContextKey::Strategies), self.terms())
    }

    #[verifier::loop_isolation(false)]
    fn check(&self, ctx: &Context) -> (r: InvariantResult) {
        let strategies = ctx.get(ContextKey::Strategies);
        let ghost terms = self.terms();
        let n = strategies.len();
        let m = self.forbidden_terms.len();
        let mut i: usize = 0;
        assert(strategies@.skip(0) =~= strategies@);
        while i < n
            invariant
                n == strategies.len(),
                m == self.forbidden_terms.len(),
                terms == self.terms(),
                i <= n,
                brand_safety_verdict(strategies@, terms) == brand_safety_verdict(
                    strategies@.skip(i as int),
                    terms,
                ),
            decreases n - i,
        {
            let strategy = &strategies[i];
            let lower = to_lowercase(strategy.content.as_str());
            let mut j: usize = 0;
            assert(terms.skip(0) =~= terms);
            while j < m
                invariant
                    m == self.forbidden_terms.len(),
                    terms == self.terms(),
                    j <= m,
                    first_term_in(lower@, terms) == first_term_in(lower@, terms.skip(j as int)),
                decreases m - j,
            {
                let term = self.forbidden_terms[j];
                proof {
                    assert(terms.skip(j as int)[0] == term@);
                    assert(terms.skip(j as int).drop_first() =~= terms.skip(j + 1));
                }
                if str_contains(lower.as_str(), term) {
                    let mut reason = String::from_str("strategy contains forbidden term '");
                    reason.append(term);
                    reason.append("'");
                    proof {
                        assert(strategies@.skip(i as int)[0] == *strategy);
                    }
                    return InvariantResult::violated_at(reason, strategy.id.clone());
                }
                j = j + 1;
            }
            proof {
                assert(terms.skip(m as int) =~= Seq::<Seq<char>>::empty());
                assert(strategies@.skip(i as int)[0] == *strategy);
                assert(strategies@.skip(i as int).drop_first() =~= strategies@.skip(i + 1));
            }
            i = i + 1;
        }
        assert(strategies@.skip(n as int) =~= Seq::<Fact>::empty());
        InvariantResult::Holds
    }
}

/// Acceptance: every strategy has an evaluation.
pub struct RequireStrategyEvaluations;

/// The first strategy no evaluation id mentions, if any.
pub open spec fn strategy_evaluations_verdict(strategies: Seq<Fact>, evaluations: Seq<Fact>) -> Verdict
    decreases strategies.len(),
{
    if strategies.len() == 0 {
        Verdict::Pass
    } else {
        let s = strategies[0];
        let key = strip_prefix_or(s.id@, "strategy:"@, s.id@);
        if !any(evaluations, id_has(key)) {
            broken_at("strategy '"@ + s.id@ + "' has no evaluation"@, s.id@)
        } else {
            strategy_evaluations_verdict(strategies.drop_first(), evaluations)
        }
    }
}

impl Invariant for RequireStrategyEvaluations {
    fn name(&self) -> (r: &'static str)
        ensures
            r@ == "require_strategy_evaluations"@,
    {
        "require_strategy_evaluations"
    }

    fn class(&self) -> (r: InvariantClass)
        ensures
            r == InvariantClass::Acceptance,
    {
        InvariantClass::Acceptance
    }

    open spec fn verdict(&self, ctx: Context) -> Verdict {
        strategy_evaluations_verdict(
            ctx.facts(ContextKey::Strategies),
            ctx.facts(ContextKey::Evaluations),
        )
    }

    #[verifier::loop_isolation(false)]
    fn check(&self, ctx: &Context) -> (r: InvariantResult) {
        let strategies = ctx.get(ContextKey::Strategies);
        let evaluations = ctx.get(ContextKey::Evaluations);
        let n = strategies.len();
        let mut i: usize = 0;
        assert(strategies@.skip(0) =~= strategies@);
        while i < n
            invariant
                n == strategies.len(),
                i <= n,
                strategy_evaluations_verdict(strategies@, evaluations@)
                    == strategy_evaluations_verdict(strategies@.skip(i as int), evaluations@),
            decreases n - i,
        {
            let strategy = &strategies[i];
            let key = strip_prefix_or_str(strategy.id.as_str(), "strategy:", strategy.id.as_str());
            proof {
                assert(strategies@.skip(i as int)[0] == *strategy);
            }
            if !exists_fact(evaluations, FactTest::IdHas, key.as_str()) {
                let mut reason = String::from_str("strategy '");
                reason.append(strategy.id.as_str());
                reason.append("' has no evaluation");
                return InvariantResult::violated_at(reason, strategy.id.clone());
            }
            proof {
                assert(strategies@.skip(i as int).drop_first() =~= strategies@.skip(i + 1));
            }
            i = i + 1;
        }
        assert(strategies@.skip(n as int) =~= Seq::<Fact>::empty());
        InvariantResult::Holds
    }
}

/// Semantic: every evaluation carries a rationale.
pub struct RequireEvaluationRationale;

/// The first evaluation without a rationale, if any.
pub open spec fn lacks_rationale() -> spec_fn(Fact) -> bool {
    |f: Fact| !contains(f.content@, "Rationale:"@)
}

pub open spec fn rationale_verdict(evaluations: Seq<Fact>) -> Verdict {
    match find(evaluations, lacks_rationale()) {
        Some(e) => broken_at("evaluation missing rationale"@, e.id@),
        None => Verdict::Pass,
    }
}

impl Invariant for RequireEvaluationRationale {
    fn name(&self) -> (r: &'static str)
        ensures
            r@ == "require_evaluation_rationale"@,
    {
        "require_evaluation_rationale"
    }

    fn class(&self) -> (r: InvariantClass)
        ensures
            r == InvariantClass::Semantic,
    {
        InvariantClass::Semantic
    }

    open spec fn verdict(&self, ctx: Context) -> Verdict {
        rationale_verdict(ctx.facts(ContextKey::Evaluations))
    }

    #[verifier::loop_isolation(false)]
    fn check(&self, ctx: &Context) -> (r: InvariantResult) {
        let evaluations = ctx.get(ContextKey::Evaluations);
        let ghost pred = lacks_rationale();
        let n = evaluations.len();
        let mut i: usize = 0;
        while i < n
            invariant
                n == evaluations.len(),
                i <= n,
                pred == lacks_rationale(),
                forall|j: int| 0 <= j < i ==> !pred(#[trigger] evaluations@[j]),
            decreases n - i,
        {
            let e = &evaluations[i];
            if !str_contains(e.content.as_str(), "Rationale:") {
                proof {
                    assert(is_first(evaluations@, pred, i as int));
                    let k = choose|k: int| is_first(evaluations@, pred, k);
                    lemma_first_unique(evaluations@, pred, i as int, k);
                }
                return InvariantResult::violated_at(
                    String::from_str("evaluation missing rationale"),
                    e.id.clone(),
                );
            }
            i = i + 1;
        }
        proof {
            lemma_find_none(evaluations@, pred);
        }
        InvariantResult::Holds
    }
}

// ---------------------------------------------------------------------------
// Laws
// ---------------------------------------------------------------------------

/// Law: the market-signal agent runs once: once the signals it proposes on a
/// context it runs on are added, it does not run again.
pub proof fn lemma_market_signal_runs_once(ctx: Context, next: Context)
    requires
        MarketSignalAgent.runs_on(ctx),
        next.extends(ctx, MarketSignalAgent.proposes(ctx)),
    ensures
        !MarketSignalAgent.runs_on(next),
{
    lemma_added_fact(ctx, next, MarketSignalAgent.proposes(ctx), 0);
}

/// Law: the competitor agent runs once.
pub proof fn lemma_competitor_runs_once(ctx: Context, next: Context)
    requires
        CompetitorAgent.runs_on(ctx),
        next.extends(ctx, CompetitorAgent.proposes(ctx)),
    ensures
        !CompetitorAgent.runs_on(next),
{
    lemma_added_fact(ctx, next, CompetitorAgent.proposes(ctx), 0);
}

/// Law: the strategy agent runs once.
pub proof fn lemma_strategy_runs_once(ctx: Context, next: Context)
    requires
        StrategyAgent.runs_on(ctx),
        next.extends(ctx, StrategyAgent.proposes(ctx)),
    ensures
        !StrategyAgent.runs_on(next),
{
    lemma_added_fact(ctx, next, StrategyAgent.proposes(ctx), 0);
}

/// Law: the evaluation agent runs once.
pub proof fn lemma_evaluation_runs_once(ctx: Context, next: Context)
    requires
        EvaluationAgent.runs_on(ctx),
        next.extends(ctx, EvaluationAgent.proposes(ctx)),
    ensures
        !EvaluationAgent.runs_on(next),
{
    lemma_added_fact(ctx, next, EvaluationAgent.proposes(ctx), 0);
}

/// Law: the strategy agent proposes at least two strategies, so on a context
/// without strategies it makes the multiple-strategies invariant hold.
pub proof fn lemma_strategies_are_multiple(ctx: Context, next: Context)
    requires
        StrategyAgent.runs_on(ctx),
        next.extends(ctx, StrategyAgent.proposes(ctx)),
    ensures
        RequireMultipleStrategies.verdict(next) == Verdict::Pass,
{
    let added = StrategyAgent.proposes(ctx);
    lemma_added_fact(ctx, next, added, 0);
    lemma_added_fact(ctx, next, added, 1);
    let k = ContextKey::Strategies;
    assert(added.filter(keyed(k)) =~= added) by {
        assert forall|i: int| 0 <= i < added.len() implies keyed(k)(added[i]) by {}
        lemma_filter_all(added, keyed(k));
    }
    assert(fact_views(next.facts(k)).len() == next.facts(k).len());
}

/// Law: every strategy the evaluation agent evaluates gets an evaluation
/// that mentions it, so the strategy-evaluations invariant holds once its
/// proposal is added to a context without evaluations.
pub proof fn lemma_every_strategy_evaluated(ctx: Context, next: Context)
    requires
        EvaluationAgent.runs_on(ctx),
        next.extends(ctx, EvaluationAgent.proposes(ctx)),
        next.facts(ContextKey::Strategies) == ctx.facts(ContextKey::Strategies),
    ensures
        RequireStrategyEvaluations.verdict(next) == Verdict::Pass,
{
    let strategies = ctx.facts(ContextKey::Strategies);
    let added = EvaluationAgent.proposes(ctx);
    assert forall|j: int| 0 <= j < strategies.len() implies any(
        next.facts(ContextKey::Evaluations),
        id_has(strip_prefix_or(strategies[j].id@, "strategy:"@, strategies[j].id@)),
    ) by {
        let key = strip_prefix_or(strategies[j].id@, "strategy:"@, strategies[j].id@);
        lemma_added_fact(ctx, next, added, j);
        let m = choose|m: int|
            0 <= m < next.facts(added[j].key).len() && (#[trigger] next.facts(added[j].key)[m])@
                == added[j];
        lemma_contains_after_prefix("eval:"@, key);
        assert(id_has(key)(next.facts(ContextKey::Evaluations)[m]));
    }
    lemma_all_evaluated(strategies, next.facts(ContextKey::Evaluations));
}

/// Every strategy being mentioned by an evaluation id means the verdict
/// passes.
proof fn lemma_all_evaluated(strategies: Seq<Fact>, evaluations: Seq<Fact>)
    requires
        forall|j: int|
            0 <= j < strategies.len() ==> any(
                evaluations,
                id_has(strip_prefix_or(#[trigger] strategies[j].id@, "strategy:"@, strategies[j].id@)),
            ),
    ensures
        strategy_evaluations_verdict(strategies, evaluations) == Verdict::Pass,
    decreases strategies.len(),
{
    if strategies.len() > 0 {
        let rest = strategies.drop_first();
        assert forall|j: int| 0 <= j < rest.len() implies any(
            evaluations,
            id_has(strip_prefix_or(#[trigger] rest[j].id@, "strategy:"@, rest[j].id@)),
        ) by {
            assert(rest[j] == strategies[j + 1]);
        }
        assert(strategies[0] == strategies[0]);
        lemma_all_evaluated(rest, evaluations);
    }
}

} // verus!
