//! CRM account health agents: continuous monitoring and growth actions.
//!
//! ```text
//! Seeds (account data)
//!    │
//!    ├─► UsageSignalAgent → Signals (usage metrics)
//!    ├─► SupportTicketAgent → Signals (support activity)
//!    ├─► RevenueTrendAgent → Signals (revenue trends)
//!    ├─► ChurnRiskAgent → Strategies (risk assessments)
//!    ├─► UpsellOpportunityAgent → Strategies (opportunity analysis)
//!    └─► ActionPrioritizationAgent → Evaluations (ranked actions)
//! ```
use crate::agent::{
    any, broken, exists_fact, find, id_is, id_prefix, position, position_by, Agent, FactTest,
    Invariant, InvariantClass, InvariantResult, Verdict,
};
use crate::context::{
    fact_views, fv, lemma_take_push, push_fact, AgentEffect, Context, ContextKey, Fact, FactView,
};
use crate::rank::{
    idx, lemma_rank_order_permutation, nats, rank_indices, rank_label, rank_label_str, ranking,
};
use crate::text::{
    after, after_str, and_before, and_before_str, contains, dec, opt_view, parse_u32,
    parse_u32_str, push_dec, remove_commas, str_contains, str_starts_with, u32_or, u32_or_str,
    without_commas,
};
use crate::agent::{lemma_added_fact, lemma_added_prefixed, lemma_find_none, lemma_find_some};
use crate::context::keyed;
use crate::rank::{place, rank_order};
use crate::text::{lemma_contains_after_prefix, lemma_contains_middle, lemma_prefix_of_concat};
use vstd::prelude::*;

verus! {

/// The account the `account` seed names, or `Account123`.
pub open spec fn account_of(seeds: Seq<Fact>) -> Seq<char> {
    match find(seeds, id_is("account"@)) {
        Some(s) => s.content@,
        None => "Account123"@,
    }
}

/// The account the seeds name.
pub fn read_account(seeds: &Vec<Fact>) -> (r: String)
    ensures
        r@ == account_of(seeds@),
{
    match position(seeds, FactTest::IdIs, "account") {
        Some(k) => seeds[k].content.clone(),
        None => String::from_str("Account123"),
    }
}

/// Two signals about `account` under `key`, each a label, the account, and a
/// report.
pub open spec fn account_pair(
    id1: Seq<char>,
    label: Seq<char>,
    report1: Seq<char>,
    id2: Seq<char>,
    report2: Seq<char>,
    account: Seq<char>,
) -> Seq<FactView> {
    seq![
        fv(ContextKey::Signals, id1, label + account + report1),
        fv(ContextKey::Signals, id2, label + account + report2),
    ]
}

/// Emits two signals about the account, each `label + account + report`.
fn emit_account_pair(
    ctx: &Context,
    id1: &str,
    label: &str,
    report1: &str,
    id2: &str,
    report2: &str,
) -> (r: AgentEffect)
    ensures
        r@ == account_pair(
            id1@,
            label@,
            report1@,
            id2@,
            report2@,
            account_of(ctx.facts(ContextKey::Seeds)),
        ),
{
    let account = read_account(ctx.get(ContextKey::Seeds));
    let mut c1 = String::from_str(label);
    c1.append(account.as_str());
    c1.append(report1);
    let mut c2 = String::from_str(label);
    c2.append(account.as_str());
    c2.append(report2);
    let mut facts: Vec<Fact> = Vec::new();
    push_fact(&mut facts, Fact::from_strings(ContextKey::Signals, String::from_str(id1), c1));
    push_fact(&mut facts, Fact::from_strings(ContextKey::Signals, String::from_str(id2), c2));
    let r = AgentEffect::with_facts(facts);
    assert(r@ =~= account_pair(
        id1@,
        label@,
        report1@,
        id2@,
        report2@,
        account_of(ctx.facts(ContextKey::Seeds)),
    ));
    r
}

// ---------------------------------------------------------------------------
// Usage, support and revenue signals
// ---------------------------------------------------------------------------

/// Reports the account's usage.
pub struct UsageSignalAgent;

/// The usage signals of the account.
pub open spec fn usage_facts(seeds: Seq<Fact>) -> Seq<FactView> {
    account_pair(
        "usage:active-users"@,
        "Usage "@,
        ": Active users: 450 | Trend: +5% MoM | Engagement: High"@,
        "usage:feature-adoption"@,
        ": Feature adoption: 78% | Top features: A, B, C | Underutilized: D"@,
        account_of(seeds),
    )
}

impl Agent for UsageSignalAgent {
    fn name(&self) -> (r: &'static str)
        ensures
            r@ == "UsageSignalAgent"@,
    {
        "UsageSignalAgent"
    }

    fn dependencies(&self) -> (r: Vec<ContextKey>)
        ensures
            r@ == seq![ContextKey::Seeds],
    {
        vec![ContextKey::Seeds]
    }

    /// Runs once: when seeds exist and no usage signal does.
    open spec fn runs_on(&self, ctx: Context) -> bool {
        (ctx.facts(ContextKey::Seeds).len() > 0 && !any(
            ctx.facts(ContextKey::Signals),
            id_prefix("usage:"@),
        ))
    }

    fn accepts(&self, ctx: &Context) -> (r: bool) {
        ctx.has(ContextKey::Seeds) && !exists_fact(
            ctx.get(ContextKey::Signals),
            FactTest::IdPrefix,
            "usage:",
        )
    }

    open spec fn proposes(&self, ctx: Context) -> Seq<FactView> {
        usage_facts(ctx.facts(ContextKey::Seeds))
    }

    fn execute(&self, ctx: &Context) -> (r: AgentEffect) {
        emit_account_pair(
            ctx,
            "usage:active-users",
            "Usage ",
            ": Active users: 450 | Trend: +5% MoM | Engagement: High",
            "usage:feature-adoption",
            ": Feature adoption: 78% | Top features: A, B, C | Underutilized: D",
        )
    }
}

/// Reports the account's support activity.
pub struct SupportTicketAgent;

/// The support signals of the account.
pub open spec fn support_facts(seeds: Seq<Fact>) -> Seq<FactView> {
    account_pair(
        "support:tickets"@,
        "Support "@,
        ": Tickets last 30 days: 12 | Avg resolution: 2.5 days | Satisfaction: 4.2/5"@,
        "support:escalations"@,
        ": Escalations: 2 | Critical issues: 0 | Status: Healthy"@,
        account_of(seeds),
    )
}

impl Agent for SupportTicketAgent {
    fn name(&self) -> (r: &'static str)
        ensures
            r@ == "SupportTicketAgent"@,
    {
        "SupportTicketAgent"
    }

    fn dependencies(&self) -> (r: Vec<ContextKey>)
        ensures
            r@ == seq![ContextKey::Seeds],
    {
        vec![ContextKey::Seeds]
    }

    /// Runs once: when seeds exist and no support signal does.
    open spec fn runs_on(&self, ctx: Context) -> bool {
        (ctx.facts(ContextKey::Seeds).len() > 0 && !any(
            ctx.facts(ContextKey::Signals),
            id_prefix("support:"@),
        ))
    }

    fn accepts(&self, ctx: &Context) -> (r: bool) {
        ctx.has(ContextKey::Seeds) && !exists_fact(
            ctx.get(ContextKey::Signals),
            FactTest::IdPrefix,
            "support:",
        )
    }

    open spec fn proposes(&self, ctx: Context) -> Seq<FactView> {
        support_facts(ctx.facts(ContextKey::Seeds))
    }

    fn execute(&self, ctx: &Context) -> (r: AgentEffect) {
        emit_account_pair(
            ctx,
            "support:tickets",
            "Support ",
            ": Tickets last 30 days: 12 | Avg resolution: 2.5 days | Satisfaction: 4.2/5",
            "support:escalations",
            ": Escalations: 2 | Critical issues: 0 | Status: Healthy",
        )
    }
}

/// Reports the account's revenue trend.
pub struct RevenueTrendAgent;

/// The revenue signals of the account.
pub open spec fn revenue_facts(seeds: Seq<Fact>) -> Seq<FactView> {
    account_pair(
        "revenue:mrr"@,
        "Revenue "@,
        ": MRR: $15,000 | Growth: +8% MoM | Contract: Annual"@,
        "revenue:expansion"@,
        ": Expansion revenue: $2,000 | Upsell potential: $5,000 | Churn risk: Low"@,
        account_of(seeds),
    )
}

impl Agent for RevenueTrendAgent {
    fn name(&self) -> (r: &'static str)
        ensures
            r@ == "RevenueTrendAgent"@,
    {
        "RevenueTrendAgent"
    }

    fn dependencies(&self) -> (r: Vec<ContextKey>)
        ensures
            r@ == seq![ContextKey::Seeds],
    {
        vec![ContextKey::Seeds]
    }

    /// Runs once: when seeds exist and no revenue signal does.
    open spec fn runs_on(&self, ctx: Context) -> bool {
        (ctx.facts(ContextKey::Seeds).len() > 0 && !any(
            ctx.facts(ContextKey::Signals),
            id_prefix("revenue:"@),
        ))
    }

    fn accepts(&self, ctx: &Context) -> (r: bool) {
        ctx.has(ContextKey::Seeds) && !exists_fact(
            ctx.get(ContextKey::Signals),
            FactTest::IdPrefix,
            "revenue:",
        )
    }

    open spec fn proposes(&self, ctx: Context) -> Seq<FactView> {
        revenue_facts(ctx.facts(ContextKey::Seeds))
    }

    fn execute(&self, ctx: &Context) -> (r: AgentEffect) {
        emit_account_pair(
            ctx,
            "revenue:mrr",
            "Revenue ",
            ": MRR: $15,000 | Growth: +8% MoM | Contract: Annual",
            "revenue:expansion",
            ": Expansion revenue: $2,000 | Upsell potential: $5,000 | Churn risk: Low",
        )
    }
}

// ---------------------------------------------------------------------------
// Churn risk
// ---------------------------------------------------------------------------

/// Assesses the risk that the account churns.
pub struct ChurnRiskAgent;

/// +1 when the signal with id `id` mentions `good`, -1 when it does not, 0
/// when there is no such signal.
pub open spec fn indicator(signals: Seq<Fact>, id: Seq<char>, good: Seq<char>) -> int {
    match find(signals, id_is(id)) {
        Some(s) => if contains(s.content@, good) {
            1
        } else {
            -1
        },
        None => 0,
    }
}

/// The churn risk score: 20 for each indicator below +1.
pub open spec fn churn_score(usage: int, support: int, revenue: int) -> int {
    (3 - (usage + support + revenue)) * 20
}

/// The churn assessment from the usage, support and revenue indicators.
pub open spec fn churn_fact(signals: Seq<Fact>) -> FactView {
    let usage = indicator(signals, "usage:active-users"@, "+"@);
    let support = indicator(signals, "support:escalations"@, "Healthy"@);
    let revenue = indicator(signals, "revenue:mrr"@, "+"@);
    let score = churn_score(usage, support, revenue);
    fv(
        ContextKey::Strategies,
        "risk:churn"@,
        "Churn risk: "@ + (if score < 30 {
            "LOW"@
        } else if score < 60 {
            "MEDIUM"@
        } else {
            "HIGH"@
        }) + " | Score: "@ + dec(score as nat) + "/100 | Factors: Usage trend: "@ + (if usage > 0 {
            "Positive"@
        } else {
            "Negative"@
        }) + ", Support: "@ + (if support > 0 {
            "Healthy"@
        } else {
            "Concerning"@
        }) + ", Revenue: "@ + (if revenue > 0 {
            "Growing"@
        } else {
            "Declining"@
        }) + " | Action: "@ + (if score > 60 {
            "IMMEDIATE INTERVENTION"@
        } else if score > 30 {
            "Monitor closely"@
        } else {
            "Low priority"@
        }),
    )
}

/// The indicator of the signal with id `id`.
fn read_indicator(signals: &Vec<Fact>, id: &str, good: &str) -> (r: i64)
    ensures
        r as int == indicator(signals@, id@, good@),
{
    match position(signals, FactTest::IdIs, id) {
        Some(k) => if str_contains(signals[k].content.as_str(), good) {
            1
        } else {
            -1
        },
        None => 0,
    }
}

impl Agent for ChurnRiskAgent {
    fn name(&self) -> (r: &'static str)
        ensures
            r@ == "ChurnRiskAgent"@,
    {
        "ChurnRiskAgent"
    }

    fn dependencies(&self) -> (r: Vec<ContextKey>)
        ensures
            r@ == seq![ContextKey::Signals],
    {
        vec![ContextKey::Signals]
    }

    /// Runs once: when usage, support and revenue signals exist and no
    /// strategy does.
    open spec fn runs_on(&self, ctx: Context) -> bool {
        (any(ctx.facts(ContextKey::Signals), id_prefix("usage:"@)) && any(
            ctx.facts(ContextKey::Signals),
            id_prefix("support:"@),
        ) && any(ctx.facts(ContextKey::Signals), id_prefix("revenue:"@)) && ctx.facts(
            ContextKey::Strategies,
        ).len() == 0)
    }

    fn accepts(&self, ctx: &Context) -> (r: bool) {
        let signals = ctx.get(ContextKey::Signals);
        exists_fact(signals, FactTest::IdPrefix, "usage:") && exists_fact(
            signals,
            FactTest::IdPrefix,
            "support:",
        ) && exists_fact(signals, FactTest::IdPrefix, "revenue:") && !ctx.has(
            ContextKey::Strategies,
        )
    }

    open spec fn proposes(&self, ctx: Context) -> Seq<FactView> {
        seq![churn_fact(ctx.facts(ContextKey::Signals))]
    }

    fn execute(&self, ctx: &Context) -> (r: AgentEffect) {
        let signals = ctx.get(ContextKey::Signals);
        let usage = read_indicator(signals, "usage:active-users", "+");
        let support = read_indicator(signals, "support:escalations", "Healthy");
        let revenue = read_indicator(signals, "revenue:mrr", "+");
        let score: i64 = (3 - (usage + support + revenue)) * 20;
        let mut c = String::from_str("Churn risk: ");
        c.append(
            if score < 30 {
                "LOW"
            } else if score < 60 {
                "MEDIUM"
            } else {
                "HIGH"
            },
        );
        c.append(" | Score: ");
        push_dec(&mut c, score as u128);
        c.append("/100 | Factors: Usage trend: ");
        c.append(
            if usage > 0 {
                "Positive"
            } else {
                "Negative"
            },
        );
        c.append(", Support: ");
        c.append(
            if support > 0 {
                "Healthy"
            } else {
                "Concerning"
            },
        );
        c.append(", Revenue: ");
        c.append(
            if revenue > 0 {
                "Growing"
            } else {
                "Declining"
            },
        );
        c.append(" | Action: ");
        c.append(
            if score > 60 {
                "IMMEDIATE INTERVENTION"
            } else if score > 30 {
                "Monitor closely"
            } else {
                "Low priority"
            },
        );
        let mut facts: Vec<Fact> = Vec::new();
        push_fact(
            &mut facts,
            Fact::from_strings(ContextKey::Strategies, String::from_str("risk:churn"), c),
        );
        let r = AgentEffect::with_facts(facts);
        assert(r@ =~= seq![churn_fact(signals@)]);
        r
    }
}

// ---------------------------------------------------------------------------
// Upsell opportunity
// ---------------------------------------------------------------------------

/// Identifies upsell opportunities.
pub struct UpsellOpportunityAgent;

/// The feature adoption the usage signal states after `adoption: `, up to
/// `%`, or 0.
pub open spec fn adoption_of(signals: Seq<Fact>) -> nat {
    match find(signals, id_is("usage:feature-adoption"@)) {
        Some(s) => u32_or(and_before(after(s.content@, "adoption: "@), "%"@), 0),
        None => 0,
    }
}

/// The commas removed from an optional text.
pub open spec fn and_without_commas(o: Option<Seq<char>>) -> Option<Seq<char>> {
    match o {
        Some(t) => Some(without_commas(t)),
        None => None,
    }
}

/// The upsell potential the revenue signal states after `potential: $`, up
/// to the next space and without thousands separators, or 0.
pub open spec fn potential_of(signals: Seq<Fact>) -> nat {
    match find(signals, id_is("revenue:expansion"@)) {
        Some(s) => u32_or(
            and_without_commas(and_before(after(s.content@, "potential: $"@), " "@)),
            0,
        ),
        None => 0,
    }
}

/// A high-priority opportunity when adoption exceeds 70% and there is
/// potential, a medium one when there is potential only, else none.
pub open spec fn upsell_facts(signals: Seq<Fact>) -> Seq<FactView> {
    let adoption = adoption_of(signals);
    let potential = potential_of(signals);
    if adoption > 70 && potential > 0 {
        seq![
            fv(
                ContextKey::Strategies,
                "opportunity:upsell"@,
                "Upsell opportunity: High | Potential: $"@ + dec(potential)
                    + " | Rationale: High feature adoption ("@ + dec(adoption)
                    + "%) + expansion potential | Priority: HIGH"@,
            ),
        ]
    } else if potential > 0 {
        seq![
            fv(
                ContextKey::Strategies,
                "opportunity:upsell"@,
                "Upsell opportunity: Medium | Potential: $"@ + dec(potential)
                    + " | Rationale: Expansion potential identified | Priority: MEDIUM"@,
            ),
        ]
    } else {
        seq![]
    }
}

impl Agent for UpsellOpportunityAgent {
    fn name(&self) -> (r: &'static str)
        ensures
            r@ == "UpsellOpportunityAgent"@,
    {
        "UpsellOpportunityAgent"
    }

    fn dependencies(&self) -> (r: Vec<ContextKey>)
        ensures
            r@ == seq![ContextKey::Signals],
    {
        vec![ContextKey::Signals]
    }

    /// Runs once: when usage and revenue signals exist and no opportunity does.
    open spec fn runs_on(&self, ctx: Context) -> bool {
        (any(ctx.facts(ContextKey::Signals), id_prefix("usage:"@)) && any(
            ctx.facts(ContextKey::Signals),
            id_prefix("revenue:"@),
        ) && !any(ctx.facts(ContextKey::Strategies), id_prefix("opportunity:"@)))
    }

    fn accepts(&self, ctx: &Context) -> (r: bool) {
        let signals = ctx.get(ContextKey::Signals);
        exists_fact(signals, FactTest::IdPrefix, "usage:") && exists_fact(
            signals,
            FactTest::IdPrefix,
            "revenue:",
        ) && !exists_fact(ctx.get(ContextKey::Strategies), FactTest::IdPrefix, "opportunity:")
    }

    open spec fn proposes(&self, ctx: Context) -> Seq<FactView> {
        upsell_facts(ctx.facts(ContextKey::Signals))
    }

    fn execute(&self, ctx: &Context) -> (r: AgentEffect) {
        let signals = ctx.get(ContextKey::Signals);
        proof {
            reveal_strlit("adoption: ");
            reveal_strlit("%");
            reveal_strlit("potential: $");
            reveal_strlit(" ");
        }
        let adoption = match position(signals, FactTest::IdIs, "usage:feature-adoption") {
            Some(k) => u32_or_str(
                and_before_str(after_str(signals[k].content.as_str(), "adoption: "), "%"),
                0,
            ),
            None => 0,
        };
        let potential = match position(signals, FactTest::IdIs, "revenue:expansion") {
            Some(k) => {
                let t = and_before_str(after_str(signals[k].content.as_str(), "potential: $"), " ");
                let cleaned = match t {
                    Some(x) => Some(remove_commas(x.as_str())),
                    None => None,
                };
                u32_or_str(cleaned, 0)
            },
            None => 0,
        };
        let mut facts: Vec<Fact> = Vec::new();
        if adoption > 70 && potential > 0 {
            let mut c = String::from_str("Upsell opportunity: High | Potential: $");
            push_dec(&mut c, potential as u128);
            c.append(" | Rationale: High feature adoption (");
            push_dec(&mut c, adoption as u128);
            c.append("%) + expansion potential | Priority: HIGH");
            push_fact(
                &mut facts,
                Fact::from_strings(ContextKey::Strategies, String::from_str("opportunity:upsell"), c),
            );
        } else if potential > 0 {
            let mut c = String::from_str("Upsell opportunity: Medium | Potential: $");
            push_dec(&mut c, potential as u128);
            c.append(" | Rationale: Expansion potential identified | Priority: MEDIUM");
            push_fact(
                &mut facts,
                Fact::from_strings(ContextKey::Strategies, String::from_str("opportunity:upsell"), c),
            );
        }
        let r = AgentEffect::with_facts(facts);
        assert(r@ =~= upsell_facts(signals@));
        r
    }
}

// ---------------------------------------------------------------------------
// Action prioritization
// ---------------------------------------------------------------------------

/// Orders the churn and upsell actions by priority.
pub struct ActionPrioritizationAgent;

/// The churn action, from the first risk assessment: priority 1 when it
/// mentions `HIGH`, 2 when `MEDIUM`, else 3.
pub open spec fn churn_action(strategies: Seq<Fact>) -> Seq<(nat, Seq<char>, Seq<char>)> {
    match find(strategies, id_prefix("risk:"@)) {
        Some(r) => seq![
            (
                if contains(r.content@, "HIGH"@) {
                    1nat
                } else if contains(r.content@, "MEDIUM"@) {
                    2nat
                } else {
                    3nat
                },
                "Churn Risk"@,
                r.content@,
            ),
        ],
        None => seq![],
    }
}

/// The upsell action, from the first opportunity: priority 2 when it
/// mentions `HIGH`, else 3.
pub open spec fn upsell_action(strategies: Seq<Fact>) -> Seq<(nat, Seq<char>, Seq<char>)> {
    match find(strategies, id_prefix("opportunity:"@)) {
        Some(o) => seq![
            (
                if contains(o.content@, "HIGH"@) {
                    2nat
                } else {
                    3nat
                },
                "Upsell"@,
                o.content@,
            ),
        ],
        None => seq![],
    }
}

/// The actions to prioritise: priority, kind and assessment.
pub open spec fn account_actions(strategies: Seq<Fact>) -> Seq<(nat, Seq<char>, Seq<char>)> {
    churn_action(strategies) + upsell_action(strategies)
}

/// The priorities of the actions.
pub open spec fn action_priorities(acts: Seq<(nat, Seq<char>, Seq<char>)>) -> Seq<nat> {
    acts.map_values(|a: (nat, Seq<char>, Seq<char>)| a.0)
}

/// The evaluation of the action ranked `i`-th.
pub open spec fn action_fact(i: int, a: (nat, Seq<char>, Seq<char>)) -> FactView {
    fv(
        ContextKey::Evaluations,
        "eval:"@ + dec((i + 1) as nat),
        "Action "@ + dec((i + 1) as nat) + ": "@ + a.1 + " | "@ + a.2 + " | Priority: "@ + (if i
            == 0 {
            "URGENT"@
        } else {
            "NORMAL"@
        }) + " | "@ + rank_label(i),
    )
}

/// The actions by priority, most urgent first and equal priorities with the
/// churn action first; or a single evaluation saying no action is needed.
pub open spec fn action_facts(strategies: Seq<Fact>) -> Seq<FactView> {
    let acts = account_actions(strategies);
    if acts.len() == 0 {
        seq![
            fv(
                ContextKey::Evaluations,
                "eval:no-action"@,
                "Status: NO ACTION NEEDED | Account healthy | Continue monitoring"@,
            ),
        ]
    } else {
        ranking(action_priorities(acts), false).map(|i: int, j: nat| action_fact(i, acts[j as int]))
    }
}

impl Agent for ActionPrioritizationAgent {
    fn name(&self) -> (r: &'static str)
        ensures
            r@ == "ActionPrioritizationAgent"@,
    {
        "ActionPrioritizationAgent"
    }

    fn dependencies(&self) -> (r: Vec<ContextKey>)
        ensures
            r@ == seq![ContextKey::Strategies],
    {
        vec![ContextKey::Strategies]
    }

    /// Runs once: when strategies exist and no evaluation does.
    open spec fn runs_on(&self, ctx: Context) -> bool {
        (ctx.facts(ContextKey::Strategies).len() > 0 && ctx.facts(
            ContextKey::Evaluations,
        ).len() == 0)
    }

    fn accepts(&self, ctx: &Context) -> (r: bool) {
        ctx.has(ContextKey::Strategies) && !ctx.has(ContextKey::Evaluations)
    }

    open spec fn proposes(&self, ctx: Context) -> Seq<FactView> {
        action_facts(ctx.facts(ContextKey::Strategies))
    }

    #[verifier::loop_isolation(false)]
    fn execute(&self, ctx: &Context) -> (r: AgentEffect) {
        let strategies = ctx.get(ContextKey::Strategies);
        let ghost acts = account_actions(strategies@);
        let mut priorities: Vec<u64> = Vec::new();
        let mut kinds: Vec<&'static str> = Vec::new();
        let mut contents: Vec<String> = Vec::new();
        match position(strategies, FactTest::IdPrefix, "risk:") {
            Some(k) => {
                let c = strategies[k].content.as_str();
                priorities.push(
                    if str_contains(c, "HIGH") {
                        1
                    } else if str_contains(c, "MEDIUM") {
                        2
                    } else {
                        3
                    },
                );
                kinds.push("Churn Risk");
                contents.push(strategies[k].content.clone());
            },
            None => {},
        }
        match position(strategies, FactTest::IdPrefix, "opportunity:") {
            Some(k) => {
                let c = strategies[k].content.as_str();
                priorities.push(
                    if str_contains(c, "HIGH") {
                        2
                    } else {
                        3
                    },
                );
                kinds.push("Upsell");
                contents.push(strategies[k].content.clone());
            },
            None => {},
        }
        proof {
            assert(priorities@.len() == acts.len());
            assert forall|j: int| 0 <= j < acts.len() implies priorities@[j] as nat == #[trigger] acts[j].0
                && kinds@[j]@ == acts[j].1 && contents@[j]@ == acts[j].2 by {}
        }
        let mut facts: Vec<Fact> = Vec::new();
        if priorities.len() == 0 {
            push_fact(
                &mut facts,
                Fact::new(
                    ContextKey::Evaluations,
                    "eval:no-action",
                    "Status: NO ACTION NEEDED | Account healthy | Continue monitoring",
                ),
            );
            let r = AgentEffect::with_facts(facts);
            assert(r@ =~= action_facts(strategies@));
            return r;
        }
        let order = rank_indices(&priorities, false);
        proof {
            assert(nats(priorities@) =~= action_priorities(acts));
            lemma_rank_order_permutation(action_priorities(acts), acts.len(), false);
        }
        let ghost spec = action_facts(strategies@);
        let m = order.len();
        let mut p: usize = 0;
        while p < m
            invariant
                m == order.len(),
                idx(order@) == ranking(action_priorities(acts), false),
                spec == ranking(action_priorities(acts), false).map(
                    |i: int, j: nat| action_fact(i, acts[j as int]),
                ),
                m == acts.len(),
                priorities@.len() == m,
                kinds@.len() == m,
                contents@.len() == m,
                forall|j: int|
                    0 <= j < m ==> priorities@[j] as nat == #[trigger] acts[j].0 && kinds@[j]@
                        == acts[j].1 && contents@[j]@ == acts[j].2,
                p <= m,
                fact_views(facts@) == spec.take(p as int),
            decreases m - p,
        {
            let j = order[p];
            proof {
                assert(idx(order@)[p as int] == j as nat);
                assert(j < m);
                assert(acts[j as int] == acts[j as int]);
            }
            let mut id = String::from_str("eval:");
            push_dec(&mut id, p as u128 + 1);
            let mut c = String::from_str("Action ");
            push_dec(&mut c, p as u128 + 1);
            c.append(": ");
            c.append(kinds[j]);
            c.append(" | ");
            c.append(contents[j].as_str());
            c.append(" | Priority: ");
            c.append(
                if p == 0 {
                    "URGENT"
                } else {
                    "NORMAL"
                },
            );
            c.append(" | ");
            c.append(rank_label_str(p));
            let f = Fact::from_strings(ContextKey::Evaluations, id, c);
            proof {
                assert(f@ == spec[p as int]);
                lemma_take_push(spec, p as int);
            }
            push_fact(&mut facts, f);
            p = p + 1;
        }
        assert(spec.take(m as int) =~= spec);
        AgentEffect::with_facts(facts)
    }
}

// ---------------------------------------------------------------------------
// Invariants
// ---------------------------------------------------------------------------

/// Acceptance: a high churn risk comes with a recommended churn action.
pub struct RequireChurnActionPlan;

/// Risk assessments that rate the risk high.
pub open spec fn high_risk() -> spec_fn(Fact) -> bool {
    |f: Fact| "risk:"@.is_prefix_of(f.id@) && contains(f.content@, "HIGH"@)
}

/// Evaluations that recommend the churn action.
pub open spec fn churn_plan() -> spec_fn(Fact) -> bool {
    |f: Fact| contains(f.content@, "Churn Risk"@) && contains(f.content@, "RECOMMENDED"@)
}

fn is_high_risk(f: &Fact) -> (r: bool)
    ensures
        r == high_risk()(*f),
{
    str_starts_with(f.id.as_str(), "risk:") && str_contains(f.content.as_str(), "HIGH")
}

fn is_churn_plan(f: &Fact) -> (r: bool)
    ensures
        r == churn_plan()(*f),
{
    str_contains(f.content.as_str(), "Churn Risk") && str_contains(
        f.content.as_str(),
        "RECOMMENDED",
    )
}

pub open spec fn churn_plan_verdict(strategies: Seq<Fact>, evaluations: Seq<Fact>) -> Verdict {
    if any(strategies, high_risk()) && !any(evaluations, churn_plan()) {
        broken("high churn risk detected but no action plan provided"@)
    } else {
        Verdict::Pass
    }
}

impl Invariant for RequireChurnActionPlan {
    fn name(&self) -> (r: &'static str)
        ensures
            r@ == "require_churn_action_plan"@,
    {
        "require_churn_action_plan"
    }

    fn class(&self) -> (r: InvariantClass)
        ensures
            r == InvariantClass::Acceptance,
    {
        InvariantClass::Acceptance
    }

    open spec fn verdict(&self, ctx: Context) -> Verdict {
        churn_plan_verdict(
            ctx.facts(ContextKey::Strategies),
            ctx.facts(ContextKey::Evaluations),
        )
    }

    fn check(&self, ctx: &Context) -> (r: InvariantResult) {
        let strategies = ctx.get(ContextKey::Strategies);
        let evaluations = ctx.get(ContextKey::Evaluations);
        if position_by(strategies, is_high_risk, Ghost(high_risk())).is_some() {
            if position_by(evaluations, is_churn_plan, Ghost(churn_plan())).is_none() {
                return InvariantResult::violated(
                    String::from_str("high churn risk detected but no action plan provided"),
                );
            }
        }
        InvariantResult::Holds
    }
}

/// Semantic: once evaluated, the account has usage, support and revenue
/// signals and a risk or opportunity assessment.
pub struct RequireCompleteAnalysis;

/// Risk assessments and opportunities.
pub open spec fn assessment() -> spec_fn(Fact) -> bool {
    |f: Fact| "risk:"@.is_prefix_of(f.id@) || "opportunity:"@.is_prefix_of(f.id@)
}

fn is_assessment(f: &Fact) -> (r: bool)
    ensures
        r == assessment()(*f),
{
    str_starts_with(f.id.as_str(), "risk:") || str_starts_with(f.id.as_str(), "opportunity:")
}

pub open spec fn analysis_verdict(
    signals: Seq<Fact>,
    strategies: Seq<Fact>,
    evaluations: Seq<Fact>,
) -> Verdict {
    if evaluations.len() == 0 {
        Verdict::Pass
    } else if !(any(signals, id_prefix("usage:"@)) && any(signals, id_prefix("support:"@)) && any(
        signals,
        id_prefix("revenue:"@),
    )) {
        broken("missing required signal analysis"@)
    } else if !any(strategies, assessment()) {
        broken("no risk or opportunity assessment provided"@)
    } else {
        Verdict::Pass
    }
}

impl Invariant for RequireCompleteAnalysis {
    fn name(&self) -> (r: &'static str)
        ensures
            r@ == "require_complete_analysis"@,
    {
        "require_complete_analysis"
    }

    fn class(&self) -> (r: InvariantClass)
        ensures
            r == InvariantClass::Semantic,
    {
        InvariantClass::Semantic
    }

    open spec fn verdict(&self, ctx: Context) -> Verdict {
        analysis_verdict(
            ctx.facts(ContextKey::Signals),
            ctx.facts(ContextKey::Strategies),
            ctx.facts(ContextKey::Evaluations),
        )
    }

    fn check(&self, ctx: &Context) -> (r: InvariantResult) {
        if !ctx.has(ContextKey::Evaluations) {
            return InvariantResult::Holds;
        }
        let signals = ctx.get(ContextKey::Signals);
        let all_signals = exists_fact(signals, FactTest::IdPrefix, "usage:") && exists_fact(
            signals,
            FactTest::IdPrefix,
            "support:",
        ) && exists_fact(signals, FactTest::IdPrefix, "revenue:");
        if !all_signals {
            return InvariantResult::violated(String::from_str("missing required signal analysis"));
        }
        if position_by(ctx.get(ContextKey::Strategies), is_assessment, Ghost(assessment())).is_none() {
            return InvariantResult::violated(
                String::from_str("no risk or opportunity assessment provided"),
            );
        }
        InvariantResult::Holds
    }
}

// ---------------------------------------------------------------------------
// Laws: each agent runs once
// ---------------------------------------------------------------------------

/// Law: the usage-signal agent runs once: once the signals it proposes on a
/// context it runs on are added, it does not run again.
pub proof fn lemma_usage_signal_runs_once(ctx: Context, next: Context)
    requires
        UsageSignalAgent.runs_on(ctx),
        next.extends(ctx, UsageSignalAgent.proposes(ctx)),
    ensures
        !UsageSignalAgent.runs_on(next),
{
    reveal_strlit("usage:active-users");
    reveal_strlit("usage:");
    assert("usage:"@.is_prefix_of("usage:active-users"@));
    lemma_added_prefixed(ctx, next, UsageSignalAgent.proposes(ctx), 0, "usage:"@);
}

/// Law: the support-ticket agent runs once.
pub proof fn lemma_support_ticket_runs_once(ctx: Context, next: Context)
    requires
        SupportTicketAgent.runs_on(ctx),
        next.extends(ctx, SupportTicketAgent.proposes(ctx)),
    ensures
        !SupportTicketAgent.runs_on(next),
{
    reveal_strlit("support:tickets");
    reveal_strlit("support:");
    assert("support:"@.is_prefix_of("support:tickets"@));
    lemma_added_prefixed(ctx, next, SupportTicketAgent.proposes(ctx), 0, "support:"@);
}

/// Law: the revenue-trend agent runs once.
pub proof fn lemma_revenue_trend_runs_once(ctx: Context, next: Context)
    requires
        RevenueTrendAgent.runs_on(ctx),
        next.extends(ctx, RevenueTrendAgent.proposes(ctx)),
    ensures
        !RevenueTrendAgent.runs_on(next),
{
    reveal_strlit("revenue:mrr");
    reveal_strlit("revenue:");
    assert("revenue:"@.is_prefix_of("revenue:mrr"@));
    lemma_added_prefixed(ctx, next, RevenueTrendAgent.proposes(ctx), 0, "revenue:"@);
}

/// Law: the churn-risk agent runs once.
pub proof fn lemma_churn_risk_runs_once(ctx: Context, next: Context)
    requires
        ChurnRiskAgent.runs_on(ctx),
        next.extends(ctx, ChurnRiskAgent.proposes(ctx)),
    ensures
        !ChurnRiskAgent.runs_on(next),
{
    lemma_added_fact(ctx, next, ChurnRiskAgent.proposes(ctx), 0);
}

/// Law: the upsell-opportunity agent runs once when it finds an opportunity.
pub proof fn lemma_upsell_opportunity_runs_once(ctx: Context, next: Context)
    requires
        UpsellOpportunityAgent.runs_on(ctx),
        next.extends(ctx, UpsellOpportunityAgent.proposes(ctx)),
        UpsellOpportunityAgent.proposes(ctx).len() > 0,
    ensures
        !UpsellOpportunityAgent.runs_on(next),
{
    reveal_strlit("opportunity:upsell");
    reveal_strlit("opportunity:");
    assert("opportunity:"@.is_prefix_of("opportunity:upsell"@));
    lemma_added_prefixed(ctx, next, UpsellOpportunityAgent.proposes(ctx), 0, "opportunity:"@);
}

/// Law: the action-prioritization agent runs once.
pub proof fn lemma_action_prioritization_runs_once(ctx: Context, next: Context)
    requires
        ActionPrioritizationAgent.runs_on(ctx),
        next.extends(ctx, ActionPrioritizationAgent.proposes(ctx)),
    ensures
        !ActionPrioritizationAgent.runs_on(next),
{
    let acts = account_actions(ctx.facts(ContextKey::Strategies));
    lemma_rank_order_permutation(action_priorities(acts), acts.len(), false);
    lemma_added_fact(ctx, next, ActionPrioritizationAgent.proposes(ctx), 0);
}

/// The churn action is ranked first: there is one, and the upsell action,
/// if any, is not more urgent.
pub open spec fn churn_ranked_first(strategies: Seq<Fact>) -> bool {
    let c = churn_action(strategies);
    let u = upsell_action(strategies);
    c.len() > 0 && (u.len() == 0 || c[0].0 <= u[0].0)
}

/// Law: after the prioritized actions are added, a high churn risk has its
/// recommended churn action, so `RequireChurnActionPlan` holds, whenever the
/// churn action is the one ranked first. (When a high risk is not the first
/// risk assessment and a more urgent upsell is ranked first, it does not.)
pub proof fn lemma_churn_risk_gets_action_plan(ctx: Context, next: Context)
    requires
        ActionPrioritizationAgent.runs_on(ctx),
        next.extends(ctx, ActionPrioritizationAgent.proposes(ctx)),
        any(ctx.facts(ContextKey::Strategies), high_risk()) ==> churn_ranked_first(
            ctx.facts(ContextKey::Strategies),
        ),
    ensures
        RequireChurnActionPlan.verdict(next) == Verdict::Pass,
{
    let strategies = ctx.facts(ContextKey::Strategies);
    if any(next.facts(ContextKey::Strategies), high_risk()) && any(strategies, high_risk()) {
        let acts = account_actions(strategies);
        let keys = action_priorities(acts);
        assert(acts.len() >= 1);
        reveal_with_fuel(rank_order, 3);
        reveal_with_fuel(place, 3);
        if acts.len() == 1 {
            assert(rank_order(keys, 0, false) =~= Seq::<nat>::empty());
            assert(rank_order(keys, 1, false) =~= seq![0nat]);
        } else {
            assert(acts.len() == 2);
            assert(rank_order(keys, 0, false) =~= Seq::<nat>::empty());
            assert(rank_order(keys, 1, false) =~= seq![0nat]);
            assert(place(seq![0nat], keys, keys[1], false) == 1);
            assert(rank_order(keys, 2, false) =~= seq![0nat, 1nat]);
        }
        assert(ranking(keys, false)[0] == 0);
        let added = ActionPrioritizationAgent.proposes(ctx);
        let a = acts[0];
        assert(a.1 == "Churn Risk"@);
        assert(added[0] == action_fact(0, a));
        let pre = "Action "@ + dec(1) + ": "@;
        let mid = " | "@ + a.2 + " | Priority: "@ + "URGENT"@ + " | "@;
        assert(added[0].content == pre + "Churn Risk"@ + (mid + "RECOMMENDED"@));
        lemma_contains_middle(pre, "Churn Risk"@, mid + "RECOMMENDED"@);
        lemma_contains_after_prefix(pre + "Churn Risk"@ + mid, "RECOMMENDED"@);
        assert(pre + "Churn Risk"@ + (mid + "RECOMMENDED"@) =~= pre + "Churn Risk"@ + mid
            + "RECOMMENDED"@);
        lemma_added_fact(ctx, next, added, 0);
        let m = choose|m: int|
            0 <= m < next.facts(added[0].key).len() && (#[trigger] next.facts(added[0].key)[m])@
                == added[0];
        assert(churn_plan()(next.facts(ContextKey::Evaluations)[m]));
    }
    if any(next.facts(ContextKey::Strategies), high_risk()) && !any(strategies, high_risk()) {
        let i = choose|i: int|
            0 <= i < next.facts(ContextKey::Strategies).len() && high_risk()(
                #[trigger] next.facts(ContextKey::Strategies)[i],
            );
        let added = ActionPrioritizationAgent.proposes(ctx);
        assert forall|j: int| 0 <= j < added.len() implies added[j].key == ContextKey::Evaluations by {
        }
        if added.filter(keyed(ContextKey::Strategies)).len() > 0 {
            added.lemma_filter_pred(keyed(ContextKey::Strategies), 0);
            let e = added.filter(keyed(ContextKey::Strategies))[0];
            added.lemma_filter_contains_rev(keyed(ContextKey::Strategies), e);
            assert(false);
        }
        assert(added.filter(keyed(ContextKey::Strategies)) =~= Seq::<FactView>::empty());
        assert(fact_views(next.facts(ContextKey::Strategies)) =~= fact_views(strategies));
        assert(fact_views(next.facts(ContextKey::Strategies))[i] == next.facts(
            ContextKey::Strategies,
        )[i]@);
        assert(high_risk()(strategies[i]));
    }
}

/// Whether the first signal with id `id` mentions `good`.
pub open spec fn reads_good(signals: Seq<Fact>, id: Seq<char>, good: Seq<char>) -> bool {
    match find(signals, id_is(id)) {
        Some(s) => contains(s.content@, good),
        None => false,
    }
}

/// The risk an indicator adds: nothing when its signal reads well, 20 when
/// it is missing, 40 when it reads badly.
pub open spec fn risk_penalty(signals: Seq<Fact>, id: Seq<char>, good: Seq<char>) -> nat {
    if reads_good(signals, id, good) {
        0
    } else if any(signals, id_is(id)) {
        40
    } else {
        20
    }
}

/// The level a churn risk score reads as.
pub open spec fn risk_level_of(score: nat) -> Seq<char> {
    if score < 30 {
        "LOW"@
    } else if score < 60 {
        "MEDIUM"@
    } else {
        "HIGH"@
    }
}

/// Law: the churn assessment adds 20 to the risk score for each indicator
/// (usage trend, support health, revenue growth) that is missing and 40 for
/// each that reads badly, so improving an indicator never raises it. An
/// account whose three indicators all read well is LOW with score 0 and low
/// priority; one whose three indicators all read badly is HIGH with score 120
/// and needs immediate intervention.
pub proof fn lemma_churn_assessment(ctx: Context)
    ensures
        ({
            let signals = ctx.facts(ContextKey::Signals);
            let score = risk_penalty(signals, "usage:active-users"@, "+"@) + risk_penalty(
                signals,
                "support:escalations"@,
                "Healthy"@,
            ) + risk_penalty(signals, "revenue:mrr"@, "+"@);
            let p = ChurnRiskAgent.proposes(ctx);
            &&& p.len() == 1
            &&& p[0].key == ContextKey::Strategies
            &&& p[0].id == "risk:churn"@
            &&& ("Churn risk: "@ + risk_level_of(score) + " | Score: "@ + dec(score)
                + "/100 | Factors: "@).is_prefix_of(p[0].content)
            &&& (reads_good(signals, "usage:active-users"@, "+"@) && reads_good(
                signals,
                "support:escalations"@,
                "Healthy"@,
            ) && reads_good(signals, "revenue:mrr"@, "+"@)) ==> p[0].content
                == "Churn risk: LOW | Score: 0/100 | Factors: Usage trend: Positive, Support: Healthy, Revenue: Growing | Action: Low priority"@
            &&& (any(signals, id_is("usage:active-users"@)) && !reads_good(
                signals,
                "usage:active-users"@,
                "+"@,
            ) && any(signals, id_is("support:escalations"@)) && !reads_good(
                signals,
                "support:escalations"@,
                "Healthy"@,
            ) && any(signals, id_is("revenue:mrr"@)) && !reads_good(
                signals,
                "revenue:mrr"@,
                "+"@,
            )) ==> p[0].content
                == "Churn risk: HIGH | Score: 120/100 | Factors: Usage trend: Negative, Support: Concerning, Revenue: Declining | Action: IMMEDIATE INTERVENTION"@
        }),
{
    let signals = ctx.facts(ContextKey::Signals);
    lemma_indicator_penalty(signals, "usage:active-users"@, "+"@);
    lemma_indicator_penalty(signals, "support:escalations"@, "Healthy"@);
    lemma_indicator_penalty(signals, "revenue:mrr"@, "+"@);
    lemma_churn_prefix(signals);
    lemma_churn_extremes(signals);
}

/// The churn fact's text is the risk level and score, then the factors.
proof fn lemma_churn_prefix(signals: Seq<Fact>)
    requires
        ({
            let u = "usage:active-users"@;
            let su = "support:escalations"@;
            let r = "revenue:mrr"@;
            &&& indicator(signals, u, "+"@) * 20 + 20 + risk_penalty(signals, u, "+"@) == 40
            &&& indicator(signals, su, "Healthy"@) * 20 + 20 + risk_penalty(signals, su, "Healthy"@) == 40
            &&& indicator(signals, r, "+"@) * 20 + 20 + risk_penalty(signals, r, "+"@) == 40
        }),
    ensures
        ({
            let score = risk_penalty(signals, "usage:active-users"@, "+"@) + risk_penalty(
                signals,
                "support:escalations"@,
                "Healthy"@,
            ) + risk_penalty(signals, "revenue:mrr"@, "+"@);
            ("Churn risk: "@ + risk_level_of(score) + " | Score: "@ + dec(score)
                + "/100 | Factors: "@).is_prefix_of(churn_fact(signals).content)
        }),
{
    let usage = indicator(signals, "usage:active-users"@, "+"@);
    let support = indicator(signals, "support:escalations"@, "Healthy"@);
    let revenue = indicator(signals, "revenue:mrr"@, "+"@);
    let score = risk_penalty(signals, "usage:active-users"@, "+"@) + risk_penalty(
        signals,
        "support:escalations"@,
        "Healthy"@,
    ) + risk_penalty(signals, "revenue:mrr"@, "+"@);
    assert(churn_score(usage, support, revenue) == score);
    let c = churn_fact(signals).content;
    let head = "Churn risk: "@ + risk_level_of(score) + " | Score: "@ + dec(score);
    reveal_strlit("/100 | Factors: ");
    reveal_strlit("/100 | Factors: Usage trend: ");
    reveal_strlit("Usage trend: ");
    assert("/100 | Factors: Usage trend: "@ =~= "/100 | Factors: "@ + "Usage trend: "@);
    let tail = c.subrange((head + "/100 | Factors: "@).len() as int, c.len() as int);
    assert(c =~= (head + "/100 | Factors: "@) + tail);
    lemma_prefix_of_concat(head + "/100 | Factors: "@, tail);
}

/// The churn fact of an account whose indicators all read well, or all read
/// badly.
proof fn lemma_churn_extremes(signals: Seq<Fact>)
    requires
        ({
            let u = "usage:active-users"@;
            let su = "support:escalations"@;
            let r = "revenue:mrr"@;
            &&& indicator(signals, u, "+"@) == 1 <==> reads_good(signals, u, "+"@)
            &&& indicator(signals, u, "+"@) == 0 <==> !any(signals, id_is(u))
            &&& indicator(signals, su, "Healthy"@) == 1 <==> reads_good(signals, su, "Healthy"@)
            &&& indicator(signals, su, "Healthy"@) == 0 <==> !any(signals, id_is(su))
            &&& indicator(signals, r, "+"@) == 1 <==> reads_good(signals, r, "+"@)
            &&& indicator(signals, r, "+"@) == 0 <==> !any(signals, id_is(r))
        }),
    ensures
        (reads_good(signals, "usage:active-users"@, "+"@) && reads_good(
            signals,
            "support:escalations"@,
            "Healthy"@,
        ) && reads_good(signals, "revenue:mrr"@, "+"@)) ==> churn_fact(signals).content
            == "Churn risk: LOW | Score: 0/100 | Factors: Usage trend: Positive, Support: Healthy, Revenue: Growing | Action: Low priority"@,
        (any(signals, id_is("usage:active-users"@)) && !reads_good(
            signals,
            "usage:active-users"@,
            "+"@,
        ) && any(signals, id_is("support:escalations"@)) && !reads_good(
            signals,
            "support:escalations"@,
            "Healthy"@,
        ) && any(signals, id_is("revenue:mrr"@)) && !reads_good(signals, "revenue:mrr"@, "+"@))
            ==> churn_fact(signals).content
            == "Churn risk: HIGH | Score: 120/100 | Factors: Usage trend: Negative, Support: Concerning, Revenue: Declining | Action: IMMEDIATE INTERVENTION"@,
{
    let usage = indicator(signals, "usage:active-users"@, "+"@);
    let support = indicator(signals, "support:escalations"@, "Healthy"@);
    let revenue = indicator(signals, "revenue:mrr"@, "+"@);
    assert(-1 <= usage <= 1 && -1 <= support <= 1 && -1 <= revenue <= 1);
    reveal_strlit("Churn risk: ");
    reveal_strlit("LOW");
    reveal_strlit("HIGH");
    reveal_strlit(" | Score: ");
    reveal_strlit("/100 | Factors: Usage trend: ");
    reveal_strlit("Positive");
    reveal_strlit("Negative");
    reveal_strlit(", Support: ");
    reveal_strlit("Healthy");
    reveal_strlit("Concerning");
    reveal_strlit(", Revenue: ");
    reveal_strlit("Growing");
    reveal_strlit("Declining");
    reveal_strlit(" | Action: ");
    reveal_strlit("Low priority");
    reveal_strlit("IMMEDIATE INTERVENTION");
    if usage == 1 && support == 1 && revenue == 1 {
        assert(churn_score(usage, support, revenue) == 0);
        assert(dec(0) =~= seq!['0']);
        reveal_strlit(
            "Churn risk: LOW | Score: 0/100 | Factors: Usage trend: Positive, Support: Healthy, Revenue: Growing | Action: Low priority",
        );
        assert(churn_fact(signals).content
            =~= "Churn risk: LOW | Score: 0/100 | Factors: Usage trend: Positive, Support: Healthy, Revenue: Growing | Action: Low priority"@);
    }
    if usage == -1 && support == -1 && revenue == -1 {
        assert(churn_score(usage, support, revenue) == 120);
        reveal_with_fuel(dec, 3);
        assert(dec(120) =~= seq!['1', '2', '0']);
        reveal_strlit(
            "Churn risk: HIGH | Score: 120/100 | Factors: Usage trend: Negative, Support: Concerning, Revenue: Declining | Action: IMMEDIATE INTERVENTION",
        );
        assert(churn_fact(signals).content
            =~= "Churn risk: HIGH | Score: 120/100 | Factors: Usage trend: Negative, Support: Concerning, Revenue: Declining | Action: IMMEDIATE INTERVENTION"@);
    }
}

/// An indicator is +1 exactly when its signal reads well, 0 when it is
/// missing, and -1 otherwise.
proof fn lemma_indicator_penalty(signals: Seq<Fact>, id: Seq<char>, good: Seq<char>)
    ensures
        indicator(signals, id, good) == 1 <==> reads_good(signals, id, good),
        indicator(signals, id, good) == 0 <==> !any(signals, id_is(id)),
        indicator(signals, id, good) * 20 + 20 + risk_penalty(signals, id, good) == 40,
{
    if any(signals, id_is(id)) {
        lemma_find_some(signals, id_is(id));
    } else {
        lemma_find_none(signals, id_is(id));
    }
}

} // verus!
