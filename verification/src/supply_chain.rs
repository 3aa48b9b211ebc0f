//! Supply chain re-planning agents: routing, sourcing and delivery.
//!
//! ```text
//! Seeds (orders, supplier delay)
//!    │
//!    ├─► DemandSnapshotAgent → Signals (order requirements)
//!    ├─► InventoryStateAgent → Signals (stock levels)
//!    └─► SupplierStatusAgent → Signals (supplier availability)
//!    │
//!    ├─► RouteGenerationAgent → Strategies (alternative routes)
//!    ├─► CostEstimationAgent → Strategies (cost analysis)
//!    ├─► RiskAssessmentAgent → Strategies (risk scores)
//!    └─► SLAValidationAgent → Constraints (SLA requirements)
//!    │
//!    ▼
//! ConsolidationAgent → Evaluations (feasible plans ranked)
//! ```
//!
//! Delivery times are decimal numbers of days. Reading them as numbers and
//! comparing them with the service level is left to the caller, which hands
//! the outcome to [`ConsolidationAgent::plans`] and
//! [`RequireSLACompliance::verdict`].
use crate::agent::{
    any, both, broken, broken_at, exists_fact, filter_facts, find, id_is, id_prefix, is_first,
    lemma_find_none, lemma_first_unique, position, position_both, position_by, Agent, FactTest,
    Invariant, InvariantClass, InvariantResult, Verdict,
};
use crate::context::{
    fact_views, fv, lemma_take_push, push_fact, AgentEffect, Context, ContextKey, Fact, FactView,
};
use crate::rank::{
    idx, in_rank_order, is_permutation, lemma_rank_order_permutation, lemma_rank_order_ranked,
    nats, rank_indices, rank_label, rank_label_str, ranking,
};
use crate::text::{
    after, after_str, and_before, and_before_str, and_first_word, and_first_word_str,
    count_matches, count_matches_str, contains, dec, opt_view, parse_u32, parse_u32_str, push_dec,
    str_contains, str_eq, str_starts_with, str_strip_suffix, strip_prefix_or, strip_prefix_or_str,
    strip_suffix, u32_or, u32_or_str, views,
};
use crate::agent::{lemma_added_fact, lemma_added_prefixed, lemma_any_filter};
use crate::text::lemma_prefix_of_concat;
use vstd::prelude::*;

verus! {

// ---------------------------------------------------------------------------
// Demand snapshot
// ---------------------------------------------------------------------------

/// Captures the demand from the orders seed.
pub struct DemandSnapshotAgent;

/// Seeds that carry orders.
pub open spec fn orders_seed() -> spec_fn(Fact) -> bool {
    |f: Fact| f.id@ == "orders"@ || contains(f.content@, "Order"@)
}

fn is_orders_seed(f: &Fact) -> (r: bool)
    ensures
        r == orders_seed()(*f),
{
    str_eq(f.id.as_str(), "orders") || str_contains(f.content.as_str(), "Order")
}

/// The demand snapshot: the orders the `orders` seed mentions, ten units
/// each; three orders when there is no such seed.
pub open spec fn demand_facts(seeds: Seq<Fact>) -> Seq<FactView> {
    match find(seeds, id_is("orders"@)) {
        Some(seed) => {
            let n = count_matches(seed.content@, "Order"@);
            seq![
                fv(
                    ContextKey::Signals,
                    "demand:snapshot"@,
                    "Demand snapshot: "@ + dec(n) + " orders | Total units: "@ + dec(n * 10)
                        + " | Priority: High"@,
                ),
            ]
        },
        None => seq![
            fv(
                ContextKey::Signals,
                "demand:snapshot"@,
                "Demand snapshot: 3 orders | Total units: 30 | Priority: High"@,
            ),
        ],
    }
}

impl Agent for DemandSnapshotAgent {
    fn name(&self) -> (r: &'static str)
        ensures
            r@ == "DemandSnapshotAgent"@,
    {
        "DemandSnapshotAgent"
    }

    fn dependencies(&self) -> (r: Vec<ContextKey>)
        ensures
            r@ == seq![ContextKey::Seeds],
    {
        vec![ContextKey::Seeds]
    }

    /// Runs once: when a seed carries orders and no demand signal exists.
    open spec fn runs_on(&self, ctx: Context) -> bool {
        (any(ctx.facts(ContextKey::Seeds), orders_seed()) && !any(
            ctx.facts(ContextKey::Signals),
            id_prefix("demand:"@),
        ))
    }

    fn accepts(&self, ctx: &Context) -> (r: bool) {
        position_by(ctx.get(ContextKey::Seeds), is_orders_seed, Ghost(orders_seed())).is_some()
            && !exists_fact(ctx.get(ContextKey::Signals), FactTest::IdPrefix, "demand:")
    }

    open spec fn proposes(&self, ctx: Context) -> Seq<FactView> {
        demand_facts(ctx.facts(ContextKey::Seeds))
    }

    fn execute(&self, ctx: &Context) -> (r: AgentEffect) {
        let seeds = ctx.get(ContextKey::Seeds);
        let mut facts: Vec<Fact> = Vec::new();
        match position(seeds, FactTest::IdIs, "orders") {
            Some(k) => {
                proof {
                    reveal_strlit("Order");
                }
                let n = count_matches_str(seeds[k].content.as_str(), "Order");
                let mut c = String::from_str("Demand snapshot: ");
                push_dec(&mut c, n as u128);
                c.append(" orders | Total units: ");
                push_dec(&mut c, n as u128 * 10);
                c.append(" | Priority: High");
                push_fact(
                    &mut facts,
                    Fact::from_strings(ContextKey::Signals, String::from_str("demand:snapshot"), c),
                );
            },
            None => {
                push_fact(
                    &mut facts,
                    Fact::new(
                        ContextKey::Signals,
                        "demand:snapshot",
                        "Demand snapshot: 3 orders | Total units: 30 | Priority: High",
                    ),
                );
            },
        }
        let r = AgentEffect::with_facts(facts);
        assert(r@ =~= demand_facts(seeds@));
        r
    }
}

// ---------------------------------------------------------------------------
// Inventory state
// ---------------------------------------------------------------------------

/// Reports the stock held in each warehouse.
pub struct InventoryStateAgent;

/// The stock of the three warehouses.
pub open spec fn warehouse_facts() -> Seq<FactView> {
    seq![
        fv(
            ContextKey::Signals,
            "inventory:warehouse-a"@,
            "Warehouse A: 50 units | Location: East | Status: Available"@,
        ),
        fv(
            ContextKey::Signals,
            "inventory:warehouse-b"@,
            "Warehouse B: 30 units | Location: West | Status: Available"@,
        ),
        fv(
            ContextKey::Signals,
            "inventory:warehouse-c"@,
            "Warehouse C: 20 units | Location: Central | Status: Low stock"@,
        ),
    ]
}

impl Agent for InventoryStateAgent {
    fn name(&self) -> (r: &'static str)
        ensures
            r@ == "InventoryStateAgent"@,
    {
        "InventoryStateAgent"
    }

    fn dependencies(&self) -> (r: Vec<ContextKey>)
        ensures
            r@ == seq![ContextKey::Seeds],
    {
        vec![ContextKey::Seeds]
    }

    /// Runs once: when seeds exist and no inventory signal does.
    open spec fn runs_on(&self, ctx: Context) -> bool {
        (ctx.facts(ContextKey::Seeds).len() > 0 && !any(
            ctx.facts(ContextKey::Signals),
            id_prefix("inventory:"@),
        ))
    }

    fn accepts(&self, ctx: &Context) -> (r: bool) {
        ctx.has(ContextKey::Seeds) && !exists_fact(
            ctx.get(ContextKey::Signals),
            FactTest::IdPrefix,
            "inventory:",
        )
    }

    open spec fn proposes(&self, ctx: Context) -> Seq<FactView> {
        warehouse_facts()
    }

    fn execute(&self, ctx: &Context) -> (r: AgentEffect) {
        let mut facts: Vec<Fact> = Vec::new();
        push_fact(
            &mut facts,
            Fact::new(
                ContextKey::Signals,
                "inventory:warehouse-a",
                "Warehouse A: 50 units | Location: East | Status: Available",
            ),
        );
        push_fact(
            &mut facts,
            Fact::new(
                ContextKey::Signals,
                "inventory:warehouse-b",
                "Warehouse B: 30 units | Location: West | Status: Available",
            ),
        );
        push_fact(
            &mut facts,
            Fact::new(
                ContextKey::Signals,
                "inventory:warehouse-c",
                "Warehouse C: 20 units | Location: Central | Status: Low stock",
            ),
        );
        let r = AgentEffect::with_facts(facts);
        assert(r@ =~= warehouse_facts());
        r
    }
}

// ---------------------------------------------------------------------------
// Supplier status
// ---------------------------------------------------------------------------

/// Reports which suppliers are available.
pub struct SupplierStatusAgent;

/// Seeds that report a delay.
pub open spec fn delay_seed() -> spec_fn(Fact) -> bool {
    |f: Fact| contains(f.id@, "delay"@) || contains(f.content@, "delayed"@)
}

fn is_delay_seed(f: &Fact) -> (r: bool)
    ensures
        r == delay_seed()(*f),
{
    str_contains(f.id.as_str(), "delay") || str_contains(f.content.as_str(), "delayed")
}

/// Supplier X when a seed reports a delay, then suppliers Y and Z.
pub open spec fn supplier_status_facts(seeds: Seq<Fact>) -> Seq<FactView> {
    (if any(seeds, delay_seed()) {
        seq![
            fv(
                ContextKey::Signals,
                "supplier:x"@,
                "Supplier X: DELAYED 3 days | Capacity: 0 | Alternative: Supplier Y available"@,
            ),
        ]
    } else {
        seq![]
    }) + seq![
        fv(
            ContextKey::Signals,
            "supplier:y"@,
            "Supplier Y: Available | Lead time: 2 days | Capacity: 100 units"@,
        ),
        fv(
            ContextKey::Signals,
            "supplier:z"@,
            "Supplier Z: Available | Lead time: 5 days | Capacity: 50 units"@,
        ),
    ]
}

impl Agent for SupplierStatusAgent {
    fn name(&self) -> (r: &'static str)
        ensures
            r@ == "SupplierStatusAgent"@,
    {
        "SupplierStatusAgent"
    }

    fn dependencies(&self) -> (r: Vec<ContextKey>)
        ensures
            r@ == seq![ContextKey::Seeds],
    {
        vec![ContextKey::Seeds]
    }

    /// Runs once: when seeds exist and no supplier signal does.
    open spec fn runs_on(&self, ctx: Context) -> bool {
        (ctx.facts(ContextKey::Seeds).len() > 0 && !any(
            ctx.facts(ContextKey::Signals),
            id_prefix("supplier:"@),
        ))
    }

    fn accepts(&self, ctx: &Context) -> (r: bool) {
        ctx.has(ContextKey::Seeds) && !exists_fact(
            ctx.get(ContextKey::Signals),
            FactTest::IdPrefix,
            "supplier:",
        )
    }

    open spec fn proposes(&self, ctx: Context) -> Seq<FactView> {
        supplier_status_facts(ctx.facts(ContextKey::Seeds))
    }

    fn execute(&self, ctx: &Context) -> (r: AgentEffect) {
        let seeds = ctx.get(ContextKey::Seeds);
        let mut facts: Vec<Fact> = Vec::new();
        if position_by(seeds, is_delay_seed, Ghost(delay_seed())).is_some() {
            push_fact(
                &mut facts,
                Fact::new(
                    ContextKey::Signals,
                    "supplier:x",
                    "Supplier X: DELAYED 3 days | Capacity: 0 | Alternative: Supplier Y available",
                ),
            );
        }
        push_fact(
            &mut facts,
            Fact::new(
                ContextKey::Signals,
                "supplier:y",
                "Supplier Y: Available | Lead time: 2 days | Capacity: 100 units",
            ),
        );
        push_fact(
            &mut facts,
            Fact::new(
                ContextKey::Signals,
                "supplier:z",
                "Supplier Z: Available | Lead time: 5 days | Capacity: 50 units",
            ),
        );
        let r = AgentEffect::with_facts(facts);
        assert(r@ =~= supplier_status_facts(seeds@));
        r
    }
}

// ---------------------------------------------------------------------------
// Route generation
// ---------------------------------------------------------------------------

/// Proposes delivery routes, with alternatives when a supplier is delayed.
pub struct RouteGenerationAgent;

/// Facts that report a delay.
pub open spec fn reports_delay() -> spec_fn(Fact) -> bool {
    |f: Fact| contains(f.content@, "DELAYED"@) || contains(f.content@, "delayed"@)
}

fn is_delay_report(f: &Fact) -> (r: bool)
    ensures
        r == reports_delay()(*f),
{
    str_contains(f.content.as_str(), "DELAYED") || str_contains(f.content.as_str(), "delayed")
}

/// Three alternative routes when a signal reports a delay, else the standard
/// route.
pub open spec fn route_facts(signals: Seq<Fact>) -> Seq<FactView> {
    if any(signals, reports_delay()) {
        seq![
            fv(
                ContextKey::Strategies,
                "route:alternative-1"@,
                "Route 1: Warehouse A → Supplier Y → Delivery | Distance: 200km | Time: 2 days"@,
            ),
            fv(
                ContextKey::Strategies,
                "route:alternative-2"@,
                "Route 2: Warehouse B → Supplier Y → Delivery | Distance: 150km | Time: 1.5 days"@,
            ),
            fv(
                ContextKey::Strategies,
                "route:alternative-3"@,
                "Route 3: Warehouse A + B → Supplier Y → Delivery | Distance: 180km | Time: 2 days"@,
            ),
        ]
    } else {
        seq![
            fv(
                ContextKey::Strategies,
                "route:standard"@,
                "Route: Standard path | Distance: 100km | Time: 1 day"@,
            ),
        ]
    }
}

impl Agent for RouteGenerationAgent {
    fn name(&self) -> (r: &'static str)
        ensures
            r@ == "RouteGenerationAgent"@,
    {
        "RouteGenerationAgent"
    }

    fn dependencies(&self) -> (r: Vec<ContextKey>)
        ensures
            r@ == seq![ContextKey::Signals],
    {
        vec![ContextKey::Signals]
    }

    /// Runs once: when demand, inventory and supplier signals exist and no
    /// strategy does.
    open spec fn runs_on(&self, ctx: Context) -> bool {
        (any(ctx.facts(ContextKey::Signals), id_prefix("demand:"@)) && any(
            ctx.facts(ContextKey::Signals),
            id_prefix("inventory:"@),
        ) && any(ctx.facts(ContextKey::Signals), id_prefix("supplier:"@)) && ctx.facts(
            ContextKey::Strategies,
        ).len() == 0)
    }

    fn accepts(&self, ctx: &Context) -> (r: bool) {
        let signals = ctx.get(ContextKey::Signals);
        exists_fact(signals, FactTest::IdPrefix, "demand:") && exists_fact(
            signals,
            FactTest::IdPrefix,
            "inventory:",
        ) && exists_fact(signals, FactTest::IdPrefix, "supplier:") && !ctx.has(
            ContextKey::Strategies,
        )
    }

    open spec fn proposes(&self, ctx: Context) -> Seq<FactView> {
        route_facts(ctx.facts(ContextKey::Signals))
    }

    fn execute(&self, ctx: &Context) -> (r: AgentEffect) {
        let signals = ctx.get(ContextKey::Signals);
        let mut facts: Vec<Fact> = Vec::new();
        if position_by(signals, is_delay_report, Ghost(reports_delay())).is_some() {
            push_fact(
                &mut facts,
                Fact::new(
                    ContextKey::Strategies,
                    "route:alternative-1",
                    "Route 1: Warehouse A → Supplier Y → Delivery | Distance: 200km | Time: 2 days",
                ),
            );
            push_fact(
                &mut facts,
                Fact::new(
                    ContextKey::Strategies,
                    "route:alternative-2",
                    "Route 2: Warehouse B → Supplier Y → Delivery | Distance: 150km | Time: 1.5 days",
                ),
            );
            push_fact(
                &mut facts,
                Fact::new(
                    ContextKey::Strategies,
                    "route:alternative-3",
                    "Route 3: Warehouse A + B → Supplier Y → Delivery | Distance: 180km | Time: 2 days",
                ),
            );
        } else {
            push_fact(
                &mut facts,
                Fact::new(
                    ContextKey::Strategies,
                    "route:standard",
                    "Route: Standard path | Distance: 100km | Time: 1 day",
                ),
            );
        }
        let r = AgentEffect::with_facts(facts);
        assert(r@ =~= route_facts(signals@));
        r
    }
}

// ---------------------------------------------------------------------------
// Cost estimation
// ---------------------------------------------------------------------------

/// Estimates the cost of each route.
pub struct CostEstimationAgent;

/// The routes, in strategy order.
pub open spec fn routes(strategies: Seq<Fact>) -> Seq<Fact> {
    strategies.filter(id_prefix("route:"@))
}

/// The route id without its `route:` prefix.
pub open spec fn route_key(route: Fact) -> Seq<char> {
    strip_prefix_or(route.id@, "route:"@, "unknown"@)
}

/// The distance a route states after `Distance: `, in km, or 100.
pub open spec fn route_distance(content: Seq<char>) -> nat {
    match and_first_word(after(content, "Distance: "@)) {
        Some(w) => match strip_suffix(w, "km"@) {
            Some(d) => match parse_u32(d) {
                Some(v) => v,
                None => 100,
            },
            None => 100,
        },
        None => 100,
    }
}

/// The distance a route states, in km, or 100.
pub fn read_route_distance(content: &str) -> (r: u32)
    ensures
        r as nat == route_distance(content@),
{
    proof {
        reveal_strlit("Distance: ");
    }
    match and_first_word_str(after_str(content, "Distance: ")) {
        Some(w) => match str_strip_suffix(w.as_str(), "km") {
            Some(d) => match parse_u32_str(d.as_str()) {
                Some(v) => v,
                None => 100,
            },
            None => 100,
        },
        None => 100,
    }
}

/// The cost estimate of a route: two per km plus 50 for handling.
pub open spec fn cost_fact(route: Fact) -> FactView {
    let d = route_distance(route.content@);
    fv(
        ContextKey::Strategies,
        "cost:"@ + route_key(route),
        "Cost estimate: $"@ + dec(d * 2 + 50) + " | Route: "@ + route.id@
            + " | Breakdown: Transport $"@ + dec(d * 2) + ", Handling $50"@,
    )
}

/// One cost estimate per route, in order.
pub open spec fn cost_facts(strategies: Seq<Fact>) -> Seq<FactView> {
    routes(strategies).map_values(|r: Fact| cost_fact(r))
}

impl Agent for CostEstimationAgent {
    fn name(&self) -> (r: &'static str)
        ensures
            r@ == "CostEstimationAgent"@,
    {
        "CostEstimationAgent"
    }

    fn dependencies(&self) -> (r: Vec<ContextKey>)
        ensures
            r@ == seq![ContextKey::Strategies, ContextKey::Signals],
    {
        vec![ContextKey::Strategies, ContextKey::Signals]
    }

    /// Runs once: when routes exist and no cost estimate does.
    open spec fn runs_on(&self, ctx: Context) -> bool {
        (ctx.facts(ContextKey::Strategies).len() > 0 && any(
            ctx.facts(ContextKey::Strategies),
            id_prefix("route:"@),
        ) && !any(ctx.facts(ContextKey::Strategies), id_prefix("cost:"@)))
    }

    fn accepts(&self, ctx: &Context) -> (r: bool) {
        let strategies = ctx.get(ContextKey::Strategies);
        ctx.has(ContextKey::Strategies) && exists_fact(strategies, FactTest::IdPrefix, "route:")
            && !exists_fact(strategies, FactTest::IdPrefix, "cost:")
    }

    open spec fn proposes(&self, ctx: Context) -> Seq<FactView> {
        cost_facts(ctx.facts(ContextKey::Strategies))
    }

    #[verifier::loop_isolation(false)]
    fn execute(&self, ctx: &Context) -> (r: AgentEffect) {
        let rs = filter_facts(ctx.get(ContextKey::Strategies), FactTest::IdPrefix, "route:");
        let ghost spec = cost_facts(ctx.facts(ContextKey::Strategies));
        let n = rs.len();
        let mut facts: Vec<Fact> = Vec::new();
        let mut i: usize = 0;
        while i < n
            invariant
                n == rs.len(),
                rs@ == routes(ctx.facts(ContextKey::Strategies)),
                i <= n,
                spec.len() == n,
                fact_views(facts@) == spec.take(i as int),
            decreases n - i,
        {
            let route = &rs[i];
            let d = read_route_distance(route.content.as_str()) as u128;
            let key = strip_prefix_or_str(route.id.as_str(), "route:", "unknown");
            let mut id = String::from_str("cost:");
            id.append(key.as_str());
            let mut c = String::from_str("Cost estimate: $");
            push_dec(&mut c, d * 2 + 50);
            c.append(" | Route: ");
            c.append(route.id.as_str());
            c.append(" | Breakdown: Transport $");
            push_dec(&mut c, d * 2);
            c.append(", Handling $50");
            let f = Fact::from_strings(ContextKey::Strategies, id, c);
            proof {
                assert(f@ == spec[i as int]);
                lemma_take_push(spec, i as int);
            }
            push_fact(&mut facts, f);
            i = i + 1;
        }
        assert(spec.take(n as int) =~= spec);
        AgentEffect::with_facts(facts)
    }
}

// ---------------------------------------------------------------------------
// Risk assessment
// ---------------------------------------------------------------------------

/// Assesses the risk of each route.
pub struct RiskAssessmentAgent;

/// Routes through warehouse B are low risk, the others medium.
pub open spec fn route_risk_level(content: Seq<char>) -> Seq<char> {
    if contains(content, "Warehouse B"@) {
        "LOW"@
    } else {
        "MEDIUM"@
    }
}

/// The risk assessment of a route.
pub open spec fn route_risk_fact(route: Fact, delay: bool) -> FactView {
    let level = route_risk_level(route.content@);
    fv(
        ContextKey::Strategies,
        "risk:"@ + route_key(route),
        "Risk assessment: "@ + level + " | Score: "@ + (if level == "LOW"@ {
            "20"@
        } else {
            "50"@
        }) + "/100 | Factors: "@ + (if delay {
            "Supplier delay, alternative routing"@
        } else {
            "Standard operations"@
        }),
    )
}

/// One risk assessment per route, in order.
pub open spec fn route_risk_facts(strategies: Seq<Fact>, signals: Seq<Fact>) -> Seq<FactView> {
    routes(strategies).map_values(|r: Fact| route_risk_fact(r, any(signals, reports_delay())))
}

impl Agent for RiskAssessmentAgent {
    fn name(&self) -> (r: &'static str)
        ensures
            r@ == "RiskAssessmentAgent"@,
    {
        "RiskAssessmentAgent"
    }

    fn dependencies(&self) -> (r: Vec<ContextKey>)
        ensures
            r@ == seq![ContextKey::Strategies, ContextKey::Signals],
    {
        vec![ContextKey::Strategies, ContextKey::Signals]
    }

    /// Runs once: when strategies exist and no risk assessment does.
    open spec fn runs_on(&self, ctx: Context) -> bool {
        (ctx.facts(ContextKey::Strategies).len() > 0 && !any(
            ctx.facts(ContextKey::Strategies),
            id_prefix("risk:"@),
        ))
    }

    fn accepts(&self, ctx: &Context) -> (r: bool) {
        ctx.has(ContextKey::Strategies) && !exists_fact(
            ctx.get(ContextKey::Strategies),
            FactTest::IdPrefix,
            "risk:",
        )
    }

    open spec fn proposes(&self, ctx: Context) -> Seq<FactView> {
        route_risk_facts(
            ctx.facts(ContextKey::Strategies),
            ctx.facts(ContextKey::Signals),
        )
    }

    #[verifier::loop_isolation(false)]
    fn execute(&self, ctx: &Context) -> (r: AgentEffect) {
        let signals = ctx.get(ContextKey::Signals);
        let delay = position_by(signals, is_delay_report, Ghost(reports_delay())).is_some();
        let rs = filter_facts(ctx.get(ContextKey::Strategies), FactTest::IdPrefix, "route:");
        let ghost spec = route_risk_facts(ctx.facts(ContextKey::Strategies), signals@);
        let n = rs.len();
        let mut facts: Vec<Fact> = Vec::new();
        let mut i: usize = 0;
        proof {
            reveal_strlit("LOW");
            reveal_strlit("MEDIUM");
        }
        while i < n
            invariant
                n == rs.len(),
                rs@ == routes(ctx.facts(ContextKey::Strategies)),
                delay == any(signals@, reports_delay()),
                i <= n,
                spec.len() == n,
                fact_views(facts@) == spec.take(i as int),
            decreases n - i,
        {
            let route = &rs[i];
            let low = str_contains(route.content.as_str(), "Warehouse B");
            let key = strip_prefix_or_str(route.id.as_str(), "route:", "unknown");
            let mut id = String::from_str("risk:");
            id.append(key.as_str());
            let mut c = String::from_str("Risk assessment: ");
            c.append(
                if low {
                    "LOW"
                } else {
                    "MEDIUM"
                },
            );
            c.append(" | Score: ");
            c.append(
                if low {
                    "20"
                } else {
                    "50"
                },
            );
            c.append("/100 | Factors: ");
            c.append(
                if delay {
                    "Supplier delay, alternative routing"
                } else {
                    "Standard operations"
                },
            );
            let f = Fact::from_strings(ContextKey::Strategies, id, c);
            proof {
                assert("LOW"@ != "MEDIUM"@) by {
                    assert("LOW"@.len() != "MEDIUM"@.len());
                }
                assert(f@ == spec[i as int]);
                lemma_take_push(spec, i as int);
            }
            push_fact(&mut facts, f);
            i = i + 1;
        }
        assert(spec.take(n as int) =~= spec);
        AgentEffect::with_facts(facts)
    }
}

// ---------------------------------------------------------------------------
// SLA validation
// ---------------------------------------------------------------------------

/// States the service-level agreement.
pub struct SLAValidationAgent;

/// The delivery-time and quality requirements.
pub open spec fn sla_facts() -> Seq<FactView> {
    seq![
        fv(
            ContextKey::Constraints,
            "sla:delivery-time"@,
            "SLA: Delivery within 3 days | Penalty: $100/day delay"@,
        ),
        fv(
            ContextKey::Constraints,
            "sla:quality"@,
            "SLA: Quality standard must be maintained | No substitutions allowed"@,
        ),
    ]
}

impl Agent for SLAValidationAgent {
    fn name(&self) -> (r: &'static str)
        ensures
            r@ == "SLAValidationAgent"@,
    {
        "SLAValidationAgent"
    }

    fn dependencies(&self) -> (r: Vec<ContextKey>)
        ensures
            r@ == seq![ContextKey::Strategies],
    {
        vec![ContextKey::Strategies]
    }

    /// Runs once: when strategies exist and no constraint does.
    open spec fn runs_on(&self, ctx: Context) -> bool {
        (ctx.facts(ContextKey::Strategies).len() > 0 && ctx.facts(
            ContextKey::Constraints,
        ).len() == 0)
    }

    fn accepts(&self, ctx: &Context) -> (r: bool) {
        ctx.has(ContextKey::Strategies) && !ctx.has(ContextKey::Constraints)
    }

    open spec fn proposes(&self, ctx: Context) -> Seq<FactView> {
        sla_facts()
    }

    fn execute(&self, ctx: &Context) -> (r: AgentEffect) {
        let mut facts: Vec<Fact> = Vec::new();
        push_fact(
            &mut facts,
            Fact::new(
                ContextKey::Constraints,
                "sla:delivery-time",
                "SLA: Delivery within 3 days | Penalty: $100/day delay",
            ),
        );
        push_fact(
            &mut facts,
            Fact::new(
                ContextKey::Constraints,
                "sla:quality",
                "SLA: Quality standard must be maintained | No substitutions allowed",
            ),
        );
        let r = AgentEffect::with_facts(facts);
        assert(r@ =~= sla_facts());
        r
    }
}

// ---------------------------------------------------------------------------
// Consolidation
// ---------------------------------------------------------------------------

/// Ranks the routes that meet the service level by cost and risk.
///
/// The delivery time of a route is a decimal number of days. The caller reads
/// the time texts that [`ConsolidationAgent::route_times`] returns, tells for
/// each route whether it is within three days (an unreadable time counts as
/// three days) and how to show the time, and passes that to
/// [`ConsolidationAgent::plans`].
pub struct ConsolidationAgent;

/// A route's delivery time as the caller read it.
#[derive(Clone, Debug)]
pub struct RouteTime {
    /// The time is at most three days.
    pub on_time: bool,
    /// The time as a plan shows it.
    pub shown: String,
}

impl View for RouteTime {
    type V = (bool, Seq<char>);

    open spec fn view(&self) -> (bool, Seq<char>) {
        (self.on_time, self.shown@)
    }
}

/// The views of route times.
pub open spec fn time_views(ts: Seq<RouteTime>) -> Seq<(bool, Seq<char>)> {
    ts.map_values(|t: RouteTime| t@)
}

/// The first word after `Time: ` in a route.
pub open spec fn route_time_text(route: Fact) -> Option<Seq<char>> {
    and_first_word(after(route.content@, "Time: "@))
}

/// The cost the first cost estimate whose id mentions the route states after
/// `$`, or 1000.
pub open spec fn route_cost(strategies: Seq<Fact>, key: Seq<char>) -> nat {
    match find(strategies, both(FactTest::IdHas, key, FactTest::IdPrefix, "cost:"@)) {
        Some(c) => u32_or(and_first_word(after(c.content@, "$"@)), 1000),
        None => 1000,
    }
}

/// The score the first risk assessment whose id mentions the route states
/// after `Score: `, or 50.
pub open spec fn route_risk(strategies: Seq<Fact>, key: Seq<char>) -> nat {
    match find(strategies, both(FactTest::IdHas, key, FactTest::IdPrefix, "risk:"@)) {
        Some(r) => u32_or(and_before(after(r.content@, "Score: "@), "/"@), 50),
        None => 50,
    }
}

/// A feasible plan: route key, score, cost, risk and shown time. The score is
/// the cost plus ten times the risk; lower is better.
pub open spec fn route_plan(strategies: Seq<Fact>, route: Fact, shown: Seq<char>) -> (
    Seq<char>,
    nat,
    nat,
    nat,
    Seq<char>,
) {
    let key = route_key(route);
    let cost = route_cost(strategies, key);
    let risk = route_risk(strategies, key);
    (key, cost + risk * 10, cost, risk, shown)
}

/// The plans of the routes in `rs` that are on time, in route order.
pub open spec fn feasible_plans(
    strategies: Seq<Fact>,
    rs: Seq<Fact>,
    times: Seq<(bool, Seq<char>)>,
) -> Seq<(Seq<char>, nat, nat, nat, Seq<char>)>
    decreases rs.len(),
{
    if rs.len() == 0 || times.len() == 0 {
        seq![]
    } else {
        let prev = feasible_plans(strategies, rs.drop_last(), times.drop_last());
        if times.last().0 {
            prev.push(route_plan(strategies, rs.last(), times.last().1))
        } else {
            prev
        }
    }
}

/// The scores of the plans.
pub open spec fn route_plan_scores(plans: Seq<(Seq<char>, nat, nat, nat, Seq<char>)>) -> Seq<nat> {
    plans.map_values(|p: (Seq<char>, nat, nat, nat, Seq<char>)| p.1)
}

/// The evaluation of the plan ranked `i`-th.
pub open spec fn plan_evaluation(i: int, p: (Seq<char>, nat, nat, nat, Seq<char>)) -> FactView {
    fv(
        ContextKey::Evaluations,
        "eval:plan-"@ + dec((i + 1) as nat),
        "Plan "@ + dec((i + 1) as nat) + ": Route "@ + p.0 + " | Score: "@ + dec(p.1) + " | Cost: $"@
            + dec(p.2) + " | Risk: "@ + dec(p.3) + "/100 | Time: "@ + p.4 + " days | "@ + rank_label(
            i,
        ),
    )
}

/// The feasible plans ranked by score, lowest first and equal scores in route
/// order; or a single evaluation saying that no plan is feasible.
pub open spec fn consolidation_facts(strategies: Seq<Fact>, times: Seq<(bool, Seq<char>)>) -> Seq<
    FactView,
> {
    let plans = feasible_plans(strategies, routes(strategies), times);
    if plans.len() == 0 {
        seq![
            fv(
                ContextKey::Evaluations,
                "eval:infeasible"@,
                "Status: INFEASIBLE | No plans satisfy SLA requirements"@,
            ),
        ]
    } else {
        ranking(route_plan_scores(plans), false).map(
            |i: int, j: nat| plan_evaluation(i, plans[j as int]),
        )
    }
}

/// The feasible plans, field by field.
struct RoutePlans {
    keys: Vec<String>,
    scores: Vec<u64>,
    costs: Vec<u64>,
    risks: Vec<u64>,
    shown: Vec<String>,
}

impl RoutePlans {
    spec fn matches(&self, ps: Seq<(Seq<char>, nat, nat, nat, Seq<char>)>) -> bool {
        &&& self.keys@.len() == ps.len()
        &&& self.scores@.len() == ps.len()
        &&& self.costs@.len() == ps.len()
        &&& self.risks@.len() == ps.len()
        &&& self.shown@.len() == ps.len()
        &&& forall|j: int|
            #![trigger ps[j]]
            0 <= j < ps.len() ==> self.keys@[j]@ == ps[j].0 && self.scores@[j] as nat == ps[j].1
                && self.costs@[j] as nat == ps[j].2 && self.risks@[j] as nat == ps[j].3
                && self.shown@[j]@ == ps[j].4
    }
}

/// The cost and risk of a route.
fn read_route_figures(strategies: &Vec<Fact>, key: &str) -> (r: (u64, u64))
    ensures
        r.0 as nat == route_cost(strategies@, key@),
        r.1 as nat == route_risk(strategies@, key@),
{
    proof {
        reveal_strlit("$");
        reveal_strlit("Score: ");
        reveal_strlit("/");
    }
    let cost = match position_both(strategies, FactTest::IdHas, key, FactTest::IdPrefix, "cost:") {
        Some(k) => u32_or_str(
            and_first_word_str(after_str(strategies[k].content.as_str(), "$")),
            1000,
        ) as u64,
        None => 1000,
    };
    let risk = match position_both(strategies, FactTest::IdHas, key, FactTest::IdPrefix, "risk:") {
        Some(k) => u32_or_str(
            and_before_str(after_str(strategies[k].content.as_str(), "Score: "), "/"),
            50,
        ) as u64,
        None => 50,
    };
    (cost, risk)
}

impl ConsolidationAgent {
    pub fn name(&self) -> (r: &'static str)
        ensures
            r@ == "ConsolidationAgent"@,
    {
        "ConsolidationAgent"
    }

    pub fn dependencies(&self) -> (r: Vec<ContextKey>)
        ensures
            r@ == seq![ContextKey::Strategies, ContextKey::Constraints],
    {
        vec![ContextKey::Strategies, ContextKey::Constraints]
    }

    /// Runs once: when routes, cost estimates, risk assessments and
    /// constraints exist and no evaluation does.
    pub open spec fn runs_on(&self, ctx: Context) -> bool {
        any(ctx.facts(ContextKey::Strategies), id_prefix("route:"@)) && any(
            ctx.facts(ContextKey::Strategies),
            id_prefix("cost:"@),
        ) && any(ctx.facts(ContextKey::Strategies), id_prefix("risk:"@)) && ctx.facts(
            ContextKey::Constraints,
        ).len() > 0 && ctx.facts(ContextKey::Evaluations).len() == 0
    }

    pub fn accepts(&self, ctx: &Context) -> (r: bool)
        ensures
            r == self.runs_on(*ctx),
    {
        let strategies = ctx.get(ContextKey::Strategies);
        exists_fact(strategies, FactTest::IdPrefix, "route:") && exists_fact(
            strategies,
            FactTest::IdPrefix,
            "cost:",
        ) && exists_fact(strategies, FactTest::IdPrefix, "risk:") && ctx.has(
            ContextKey::Constraints,
        ) && !ctx.has(ContextKey::Evaluations)
    }

    /// The delivery time text of each route, in order.
    #[verifier::loop_isolation(false)]
    pub fn route_times(&self, ctx: &Context) -> (r: Vec<Option<String>>)
        ensures
            r@.len() == routes(ctx.facts(ContextKey::Strategies)).len(),
            forall|i: int|
                0 <= i < r@.len() ==> opt_view(#[trigger] r@[i]) == route_time_text(
                    routes(ctx.facts(ContextKey::Strategies))[i],
                ),
    {
        let rs = filter_facts(ctx.get(ContextKey::Strategies), FactTest::IdPrefix, "route:");
        let n = rs.len();
        let mut out: Vec<Option<String>> = Vec::new();
        let mut i: usize = 0;
        proof {
            reveal_strlit("Time: ");
        }
        while i < n
            invariant
                n == rs.len(),
                rs@ == routes(ctx.facts(ContextKey::Strategies)),
                i <= n,
                out@.len() == i,
                forall|j: int| 0 <= j < i ==> opt_view(#[trigger] out@[j]) == route_time_text(rs@[j]),
            decreases n - i,
        {
            let t = and_first_word_str(after_str(rs[i].content.as_str(), "Time: "));
            out.push(t);
            i = i + 1;
        }
        out
    }

    /// The ranked plans, given each route's time as the caller read it.
    #[verifier::loop_isolation(false)]
    pub fn plans(&self, ctx: &Context, times: &Vec<RouteTime>) -> (r: AgentEffect)
        requires
            times@.len() == routes(ctx.facts(ContextKey::Strategies)).len(),
        ensures
            r@ == consolidation_facts(ctx.facts(ContextKey::Strategies), time_views(times@)),
    {
        let strategies = ctx.get(ContextKey::Strategies);
        let rs = filter_facts(strategies, FactTest::IdPrefix, "route:");
        let ghost tv = time_views(times@);
        let n = rs.len();
        let mut ps = RoutePlans {
            keys: Vec::new(),
            scores: Vec::new(),
            costs: Vec::new(),
            risks: Vec::new(),
            shown: Vec::new(),
        };
        let mut i: usize = 0;
        assert(rs@.take(0) =~= Seq::<Fact>::empty());
        while i < n
            invariant
                n == rs.len(),
                rs@ == routes(strategies@),
                times@.len() == n,
                tv == time_views(times@),
                i <= n,
                ps.matches(feasible_plans(strategies@, rs@.take(i as int), tv.take(i as int))),
            decreases n - i,
        {
            let ghost prev = feasible_plans(strategies@, rs@.take(i as int), tv.take(i as int));
            proof {
                assert(rs@.take(i + 1).drop_last() =~= rs@.take(i as int));
                assert(tv.take(i + 1).drop_last() =~= tv.take(i as int));
                assert(rs@.take(i + 1).last() == rs@[i as int]);
                assert(tv.take(i + 1).last() == times@[i as int]@);
            }
            if times[i].on_time {
                let route = &rs[i];
                let key = strip_prefix_or_str(route.id.as_str(), "route:", "unknown");
                let (cost, risk) = read_route_figures(strategies, key.as_str());
                let ghost before = ps;
                let ghost kv = key@;
                ps.keys.push(key);
                ps.scores.push(cost + risk * 10);
                ps.costs.push(cost);
                ps.risks.push(risk);
                ps.shown.push(times[i].shown.clone());
                proof {
                    let t = feasible_plans(strategies@, rs@.take(i + 1), tv.take(i + 1));
                    assert(t == prev.push(route_plan(strategies@, rs@[i as int], times@[i as int].shown@)));
                    assert forall|j: int| 0 <= j < t.len() implies ps.keys@[j]@ == #[trigger] t[j].0
                        && ps.scores@[j] as nat == t[j].1 && ps.costs@[j] as nat == t[j].2
                        && ps.risks@[j] as nat == t[j].3 && ps.shown@[j]@ == t[j].4 by {
                        if j < prev.len() {
                            assert(ps.keys@[j] == before.keys@[j]);
                            assert(ps.scores@[j] == before.scores@[j]);
                            assert(ps.costs@[j] == before.costs@[j]);
                            assert(ps.risks@[j] == before.risks@[j]);
                            assert(ps.shown@[j] == before.shown@[j]);
                            assert(t[j] == prev[j]);
                        } else {
                            assert(ps.keys@[j]@ == kv);
                        }
                    }
                }
            }
            i = i + 1;
        }
        assert(rs@.take(n as int) =~= rs@);
        assert(tv.take(n as int) =~= tv);
        let ghost plans = feasible_plans(strategies@, routes(strategies@), tv);
        let mut facts: Vec<Fact> = Vec::new();
        if ps.keys.len() == 0 {
            push_fact(
                &mut facts,
                Fact::new(
                    ContextKey::Evaluations,
                    "eval:infeasible",
                    "Status: INFEASIBLE | No plans satisfy SLA requirements",
                ),
            );
            let r = AgentEffect::with_facts(facts);
            assert(r@ =~= consolidation_facts(strategies@, tv));
            return r;
        }
        let order = rank_indices(&ps.scores, false);
        proof {
            assert forall|j: int| 0 <= j < plans.len() implies nats(ps.scores@)[j]
                == route_plan_scores(plans)[j] by {
                assert(plans[j] == plans[j]);
            }
            assert(nats(ps.scores@) =~= route_plan_scores(plans));
            lemma_rank_order_permutation(route_plan_scores(plans), plans.len(), false);
        }
        let ghost spec = consolidation_facts(strategies@, tv);
        let m = order.len();
        let mut p: usize = 0;
        while p < m
            invariant
                m == order.len(),
                idx(order@) == ranking(route_plan_scores(plans), false),
                spec == ranking(route_plan_scores(plans), false).map(
                    |i: int, j: nat| plan_evaluation(i, plans[j as int]),
                ),
                ps.matches(plans),
                p <= m,
                m == plans.len(),
                fact_views(facts@) == spec.take(p as int),
            decreases m - p,
        {
            let j = order[p];
            proof {
                assert(idx(order@)[p as int] == j as nat);
                assert(j < plans.len());
            }
            let mut id = String::from_str("eval:plan-");
            push_dec(&mut id, p as u128 + 1);
            let mut c = String::from_str("Plan ");
            push_dec(&mut c, p as u128 + 1);
            c.append(": Route ");
            c.append(ps.keys[j].as_str());
            c.append(" | Score: ");
            push_dec(&mut c, ps.scores[j] as u128);
            c.append(" | Cost: $");
            push_dec(&mut c, ps.costs[j] as u128);
            c.append(" | Risk: ");
            push_dec(&mut c, ps.risks[j] as u128);
            c.append("/100 | Time: ");
            c.append(ps.shown[j].as_str());
            c.append(" days | ");
            c.append(rank_label_str(p));
            let f = Fact::from_strings(ContextKey::Evaluations, id, c);
            proof {
                assert(ps.keys@[j as int]@ == plans[j as int].0);
                assert(f@ == spec[p as int]);
                lemma_take_push(spec, p as int);
            }
            push_fact(&mut facts, f);
            p = p + 1;
        }
        assert(spec.take(m as int) =~= spec);
        AgentEffect::with_facts(facts)
    }
}

// ---------------------------------------------------------------------------
// Invariants
// ---------------------------------------------------------------------------

/// Acceptance: a feasible plan exists.
pub struct RequireFeasiblePlan;

/// Evaluations that rank a feasible plan.
pub open spec fn feasible_evaluation() -> spec_fn(Fact) -> bool {
    |f: Fact|
        !contains(f.content@, "INFEASIBLE"@) && (contains(f.content@, "RECOMMENDED"@) || contains(
            f.content@,
            "ALTERNATIVE"@,
        ))
}

fn is_feasible_evaluation(f: &Fact) -> (r: bool)
    ensures
        r == feasible_evaluation()(*f),
{
    let c = f.content.as_str();
    !str_contains(c, "INFEASIBLE") && (str_contains(c, "RECOMMENDED") || str_contains(
        c,
        "ALTERNATIVE",
    ))
}

pub open spec fn feasible_plan_verdict(evaluations: Seq<Fact>) -> Verdict {
    if !any(evaluations, feasible_evaluation()) {
        broken("no feasible supply chain plan found"@)
    } else {
        Verdict::Pass
    }
}

impl Invariant for RequireFeasiblePlan {
    fn name(&self) -> (r: &'static str)
        ensures
            r@ == "require_feasible_plan"@,
    {
        "require_feasible_plan"
    }

    fn class(&self) -> (r: InvariantClass)
        ensures
            r == InvariantClass::Acceptance,
    {
        InvariantClass::Acceptance
    }

    open spec fn verdict(&self, ctx: Context) -> Verdict {
        feasible_plan_verdict(ctx.facts(ContextKey::Evaluations))
    }

    fn check(&self, ctx: &Context) -> (r: InvariantResult) {
        let evaluations = ctx.get(ContextKey::Evaluations);
        if position_by(evaluations, is_feasible_evaluation, Ghost(feasible_evaluation())).is_none() {
            return InvariantResult::violated(String::from_str("no feasible supply chain plan found"));
        }
        InvariantResult::Holds
    }
}

/// Semantic: no evaluated plan takes longer than the service level allows.
///
/// Times and the limit are decimal numbers of days. The caller reads the limit
/// text from [`RequireSLACompliance::limit_text`] (three days when absent or
/// unreadable) and the time text of each evaluation that
/// [`RequireSLACompliance::time_texts`] returns, and passes to
/// [`RequireSLACompliance::verdict`], for each of those evaluations, the shown
/// time when it exceeds the limit and nothing otherwise.
pub struct RequireSLACompliance;

/// The delivery limit text: the first word after `within ` in the first SLA
/// constraint.
pub open spec fn sla_limit_text(constraints: Seq<Fact>) -> Option<Seq<char>> {
    match find(constraints, id_prefix("sla:"@)) {
        Some(c) => and_first_word(after(c.content@, "within "@)),
        None => None,
    }
}

/// The evaluations whose time is checked: those not marked infeasible.
pub open spec fn timed_evaluations(evaluations: Seq<Fact>) -> Seq<Fact> {
    evaluations.filter(|f: Fact| !contains(f.content@, "INFEASIBLE"@))
}

/// The first evaluation with a late time, given the shown late times.
pub open spec fn sla_verdict(
    considered: Seq<Fact>,
    late: Seq<Option<Seq<char>>>,
    limit: Seq<char>,
) -> Verdict
    decreases considered.len(),
{
    if considered.len() == 0 || late.len() == 0 {
        Verdict::Pass
    } else {
        match late[0] {
            Some(t) => broken_at(
                "plan violates SLA: "@ + t + " days > "@ + limit + " days"@,
                considered[0].id@,
            ),
            None => sla_verdict(considered.drop_first(), late.drop_first(), limit),
        }
    }
}

/// The views of optional strings.
pub open spec fn opt_views(v: Seq<Option<String>>) -> Seq<Option<Seq<char>>> {
    v.map_values(|o: Option<String>| opt_view(o))
}

fn is_not_infeasible(f: &Fact) -> (r: bool)
    ensures
        r == !contains(f.content@, "INFEASIBLE"@),
{
    !str_contains(f.content.as_str(), "INFEASIBLE")
}

/// The evaluations whose time is checked.
#[verifier::loop_isolation(false)]
fn read_timed_evaluations(evaluations: &Vec<Fact>) -> (r: Vec<Fact>)
    ensures
        r@ == timed_evaluations(evaluations@),
{
    let ghost pred = |f: Fact| !contains(f.content@, "INFEASIBLE"@);
    let n = evaluations.len();
    let mut out: Vec<Fact> = Vec::new();
    let mut i: usize = 0;
    while i < n
        invariant
            n == evaluations.len(),
            i <= n,
            pred == (|f: Fact| !contains(f.content@, "INFEASIBLE"@)),
            out@ == evaluations@.take(i as int).filter(pred),
        decreases n - i,
    {
        proof {
            assert(evaluations@.take(i + 1) =~= evaluations@.take(i as int).push(
                evaluations@[i as int],
            ));
            evaluations@.take(i as int).lemma_filter_push(evaluations@[i as int], pred);
        }
        if is_not_infeasible(&evaluations[i]) {
            out.push(evaluations[i].duplicate());
        }
        i = i + 1;
    }
    assert(evaluations@.take(n as int) =~= evaluations@);
    out
}

impl RequireSLACompliance {
    pub fn name(&self) -> (r: &'static str)
        ensures
            r@ == "require_sla_compliance"@,
    {
        "require_sla_compliance"
    }

    pub fn class(&self) -> (r: InvariantClass)
        ensures
            r == InvariantClass::Semantic,
    {
        InvariantClass::Semantic
    }

    /// The delivery limit text of the SLA.
    pub fn limit_text(&self, ctx: &Context) -> (r: Option<String>)
        ensures
            opt_view(r) == sla_limit_text(ctx.facts(ContextKey::Constraints)),
    {
        proof {
            reveal_strlit("within ");
        }
        let constraints = ctx.get(ContextKey::Constraints);
        match position(constraints, FactTest::IdPrefix, "sla:") {
            Some(k) => and_first_word_str(after_str(constraints[k].content.as_str(), "within ")),
            None => None,
        }
    }

    /// The time text of each evaluation whose time is checked, in order: the
    /// first word after `Time: `.
    #[verifier::loop_isolation(false)]
    pub fn time_texts(&self, ctx: &Context) -> (r: Vec<Option<String>>)
        ensures
            opt_views(r@) == timed_evaluations(ctx.facts(ContextKey::Evaluations)).map_values(
                |f: Fact| and_first_word(after(f.content@, "Time: "@)),
            ),
    {
        proof {
            reveal_strlit("Time: ");
        }
        let es = read_timed_evaluations(ctx.get(ContextKey::Evaluations));
        let ghost spec = es@.map_values(|f: Fact| and_first_word(after(f.content@, "Time: "@)));
        let n = es.len();
        let mut out: Vec<Option<String>> = Vec::new();
        let mut i: usize = 0;
        while i < n
            invariant
                n == es.len(),
                spec.len() == n,
                i <= n,
                opt_views(out@) == spec.take(i as int),
            decreases n - i,
        {
            let t = and_first_word_str(after_str(es[i].content.as_str(), "Time: "));
            let ghost prev = out@;
            out.push(t);
            proof {
                assert(opt_views(out@) =~= opt_views(prev).push(opt_view(t)));
                lemma_take_push(spec, i as int);
            }
            i = i + 1;
        }
        assert(spec.take(n as int) =~= spec);
        out
    }

    /// The outcome, given the shown time of each checked evaluation that
    /// exceeds the limit (nothing for the others) and the shown limit.
    #[verifier::loop_isolation(false)]
    pub fn verdict(&self, ctx: &Context, late: &Vec<Option<String>>, limit: &str) -> (r:
        InvariantResult)
        requires
            late@.len() == timed_evaluations(ctx.facts(ContextKey::Evaluations)).len(),
        ensures
            r@ == sla_verdict(
                timed_evaluations(ctx.facts(ContextKey::Evaluations)),
                opt_views(late@),
                limit@,
            ),
    {
        let es = read_timed_evaluations(ctx.get(ContextKey::Evaluations));
        let ghost lv = opt_views(late@);
        let n = es.len();
        let mut i: usize = 0;
        assert(es@.skip(0) =~= es@);
        assert(lv.skip(0) =~= lv);
        while i < n
            invariant
                n == es.len(),
                late@.len() == n,
                lv == opt_views(late@),
                i <= n,
                sla_verdict(es@, lv, limit@) == sla_verdict(
                    es@.skip(i as int),
                    lv.skip(i as int),
                    limit@,
                ),
            decreases n - i,
        {
            proof {
                assert(es@.skip(i as int)[0] == es@[i as int]);
                assert(lv.skip(i as int)[0] == opt_view(late@[i as int]));
                assert(es@.skip(i as int).drop_first() =~= es@.skip(i + 1));
                assert(lv.skip(i as int).drop_first() =~= lv.skip(i + 1));
            }
            match &late[i] {
                Some(t) => {
                    let mut reason = String::from_str("plan violates SLA: ");
                    reason.append(t.as_str());
                    reason.append(" days > ");
                    reason.append(limit);
                    reason.append(" days");
                    return InvariantResult::violated_at(reason, es[i].id.clone());
                },
                None => {},
            }
            i = i + 1;
        }
        assert(es@.skip(n as int) =~= Seq::<Fact>::empty());
        InvariantResult::Holds
    }
}

/// Semantic: once assessment has started, every route has a cost estimate
/// and a risk assessment.
pub struct RequireCompleteAssessments;

/// Routes without a cost estimate or a risk assessment whose id mentions them.
pub open spec fn unassessed_route(strategies: Seq<Fact>) -> spec_fn(Fact) -> bool {
    |r: Fact|
        "route:"@.is_prefix_of(r.id@) && (!any(
            strategies,
            both(FactTest::IdHas, route_key(r), FactTest::IdPrefix, "cost:"@),
        ) || !any(strategies, both(FactTest::IdHas, route_key(r), FactTest::IdPrefix, "risk:"@)))
}

pub open spec fn route_assessments_verdict(strategies: Seq<Fact>) -> Verdict {
    if !any(strategies, id_prefix("cost:"@)) && !any(strategies, id_prefix("risk:"@)) {
        Verdict::Pass
    } else {
        match find(strategies, unassessed_route(strategies)) {
            Some(r) => broken_at(
                "route "@ + route_key(r) + " missing cost or risk assessment"@,
                r.id@,
            ),
            None => Verdict::Pass,
        }
    }
}

impl Invariant for RequireCompleteAssessments {
    fn name(&self) -> (r: &'static str)
        ensures
            r@ == "require_complete_assessments"@,
    {
        "require_complete_assessments"
    }

    fn class(&self) -> (r: InvariantClass)
        ensures
            r == InvariantClass::Semantic,
    {
        InvariantClass::Semantic
    }

    open spec fn verdict(&self, ctx: Context) -> Verdict {
        route_assessments_verdict(ctx.facts(ContextKey::Strategies))
    }

    #[verifier::loop_isolation(false)]
    fn check(&self, ctx: &Context) -> (r: InvariantResult) {
        let strategies = ctx.get(ContextKey::Strategies);
        if !exists_fact(strategies, FactTest::IdPrefix, "cost:") && !exists_fact(
            strategies,
            FactTest::IdPrefix,
            "risk:",
        ) {
            return InvariantResult::Holds;
        }
        let ghost pred = unassessed_route(strategies@);
        let n = strategies.len();
        let mut i: usize = 0;
        while i < n
            invariant
                n == strategies.len(),
                i <= n,
                pred == unassessed_route(strategies@),
                forall|j: int| 0 <= j < i ==> !pred(#[trigger] strategies@[j]),
            decreases n - i,
        {
            let r = &strategies[i];
            if str_starts_with(r.id.as_str(), "route:") {
                let key = strip_prefix_or_str(r.id.as_str(), "route:", "unknown");
                let has_cost = position_both(
                    strategies,
                    FactTest::IdHas,
                    key.as_str(),
                    FactTest::IdPrefix,
                    "cost:",
                ).is_some();
                let has_risk = position_both(
                    strategies,
                    FactTest::IdHas,
                    key.as_str(),
                    FactTest::IdPrefix,
                    "risk:",
                ).is_some();
                if !has_cost || !has_risk {
                    proof {
                        assert(pred(strategies@[i as int]));
                        assert(is_first(strategies@, pred, i as int));
                        let k = choose|k: int| is_first(strategies@, pred, k);
                        lemma_first_unique(strategies@, pred, i as int, k);
                    }
                    let mut reason = String::from_str("route ");
                    reason.append(key.as_str());
                    reason.append(" missing cost or risk assessment");
                    return InvariantResult::violated_at(reason, r.id.clone());
                }
            }
            i = i + 1;
        }
        proof {
            lemma_find_none(strategies@, pred);
        }
        InvariantResult::Holds
    }
}

// ---------------------------------------------------------------------------
// Laws
// ---------------------------------------------------------------------------

/// Law: the demand-snapshot agent runs once: once the signal it proposes on
/// a context it runs on is added, it does not run again.
pub proof fn lemma_demand_snapshot_runs_once(ctx: Context, next: Context)
    requires
        DemandSnapshotAgent.runs_on(ctx),
        next.extends(ctx, DemandSnapshotAgent.proposes(ctx)),
    ensures
        !DemandSnapshotAgent.runs_on(next),
{
    reveal_strlit("demand:snapshot");
    reveal_strlit("demand:");
    assert("demand:"@.is_prefix_of("demand:snapshot"@));
    lemma_added_prefixed(ctx, next, DemandSnapshotAgent.proposes(ctx), 0, "demand:"@);
}

/// Law: the inventory-state agent runs once.
pub proof fn lemma_inventory_state_runs_once(ctx: Context, next: Context)
    requires
        InventoryStateAgent.runs_on(ctx),
        next.extends(ctx, InventoryStateAgent.proposes(ctx)),
    ensures
        !InventoryStateAgent.runs_on(next),
{
    reveal_strlit("inventory:warehouse-a");
    reveal_strlit("inventory:");
    assert("inventory:"@.is_prefix_of("inventory:warehouse-a"@));
    lemma_added_prefixed(ctx, next, InventoryStateAgent.proposes(ctx), 0, "inventory:"@);
}

/// Law: the supplier-status agent runs once.
pub proof fn lemma_supplier_status_runs_once(ctx: Context, next: Context)
    requires
        SupplierStatusAgent.runs_on(ctx),
        next.extends(ctx, SupplierStatusAgent.proposes(ctx)),
    ensures
        !SupplierStatusAgent.runs_on(next),
{
    reveal_strlit("supplier:x");
    reveal_strlit("supplier:y");
    reveal_strlit("supplier:");
    assert("supplier:"@.is_prefix_of("supplier:x"@));
    assert("supplier:"@.is_prefix_of("supplier:y"@));
    lemma_added_prefixed(ctx, next, SupplierStatusAgent.proposes(ctx), 0, "supplier:"@);
}

/// Law: the route-generation agent runs once.
pub proof fn lemma_route_generation_runs_once(ctx: Context, next: Context)
    requires
        RouteGenerationAgent.runs_on(ctx),
        next.extends(ctx, RouteGenerationAgent.proposes(ctx)),
    ensures
        !RouteGenerationAgent.runs_on(next),
{
    lemma_added_fact(ctx, next, RouteGenerationAgent.proposes(ctx), 0);
}

/// Law: the cost-estimation agent runs once.
pub proof fn lemma_cost_estimation_runs_once(ctx: Context, next: Context)
    requires
        CostEstimationAgent.runs_on(ctx),
        next.extends(ctx, CostEstimationAgent.proposes(ctx)),
    ensures
        !CostEstimationAgent.runs_on(next),
{
    let strategies = ctx.facts(ContextKey::Strategies);
    lemma_any_filter(strategies, id_prefix("route:"@));
    lemma_prefix_of_concat("cost:"@, route_key(routes(strategies)[0]));
    lemma_added_prefixed(ctx, next, CostEstimationAgent.proposes(ctx), 0, "cost:"@);
}

/// Law: the risk-assessment agent runs once when there is a route to assess.
pub proof fn lemma_risk_assessment_runs_once(ctx: Context, next: Context)
    requires
        RiskAssessmentAgent.runs_on(ctx),
        next.extends(ctx, RiskAssessmentAgent.proposes(ctx)),
        any(ctx.facts(ContextKey::Strategies), id_prefix("route:"@)),
    ensures
        !RiskAssessmentAgent.runs_on(next),
{
    let strategies = ctx.facts(ContextKey::Strategies);
    lemma_any_filter(strategies, id_prefix("route:"@));
    lemma_prefix_of_concat("risk:"@, route_key(routes(strategies)[0]));
    lemma_added_prefixed(ctx, next, RiskAssessmentAgent.proposes(ctx), 0, "risk:"@);
}

/// Law: the SLA-validation agent runs once.
pub proof fn lemma_sla_validation_runs_once(ctx: Context, next: Context)
    requires
        SLAValidationAgent.runs_on(ctx),
        next.extends(ctx, SLAValidationAgent.proposes(ctx)),
    ensures
        !SLAValidationAgent.runs_on(next),
{
    lemma_added_fact(ctx, next, SLAValidationAgent.proposes(ctx), 0);
}

/// The order in which the routes that meet the service level are
/// evaluated: indices into their plans.
pub open spec fn consolidation_order(strategies: Seq<Fact>, times: Seq<(bool, Seq<char>)>) -> Seq<
    nat,
> {
    ranking(route_plan_scores(feasible_plans(strategies, routes(strategies), times)), false)
}

/// Law: every route that meets the service level is evaluated exactly once,
/// by ascending score, and routes with equal scores keep their order.
pub proof fn lemma_consolidation_ranking(strategies: Seq<Fact>, times: Seq<(bool, Seq<char>)>)
    ensures
        is_permutation(
            consolidation_order(strategies, times),
            feasible_plans(strategies, routes(strategies), times).len(),
        ),
        forall|a: int, b: int|
            0 <= a < b < feasible_plans(strategies, routes(strategies), times).len()
                ==> in_rank_order(
                #[trigger] consolidation_order(strategies, times)[a],
                #[trigger] consolidation_order(strategies, times)[b],
                route_plan_scores(feasible_plans(strategies, routes(strategies), times)),
                false,
            ),
{
    let plans = feasible_plans(strategies, routes(strategies), times);
    lemma_rank_order_permutation(route_plan_scores(plans), plans.len(), false);
    lemma_rank_order_ranked(route_plan_scores(plans), plans.len(), false);
}

/// Law: the consolidation agent runs once: once the evaluations it makes on
/// a context it runs on are added, whatever the route times read as, it does
/// not run again.
pub proof fn lemma_consolidation_runs_once(
    ctx: Context,
    next: Context,
    times: Seq<(bool, Seq<char>)>,
)
    requires
        ConsolidationAgent.runs_on(ctx),
        next.extends(ctx, consolidation_facts(ctx.facts(ContextKey::Strategies), times)),
    ensures
        !ConsolidationAgent.runs_on(next),
{
    let strategies = ctx.facts(ContextKey::Strategies);
    let plans = feasible_plans(strategies, routes(strategies), times);
    lemma_rank_order_permutation(route_plan_scores(plans), plans.len(), false);
    lemma_added_fact(ctx, next, consolidation_facts(strategies, times), 0);
}

} // verus!
