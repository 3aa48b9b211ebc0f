//! Multi-region inventory rebalancing agents.
//!
//! ```text
//! Seeds (regions, current stock)
//!    │
//!    ├─► SalesVelocityAgent → Signals (sales velocity per region)
//!    ├─► InventoryAgent → Signals (current stock levels)
//!    └─► ForecastAgent → Signals (demand forecasts)
//!    │
//!    ├─► TransferOptimizationAgent → Strategies (transfer plans)
//!    ├─► CapacityConstraintAgent → Constraints (capacity limits)
//!    └─► FinancialImpactAgent → Strategies (cost analysis)
//!    │
//!    ▼
//! RebalanceDecisionAgent → Evaluations (ranked rebalancing plans)
//! ```
use crate::agent::{
    any, both, broken, broken_at, exists_fact, filter_facts, find, id_is, id_prefix, is_first,
    lemma_find_none, lemma_first_unique, position, position_both, position_by, Agent, FactTest, Invariant,
    InvariantClass, InvariantResult, Verdict,
};
use crate::context::{
    fact_views, fv, lemma_take_push, push_fact, AgentEffect, Context, ContextKey, Fact, FactView,
};
use crate::rank::{
    idx, in_rank_order, is_permutation, lemma_rank_order_permutation, lemma_rank_order_ranked,
    nats, rank_indices, rank_label, rank_label_str, ranking,
};
use crate::text::{
    after, after_str, and_first_word, and_first_word_str, contains, dec, lemma_dec_times_ten,
    lowercase, opt_view, parse_u32, parse_u32_str,
    push_dec, str_contains, str_eq, str_starts_with, strip_prefix_or, strip_prefix_or_str,
    split_trimmed, to_lowercase, trimmed_pieces, u32_or, u32_or_str, views, word_u32,
    word_u32_str,
};
use crate::agent::{lemma_added_fact, lemma_added_prefixed, lemma_any_filter};
use crate::context::{keyed, lemma_flatten_all, lemma_flatten_grid};
use crate::text::{lemma_prefix_of_concat, lemma_trimmed_pieces_nonempty};
use vstd::prelude::*;

verus! {

/// The regions named by the `regions` seed, or four default regions.
pub open spec fn regions(seeds: Seq<Fact>) -> Seq<Seq<char>> {
    match find(seeds, id_is("regions"@)) {
        Some(seed) => trimmed_pieces(seed.content@, ","@),
        None => seq!["North"@, "South"@, "East"@, "West"@],
    }
}

/// The regions named by the seeds.
pub fn read_regions(seeds: &Vec<Fact>) -> (r: Vec<String>)
    ensures
        views(r@) == regions(seeds@),
{
    match position(seeds, FactTest::IdIs, "regions") {
        Some(k) => {
            proof {
                reveal_strlit(",");
            }
            split_trimmed(seeds[k].content.as_str(), ",")
        },
        None => {
            let r = vec![
                String::from_str("North"),
                String::from_str("South"),
                String::from_str("East"),
                String::from_str("West"),
            ];
            assert(views(r@) =~= seq!["North"@, "South"@, "East"@, "West"@]);
            r
        },
    }
}

// ---------------------------------------------------------------------------
// Sales velocity
// ---------------------------------------------------------------------------

/// Reports the sales velocity of each region.
pub struct SalesVelocityAgent;

/// The simulated velocity of the `i`-th region, in units per day.
pub open spec fn velocity(i: int) -> nat {
    if i % 2 == 0 {
        15
    } else {
        8
    }
}

/// The velocity signal of the `i`-th region.
pub open spec fn velocity_fact(i: int, region: Seq<char>) -> FactView {
    let v = velocity(i);
    fv(
        ContextKey::Signals,
        "velocity:"@ + lowercase(region),
        "Region "@ + region + ": "@ + dec(v) + " units/day | Trend: "@ + (if v > 10 {
            "Increasing"@
        } else {
            "Stable"@
        }),
    )
}

/// One velocity signal per region, in order.
pub open spec fn velocity_facts(seeds: Seq<Fact>) -> Seq<FactView> {
    regions(seeds).map(|i: int, r: Seq<char>| velocity_fact(i, r))
}

impl Agent for SalesVelocityAgent {
    fn name(&self) -> (r: &'static str)
        ensures
            r@ == "SalesVelocityAgent"@,
    {
        "SalesVelocityAgent"
    }

    fn dependencies(&self) -> (r: Vec<ContextKey>)
        ensures
            r@ == seq![ContextKey::Seeds],
    {
        vec![ContextKey::Seeds]
    }

    /// Runs once: when seeds exist and no velocity signal does.
    open spec fn runs_on(&self, ctx: Context) -> bool {
        (ctx.facts(ContextKey::Seeds).len() > 0 && !any(
            ctx.facts(ContextKey::Signals),
            id_prefix("velocity:"@),
        ))
    }

    fn accepts(&self, ctx: &Context) -> (r: bool) {
        ctx.has(ContextKey::Seeds) && !exists_fact(
            ctx.get(ContextKey::Signals),
            FactTest::IdPrefix,
            "velocity:",
        )
    }

    open spec fn proposes(&self, ctx: Context) -> Seq<FactView> {
        velocity_facts(ctx.facts(ContextKey::Seeds))
    }

    #[verifier::loop_isolation(false)]
    fn execute(&self, ctx: &Context) -> (r: AgentEffect) {
        let regions = read_regions(ctx.get(ContextKey::Seeds));
        let ghost spec = velocity_facts(ctx.facts(ContextKey::Seeds));
        let n = regions.len();
        let mut facts: Vec<Fact> = Vec::new();
        let mut i: usize = 0;
        while i < n
            invariant
                n == regions.len(),
                i <= n,
                spec.len() == n,
                fact_views(facts@) == spec.take(i as int),
            decreases n - i,
        {
            let region = regions[i].as_str();
            let v: u64 = if i % 2 == 0 {
                15
            } else {
                8
            };
            let mut id = String::from_str("velocity:");
            let lower = to_lowercase(region);
            id.append(lower.as_str());
            let mut c = String::from_str("Region ");
            c.append(region);
            c.append(": ");
            push_dec(&mut c, v as u128);
            c.append(" units/day | Trend: ");
            c.append(
                if v > 10 {
                    "Increasing"
                } else {
                    "Stable"
                },
            );
            let f = Fact::from_strings(ContextKey::Signals, id, c);
            proof {
                assert(views(regions@)[i as int] == regions@[i as int]@);
                assert(f@ == spec[i as int]);
                lemma_take_push(spec, i as int);
            }
            push_fact(&mut facts, f);
            i = i + 1;
        }
        assert(spec.take(n as int) =~= spec);
        AgentEffect::with_facts(facts)
    }
}

// ---------------------------------------------------------------------------
// Inventory
// ---------------------------------------------------------------------------

/// Reports the stock level of each region.
pub struct InventoryAgent;

/// The simulated stock of the `i`-th region: the first four regions have
/// fixed levels, the others 50.
pub open spec fn stock_level(i: int) -> nat {
    if i == 0 {
        30
    } else if i == 1 {
        120
    } else if i == 2 {
        45
    } else if i == 3 {
        90
    } else {
        50
    }
}

/// Below 50 units is low, above 100 high.
pub open spec fn stock_status(stock: nat) -> Seq<char> {
    if stock < 50 {
        "Low stock"@
    } else if stock > 100 {
        "High stock"@
    } else {
        "Normal"@
    }
}

/// The stock signal of the `i`-th region.
pub open spec fn stock_fact(i: int, region: Seq<char>) -> FactView {
    let stock = stock_level(i);
    fv(
        ContextKey::Signals,
        "stock:"@ + lowercase(region),
        "Region "@ + region + ": "@ + dec(stock) + " units | Status: "@ + stock_status(stock)
            + " | Safety stock: 50"@,
    )
}

/// One stock signal per region, in order.
pub open spec fn stock_facts(seeds: Seq<Fact>) -> Seq<FactView> {
    regions(seeds).map(|i: int, r: Seq<char>| stock_fact(i, r))
}

impl Agent for InventoryAgent {
    fn name(&self) -> (r: &'static str)
        ensures
            r@ == "InventoryAgent"@,
    {
        "InventoryAgent"
    }

    fn dependencies(&self) -> (r: Vec<ContextKey>)
        ensures
            r@ == seq![ContextKey::Seeds],
    {
        vec![ContextKey::Seeds]
    }

    /// Runs once: when seeds exist and no stock signal does.
    open spec fn runs_on(&self, ctx: Context) -> bool {
        (ctx.facts(ContextKey::Seeds).len() > 0 && !any(
            ctx.facts(ContextKey::Signals),
            id_prefix("stock:"@),
        ))
    }

    fn accepts(&self, ctx: &Context) -> (r: bool) {
        ctx.has(ContextKey::Seeds) && !exists_fact(
            ctx.get(ContextKey::Signals),
            FactTest::IdPrefix,
            "stock:",
        )
    }

    open spec fn proposes(&self, ctx: Context) -> Seq<FactView> {
        stock_facts(ctx.facts(ContextKey::Seeds))
    }

    #[verifier::loop_isolation(false)]
    fn execute(&self, ctx: &Context) -> (r: AgentEffect) {
        let regions = read_regions(ctx.get(ContextKey::Seeds));
        let ghost spec = stock_facts(ctx.facts(ContextKey::Seeds));
        let levels: Vec<u64> = vec![30, 120, 45, 90];
        let n = regions.len();
        let mut facts: Vec<Fact> = Vec::new();
        let mut i: usize = 0;
        while i < n
            invariant
                n == regions.len(),
                levels@ == seq![30u64, 120u64, 45u64, 90u64],
                i <= n,
                spec.len() == n,
                fact_views(facts@) == spec.take(i as int),
            decreases n - i,
        {
            let region = regions[i].as_str();
            let stock: u64 = if i < levels.len() {
                levels[i]
            } else {
                50
            };
            let status = if stock < 50 {
                "Low stock"
            } else if stock > 100 {
                "High stock"
            } else {
                "Normal"
            };
            let mut id = String::from_str("stock:");
            let lower = to_lowercase(region);
            id.append(lower.as_str());
            let mut c = String::from_str("Region ");
            c.append(region);
            c.append(": ");
            push_dec(&mut c, stock as u128);
            c.append(" units | Status: ");
            c.append(status);
            c.append(" | Safety stock: 50");
            let f = Fact::from_strings(ContextKey::Signals, id, c);
            proof {
                assert(stock as nat == stock_level(i as int));
                assert(views(regions@)[i as int] == regions@[i as int]@);
                assert(f@ == spec[i as int]);
                lemma_take_push(spec, i as int);
            }
            push_fact(&mut facts, f);
            i = i + 1;
        }
        assert(spec.take(n as int) =~= spec);
        AgentEffect::with_facts(facts)
    }
}

// ---------------------------------------------------------------------------
// Forecast
// ---------------------------------------------------------------------------

/// Forecasts the demand of each region from its velocity and stock.
pub struct ForecastAgent;

/// The number in the second word of the signal with id `id`, or `default`
/// when there is no such signal or no such number.
pub open spec fn signal_number(signals: Seq<Fact>, id: Seq<char>, default: nat) -> nat {
    match find(signals, id_is(id)) {
        Some(s) => word_u32(s.content@, 1, default),
        None => default,
    }
}

/// The regions that have a velocity signal, in signal order.
pub open spec fn forecast_regions(signals: Seq<Fact>) -> Seq<Seq<char>> {
    signals.filter(id_prefix("velocity:"@)).map_values(
        |s: Fact| strip_prefix_or(s.id@, "velocity:"@, "unknown"@),
    )
}

/// The forecast of one region: thirty days at its velocity (10 when unknown),
/// and the days its stock (50 when unknown) lasts at that velocity.
pub open spec fn forecast_fact(signals: Seq<Fact>, region: Seq<char>) -> FactView {
    let v = signal_number(signals, "velocity:"@ + region, 10);
    let stock = signal_number(signals, "stock:"@ + region, 50);
    let days = if v > 0 {
        stock / v
    } else {
        999
    };
    fv(
        ContextKey::Signals,
        "forecast:"@ + region,
        "Region "@ + region + ": 30-day forecast "@ + dec(v * 30) + " units | Days until stockout: "@
            + dec(days) + " | Confidence: 85%"@,
    )
}

/// One forecast per region with a velocity signal, in order.
pub open spec fn forecast_facts(signals: Seq<Fact>) -> Seq<FactView> {
    forecast_regions(signals).map_values(|r: Seq<char>| forecast_fact(signals, r))
}

/// The number in the second word of the signal with id `id`, or `default`.
pub fn read_signal_number(signals: &Vec<Fact>, id: &str, default: u32) -> (r: u32)
    ensures
        r as nat == signal_number(signals@, id@, default as nat),
{
    match position(signals, FactTest::IdIs, id) {
        Some(k) => word_u32_str(signals[k].content.as_str(), 1, default),
        None => default,
    }
}

impl Agent for ForecastAgent {
    fn name(&self) -> (r: &'static str)
        ensures
            r@ == "ForecastAgent"@,
    {
        "ForecastAgent"
    }

    fn dependencies(&self) -> (r: Vec<ContextKey>)
        ensures
            r@ == seq![ContextKey::Signals],
    {
        vec![ContextKey::Signals]
    }

    /// Runs once: when velocity and stock signals exist and no forecast does.
    open spec fn runs_on(&self, ctx: Context) -> bool {
        (any(ctx.facts(ContextKey::Signals), id_prefix("velocity:"@)) && any(
            ctx.facts(ContextKey::Signals),
            id_prefix("stock:"@),
        ) && !any(ctx.facts(ContextKey::Signals), id_prefix("forecast:"@)))
    }

    fn accepts(&self, ctx: &Context) -> (r: bool) {
        let signals = ctx.get(ContextKey::Signals);
        exists_fact(signals, FactTest::IdPrefix, "velocity:") && exists_fact(
            signals,
            FactTest::IdPrefix,
            "stock:",
        ) && !exists_fact(signals, FactTest::IdPrefix, "forecast:")
    }

    open spec fn proposes(&self, ctx: Context) -> Seq<FactView> {
        forecast_facts(ctx.facts(ContextKey::Signals))
    }

    #[verifier::loop_isolation(false)]
    fn execute(&self, ctx: &Context) -> (r: AgentEffect) {
        let signals = ctx.get(ContextKey::Signals);
        let vs = filter_facts(signals, FactTest::IdPrefix, "velocity:");
        let ghost spec = forecast_facts(signals@);
        let n = vs.len();
        let mut facts: Vec<Fact> = Vec::new();
        let mut i: usize = 0;
        while i < n
            invariant
                n == vs.len(),
                vs@ == signals@.filter(id_prefix("velocity:"@)),
                i <= n,
                spec.len() == n,
                fact_views(facts@) == spec.take(i as int),
            decreases n - i,
        {
            let region = strip_prefix_or_str(vs[i].id.as_str(), "velocity:", "unknown");
            let mut vid = String::from_str("velocity:");
            vid.append(region.as_str());
            let mut sid = String::from_str("stock:");
            sid.append(region.as_str());
            let v = read_signal_number(signals, vid.as_str(), 10);
            let stock = read_signal_number(signals, sid.as_str(), 50);
            let days: u32 = if v > 0 {
                stock / v
            } else {
                999
            };
            let mut id = String::from_str("forecast:");
            id.append(region.as_str());
            let mut c = String::from_str("Region ");
            c.append(region.as_str());
            c.append(": 30-day forecast ");
            push_dec(&mut c, v as u128 * 30);
            c.append(" units | Days until stockout: ");
            push_dec(&mut c, days as u128);
            c.append(" | Confidence: 85%");
            let f = Fact::from_strings(ContextKey::Signals, id, c);
            proof {
                assert(f@ == spec[i as int]);
                lemma_take_push(spec, i as int);
            }
            push_fact(&mut facts, f);
            i = i + 1;
        }
        assert(spec.take(n as int) =~= spec);
        AgentEffect::with_facts(facts)
    }
}

// ---------------------------------------------------------------------------
// Transfer optimization
// ---------------------------------------------------------------------------

/// Plans transfers from regions with high stock to regions with low stock.
pub struct TransferOptimizationAgent;

/// A region with a stock signal, and its stock (50 when unreadable).
pub open spec fn stock_entry(s: Fact) -> (Seq<char>, nat) {
    (strip_prefix_or(s.id@, "stock:"@, "unknown"@), word_u32(s.content@, 1, 50))
}

/// The regions with a stock signal and their stock, in signal order.
pub open spec fn stock_entries(signals: Seq<Fact>) -> Seq<(Seq<char>, nat)> {
    signals.filter(id_prefix("stock:"@)).map_values(|s: Fact| stock_entry(s))
}

/// Regions below the safety stock of 50.
pub open spec fn is_low(e: (Seq<char>, nat)) -> bool {
    e.1 < 50
}

/// Regions above 100 units.
pub open spec fn is_high(e: (Seq<char>, nat)) -> bool {
    e.1 > 100
}

/// The regions below the safety stock, in signal order.
pub open spec fn low_regions(signals: Seq<Fact>) -> Seq<(Seq<char>, nat)> {
    stock_entries(signals).filter(|e: (Seq<char>, nat)| is_low(e))
}

/// The regions above 100 units, in signal order.
pub open spec fn high_regions(signals: Seq<Fact>) -> Seq<(Seq<char>, nat)> {
    stock_entries(signals).filter(|e: (Seq<char>, nat)| is_high(e))
}

/// What moves from a high region to a low one: the high region's excess over
/// 50 or the low region's shortfall below 50, whichever is smaller.
pub open spec fn transfer_amount(low: nat, high: nat) -> nat {
    let excess = high - 50;
    let shortfall = 50 - low;
    (if excess < shortfall {
        excess
    } else {
        shortfall
    }) as nat
}

/// The `t`-th transfer plan, from `high` to `low`.
pub open spec fn transfer_fact(t: nat, low: (Seq<char>, nat), high: (Seq<char>, nat)) -> FactView {
    let amount = transfer_amount(low.1, high.1);
    fv(
        ContextKey::Strategies,
        "transfer:"@ + dec(t),
        "Transfer "@ + dec(amount) + " units: "@ + high.0 + " → "@ + low.0 + " | Distance: "@ + dec(
            t * 100,
        ) + "km | Cost: $"@ + dec(amount * 5),
    )
}

/// For each low region, one plan per high region, numbered from 1 in order.
pub open spec fn transfer_rows(lows: Seq<(Seq<char>, nat)>, highs: Seq<(Seq<char>, nat)>) -> Seq<
    Seq<FactView>,
> {
    lows.map(
        |i: int, l: (Seq<char>, nat)|
            highs.map(
                |j: int, h: (Seq<char>, nat)| transfer_fact((i * highs.len() + j + 1) as nat, l, h),
            ),
    )
}

/// Every pairing of a low region with a high region, or a single plan saying
/// that no transfer is needed.
pub open spec fn transfer_plans(signals: Seq<Fact>) -> Seq<FactView> {
    let t = transfer_rows(low_regions(signals), high_regions(signals)).flatten();
    if t.len() == 0 {
        seq![
            fv(
                ContextKey::Strategies,
                "transfer:none"@,
                "No transfers needed: All regions within optimal range"@,
            ),
        ]
    } else {
        t
    }
}

/// The regions and stock levels that `pred` selects among the stock entries.
struct Regions {
    names: Vec<String>,
    stock: Vec<u32>,
}

impl Regions {
    spec fn matches(&self, s: Seq<(Seq<char>, nat)>) -> bool {
        &&& self.names@.len() == s.len()
        &&& self.stock@.len() == s.len()
        &&& forall|j: int|
            0 <= j < s.len() ==> #[trigger] self.names@[j]@ == s[j].0 && self.stock@[j] as nat
                == s[j].1
    }
}

/// The low and high regions of the stock signals.
#[verifier::loop_isolation(false)]
fn split_regions(signals: &Vec<Fact>) -> (r: (Regions, Regions))
    ensures
        r.0.matches(low_regions(signals@)),
        r.1.matches(high_regions(signals@)),
        forall|j: int| 0 <= j < r.0.stock@.len() ==> #[trigger] r.0.stock@[j] < 50,
        forall|j: int| 0 <= j < r.1.stock@.len() ==> #[trigger] r.1.stock@[j] > 100,
{
    let ss = filter_facts(signals, FactTest::IdPrefix, "stock:");
    let ghost entries = stock_entries(signals@);
    let ghost lp = |e: (Seq<char>, nat)| is_low(e);
    let ghost hp = |e: (Seq<char>, nat)| is_high(e);
    let n = ss.len();
    let mut lows = Regions { names: Vec::new(), stock: Vec::new() };
    let mut highs = Regions { names: Vec::new(), stock: Vec::new() };
    let mut i: usize = 0;
    while i < n
        invariant
            n == ss.len(),
            ss@ == signals@.filter(id_prefix("stock:"@)),
            entries.len() == n,
            i <= n,
            lows.matches(entries.take(i as int).filter(lp)),
            highs.matches(entries.take(i as int).filter(hp)),
            forall|j: int| 0 <= j < lows.stock@.len() ==> #[trigger] lows.stock@[j] < 50,
            forall|j: int| 0 <= j < highs.stock@.len() ==> #[trigger] highs.stock@[j] > 100,
        decreases n - i,
    {
        let region = strip_prefix_or_str(ss[i].id.as_str(), "stock:", "unknown");
        let stock = word_u32_str(ss[i].content.as_str(), 1, 50);
        let ghost e = entries[i as int];
        proof {
            assert(e == stock_entry(ss@[i as int]));
            assert(entries.take(i + 1) =~= entries.take(i as int).push(e));
            entries.take(i as int).lemma_filter_push(e, lp);
            entries.take(i as int).lemma_filter_push(e, hp);
        }
        if stock < 50 {
            let ghost before = lows.names@;
            let ghost before_s = lows.stock@;
            lows.names.push(region);
            lows.stock.push(stock);
            proof {
                let t = entries.take(i + 1).filter(lp);
                assert forall|j: int| 0 <= j < t.len() implies #[trigger] lows.names@[j]@ == t[j].0
                    && lows.stock@[j] as nat == t[j].1 by {
                    if j < before.len() {
                        assert(lows.names@[j] == before[j]);
                        assert(lows.stock@[j] == before_s[j]);
                    }
                }
            }
        } else if stock > 100 {
            let ghost before = highs.names@;
            let ghost before_s = highs.stock@;
            highs.names.push(region);
            highs.stock.push(stock);
            proof {
                let t = entries.take(i + 1).filter(hp);
                assert forall|j: int| 0 <= j < t.len() implies #[trigger] highs.names@[j]@ == t[j].0
                    && highs.stock@[j] as nat == t[j].1 by {
                    if j < before.len() {
                        assert(highs.names@[j] == before[j]);
                        assert(highs.stock@[j] == before_s[j]);
                    }
                }
            }
        }
        i = i + 1;
    }
    assert(entries.take(n as int) =~= entries);
    (lows, highs)
}

impl Agent for TransferOptimizationAgent {
    fn name(&self) -> (r: &'static str)
        ensures
            r@ == "TransferOptimizationAgent"@,
    {
        "TransferOptimizationAgent"
    }

    fn dependencies(&self) -> (r: Vec<ContextKey>)
        ensures
            r@ == seq![ContextKey::Signals],
    {
        vec![ContextKey::Signals]
    }

    /// Runs once: when forecasts and stock signals exist and no strategy does.
    open spec fn runs_on(&self, ctx: Context) -> bool {
        (any(ctx.facts(ContextKey::Signals), id_prefix("forecast:"@)) && any(
            ctx.facts(ContextKey::Signals),
            id_prefix("stock:"@),
        ) && ctx.facts(ContextKey::Strategies).len() == 0)
    }

    fn accepts(&self, ctx: &Context) -> (r: bool) {
        let signals = ctx.get(ContextKey::Signals);
        exists_fact(signals, FactTest::IdPrefix, "forecast:") && exists_fact(
            signals,
            FactTest::IdPrefix,
            "stock:",
        ) && !ctx.has(ContextKey::Strategies)
    }

    open spec fn proposes(&self, ctx: Context) -> Seq<FactView> {
        transfer_plans(ctx.facts(ContextKey::Signals))
    }

    #[verifier::loop_isolation(false)]
    fn execute(&self, ctx: &Context) -> (r: AgentEffect) {
        let signals = ctx.get(ContextKey::Signals);
        let (lows, highs) = split_regions(signals);
        let ghost ls = low_regions(signals@);
        let ghost hs = high_regions(signals@);
        let ghost rows = transfer_rows(ls, hs);
        let nl = lows.names.len();
        let nh = highs.names.len();
        let mut facts: Vec<Fact> = Vec::new();
        let mut t: u128 = 1;
        let mut i: usize = 0;
        while i < nl
            invariant
                nl == lows.names@.len(),
                nh == highs.names@.len(),
                rows.len() == nl,
                i <= nl,
                t == i * nh + 1,
                fact_views(facts@) == rows.take(i as int).flatten(),
            decreases nl - i,
        {
            let mut j: usize = 0;
            assert(rows[i as int].take(0) =~= Seq::<FactView>::empty());
            while j < nh
                invariant
                    nl == lows.names@.len(),
                    nh == highs.names@.len(),
                    rows.len() == nl,
                    i < nl,
                    j <= nh,
                    rows[i as int].len() == nh,
                    t == i * nh + j + 1,
                    fact_views(facts@) == rows.take(i as int).flatten() + rows[i as int].take(
                        j as int,
                    ),
                decreases nh - j,
            {
                let low = lows.stock[i];
                let high = highs.stock[j];
                let excess = high - 50;
                let shortfall = 50 - low;
                let amount = if excess < shortfall {
                    excess
                } else {
                    shortfall
                };
                if amount > 0 {
                    let mut id = String::from_str("transfer:");
                    push_dec(&mut id, t);
                    let mut c = String::from_str("Transfer ");
                    push_dec(&mut c, amount as u128);
                    c.append(" units: ");
                    c.append(highs.names[j].as_str());
                    c.append(" → ");
                    c.append(lows.names[i].as_str());
                    c.append(" | Distance: ");
                    push_dec(&mut c, t);
                    c.append("00km | Cost: $");
                    push_dec(&mut c, amount as u128 * 5);
                    let f = Fact::from_strings(ContextKey::Strategies, id, c);
                    proof {
                        lemma_dec_times_ten(t as nat);
                        lemma_dec_times_ten(t as nat * 10);
                        reveal_strlit("00km | Cost: $");
                        reveal_strlit("km | Cost: $");
                        assert(t * 100 == (t as nat * 10) * 10);
                        assert(lows.names@[i as int]@ == ls[i as int].0);
                        assert(lows.stock@[i as int] as nat == ls[i as int].1);
                        assert(highs.names@[j as int]@ == hs[j as int].0);
                        assert(highs.stock@[j as int] as nat == hs[j as int].1);
                        assert(amount as nat == transfer_amount(ls[i as int].1, hs[j as int].1));
                        assert(rows[i as int][j as int] == transfer_fact(t as nat, ls[i as int], hs[j as int]));
                        assert(f@.id == rows[i as int][j as int].id);
                        assert(f@.content == rows[i as int][j as int].content);
                        assert(f@ == rows[i as int][j as int]);
                        lemma_take_push(rows[i as int], j as int);
                    }
                    let ghost prev = fact_views(facts@);
                    push_fact(&mut facts, f);
                    proof {
                        assert(prev.push(f@) =~= rows.take(i as int).flatten() + rows[i as int].take(
                            j + 1,
                        ));
                    }
                }
                assert(i * nh + j + 2 <= u128::MAX) by (nonlinear_arith)
                    requires
                        i < nl,
                        j < nh,
                        nl <= usize::MAX,
                        nh <= usize::MAX,
                ;
                t = t + 1;
                j = j + 1;
            }
            proof {
                assert(rows[i as int].take(nh as int) =~= rows[i as int]);
                crate::context::lemma_rows_step(rows, i as int);
                assert((i + 1) * nh == i * nh + nh) by (nonlinear_arith);
            }
            i = i + 1;
        }
        proof {
            crate::context::lemma_rows_done(rows, nl as int);
        }
        if facts.len() == 0 {
            push_fact(
                &mut facts,
                Fact::new(
                    ContextKey::Strategies,
                    "transfer:none",
                    "No transfers needed: All regions within optimal range",
                ),
            );
        }
        let r = AgentEffect::with_facts(facts);
        assert(r@ =~= transfer_plans(signals@));
        r
    }
}

// ---------------------------------------------------------------------------
// Capacity constraints
// ---------------------------------------------------------------------------

/// States the capacity and safety-stock limits on transfers.
pub struct CapacityConstraintAgent;

/// The capacity and safety-stock constraints.
pub open spec fn capacity_constraints() -> Seq<FactView> {
    seq![
        fv(
            ContextKey::Constraints,
            "constraint:capacity"@,
            "Capacity constraint: Max 100 units per transfer | Max 3 transfers per region per day"@,
        ),
        fv(
            ContextKey::Constraints,
            "constraint:safety"@,
            "Safety stock: Minimum 50 units per region must be maintained"@,
        ),
    ]
}

impl Agent for CapacityConstraintAgent {
    fn name(&self) -> (r: &'static str)
        ensures
            r@ == "CapacityConstraintAgent"@,
    {
        "CapacityConstraintAgent"
    }

    fn dependencies(&self) -> (r: Vec<ContextKey>)
        ensures
            r@ == seq![ContextKey::Strategies, ContextKey::Signals],
    {
        vec![ContextKey::Strategies, ContextKey::Signals]
    }

    /// Runs once: when strategies exist and no constraint does.
    open spec fn runs_on(&self, ctx: Context) -> bool {
        (ctx.facts(ContextKey::Strategies).len() > 0 && ctx.facts(
            ContextKey::Constraints,
        ).len() == 0)
    }

    fn accepts(&self, ctx: &Context) -> (r: bool) {
        ctx.has(ContextKey::Strategies) && !ctx.has(ContextKey::Constraints)
    }

    open spec fn proposes(&self, ctx: Context) -> Seq<FactView> {
        capacity_constraints()
    }

    fn execute(&self, ctx: &Context) -> (r: AgentEffect) {
        let mut facts: Vec<Fact> = Vec::new();
        push_fact(
            &mut facts,
            Fact::new(
                ContextKey::Constraints,
                "constraint:capacity",
                "Capacity constraint: Max 100 units per transfer | Max 3 transfers per region per day",
            ),
        );
        push_fact(
            &mut facts,
            Fact::new(
                ContextKey::Constraints,
                "constraint:safety",
                "Safety stock: Minimum 50 units per region must be maintained",
            ),
        );
        let r = AgentEffect::with_facts(facts);
        assert(r@ =~= capacity_constraints());
        r
    }
}

// ---------------------------------------------------------------------------
// Financial impact
// ---------------------------------------------------------------------------

/// Prices each transfer plan.
pub struct FinancialImpactAgent;

/// The cost a transfer plan states after `Cost: $`, or 0.
pub open spec fn transfer_cost(t: Fact) -> nat {
    u32_or(after(t.content@, "Cost: $"@), 0)
}

/// The financial impact of one transfer plan: its cost plus a tenth of it as
/// opportunity cost.
pub open spec fn financial_fact(t: Fact) -> FactView {
    let cost = transfer_cost(t);
    let tid = strip_prefix_or(t.id@, "transfer:"@, "unknown"@);
    fv(
        ContextKey::Strategies,
        "financial:"@ + tid,
        "Financial impact: Transfer "@ + tid + " | Cost: $"@ + dec(cost) + " | Total impact: $"@
            + dec(cost + cost / 10) + " | ROI: "@ + dec(
            if cost > 0 {
                30
            } else {
                0
            },
        ) + " days"@,
    )
}

/// One financial impact per transfer plan, in order.
pub open spec fn financial_facts(strategies: Seq<Fact>) -> Seq<FactView> {
    strategies.filter(id_prefix("transfer:"@)).map_values(|t: Fact| financial_fact(t))
}

impl Agent for FinancialImpactAgent {
    fn name(&self) -> (r: &'static str)
        ensures
            r@ == "FinancialImpactAgent"@,
    {
        "FinancialImpactAgent"
    }

    fn dependencies(&self) -> (r: Vec<ContextKey>)
        ensures
            r@ == seq![ContextKey::Strategies],
    {
        vec![ContextKey::Strategies]
    }

    /// Runs once: when a transfer plan exists and no financial impact does.
    open spec fn runs_on(&self, ctx: Context) -> bool {
        (ctx.facts(ContextKey::Strategies).len() > 0 && any(
            ctx.facts(ContextKey::Strategies),
            id_prefix("transfer:"@),
        ) && !any(ctx.facts(ContextKey::Strategies), id_prefix("financial:"@)))
    }

    fn accepts(&self, ctx: &Context) -> (r: bool) {
        let strategies = ctx.get(ContextKey::Strategies);
        ctx.has(ContextKey::Strategies) && exists_fact(
            strategies,
            FactTest::IdPrefix,
            "transfer:",
        ) && !exists_fact(strategies, FactTest::IdPrefix, "financial:")
    }

    open spec fn proposes(&self, ctx: Context) -> Seq<FactView> {
        financial_facts(ctx.facts(ContextKey::Strategies))
    }

    #[verifier::loop_isolation(false)]
    fn execute(&self, ctx: &Context) -> (r: AgentEffect) {
        let strategies = ctx.get(ContextKey::Strategies);
        let ts = filter_facts(strategies, FactTest::IdPrefix, "transfer:");
        let ghost spec = financial_facts(strategies@);
        let n = ts.len();
        let mut facts: Vec<Fact> = Vec::new();
        let mut i: usize = 0;
        proof {
            reveal_strlit("Cost: $");
        }
        while i < n
            invariant
                n == ts.len(),
                ts@ == strategies@.filter(id_prefix("transfer:"@)),
                i <= n,
                spec.len() == n,
                fact_views(facts@) == spec.take(i as int),
            decreases n - i,
        {
            let t = &ts[i];
            let cost = u32_or_str(after_str(t.content.as_str(), "Cost: $"), 0) as u128;
            let tid = strip_prefix_or_str(t.id.as_str(), "transfer:", "unknown");
            let mut id = String::from_str("financial:");
            id.append(tid.as_str());
            let mut c = String::from_str("Financial impact: Transfer ");
            c.append(tid.as_str());
            c.append(" | Cost: $");
            push_dec(&mut c, cost);
            c.append(" | Total impact: $");
            push_dec(&mut c, cost + cost / 10);
            c.append(" | ROI: ");
            push_dec(
                &mut c,
                if cost > 0 {
                    30
                } else {
                    0
                },
            );
            c.append(" days");
            let f = Fact::from_strings(ContextKey::Strategies, id, c);
            proof {
                assert(f@ == spec[i as int]);
                lemma_take_push(spec, i as int);
            }
            push_fact(&mut facts, f);
            i = i + 1;
        }
        assert(spec.take(n as int) =~= spec);
        AgentEffect::with_facts(facts)
    }
}

// ---------------------------------------------------------------------------
// Rebalance decision
// ---------------------------------------------------------------------------

/// Ranks the transfer plans by cost per unit moved.
pub struct RebalanceDecisionAgent;

/// Transfer plans that move stock: not the placeholder saying none is needed.
pub open spec fn real_transfer() -> spec_fn(Fact) -> bool {
    |f: Fact|
        "transfer:"@.is_prefix_of(f.id@) && f.id@ != "transfer:none"@ && !contains(
            f.content@,
            "No transfers"@,
        )
}

/// Whether `f` is a transfer plan that moves stock.
pub fn is_real_transfer(f: &Fact) -> (r: bool)
    ensures
        r == real_transfer()(*f),
{
    str_starts_with(f.id.as_str(), "transfer:") && !str_eq(f.id.as_str(), "transfer:none")
        && !str_contains(f.content.as_str(), "No transfers")
}

/// Financial impacts whose id mentions transfer `tid`.
pub open spec fn financial_for(tid: Seq<char>) -> spec_fn(Fact) -> bool {
    both(FactTest::IdHas, tid, FactTest::IdPrefix, "financial:"@)
}

/// A plan to rank: transfer id, score, cost and units.
///
/// The cost is the first word after `Cost: $` in the first financial impact
/// whose id mentions the transfer (1000 when there is none); the units are the
/// second word of the plan (0 when unreadable). The score is the cost of a
/// hundred units, 1000 when no unit moves.
pub open spec fn plan_of(strategies: Seq<Fact>, t: Fact) -> (Seq<char>, nat, nat, nat) {
    let tid = strip_prefix_or(t.id@, "transfer:"@, "unknown"@);
    let cost = match find(strategies, financial_for(tid)) {
        Some(f) => u32_or(and_first_word(after(f.content@, "Cost: $"@)), 1000),
        None => 1000,
    };
    let units = word_u32(t.content@, 1, 0);
    let score = if units > 0 {
        cost * 100 / units
    } else {
        1000
    };
    (tid, score, cost, units)
}

/// The plans to rank, in strategy order.
pub open spec fn rebalance_plans(strategies: Seq<Fact>) -> Seq<(Seq<char>, nat, nat, nat)> {
    strategies.filter(real_transfer()).map_values(|t: Fact| plan_of(strategies, t))
}

/// The scores of the plans.
pub open spec fn plan_scores(plans: Seq<(Seq<char>, nat, nat, nat)>) -> Seq<nat> {
    plans.map_values(|p: (Seq<char>, nat, nat, nat)| p.1)
}

/// The evaluation of the plan ranked `i`-th.
pub open spec fn decision_fact(i: int, p: (Seq<char>, nat, nat, nat)) -> FactView {
    fv(
        ContextKey::Evaluations,
        "eval:"@ + dec((i + 1) as nat),
        "Plan "@ + dec((i + 1) as nat) + ": Transfer "@ + p.0 + " | "@ + dec(p.3) + " units | Cost: $"@
            + dec(p.2) + " | Score: "@ + dec(p.1) + " | "@ + rank_label(i),
    )
}

/// The plans ranked by score, lowest first and equal scores in plan order;
/// or a single evaluation saying no action is needed when there is no plan.
pub open spec fn rebalance_decisions(strategies: Seq<Fact>) -> Seq<FactView> {
    let plans = rebalance_plans(strategies);
    if plans.len() == 0 {
        seq![
            fv(
                ContextKey::Evaluations,
                "eval:no-rebalancing"@,
                "Status: NO ACTION NEEDED | All regions balanced | No transfers required"@,
            ),
        ]
    } else {
        ranking(plan_scores(plans), false).map(|i: int, j: nat| decision_fact(i, plans[j as int]))
    }
}

/// The plans read from the strategies, field by field.
struct Plans {
    tids: Vec<String>,
    scores: Vec<u64>,
    costs: Vec<u64>,
    units: Vec<u64>,
}

impl Plans {
    spec fn matches(&self, ps: Seq<(Seq<char>, nat, nat, nat)>) -> bool {
        &&& self.tids@.len() == ps.len()
        &&& self.scores@.len() == ps.len()
        &&& self.costs@.len() == ps.len()
        &&& self.units@.len() == ps.len()
        &&& forall|j: int|
            #![trigger ps[j]]
            0 <= j < ps.len() ==> self.tids@[j]@ == ps[j].0 && self.scores@[j] as nat == ps[j].1
                && self.costs@[j] as nat == ps[j].2 && self.units@[j] as nat == ps[j].3
    }
}

/// The plan of transfer `t`.
fn read_plan(strategies: &Vec<Fact>, t: &Fact) -> (r: (String, u64, u64, u64))
    ensures
        r.0@ == plan_of(strategies@, *t).0,
        r.1 as nat == plan_of(strategies@, *t).1,
        r.2 as nat == plan_of(strategies@, *t).2,
        r.3 as nat == plan_of(strategies@, *t).3,
{
    proof {
        reveal_strlit("Cost: $");
    }
    let tid = strip_prefix_or_str(t.id.as_str(), "transfer:", "unknown");
    let cost: u64 = match position_both(
        strategies,
        FactTest::IdHas,
        tid.as_str(),
        FactTest::IdPrefix,
        "financial:",
    ) {
        Some(k) => u32_or_str(
            and_first_word_str(after_str(strategies[k].content.as_str(), "Cost: $")),
            1000,
        ) as u64,
        None => 1000,
    };
    let units = word_u32_str(t.content.as_str(), 1, 0) as u64;
    let score: u64 = if units > 0 {
        cost * 100 / units
    } else {
        1000
    };
    (tid, score, cost, units)
}

/// The plans to rank.
#[verifier::loop_isolation(false)]
fn read_plans(strategies: &Vec<Fact>) -> (r: Plans)
    ensures
        r.matches(rebalance_plans(strategies@)),
{
    let ghost pred = real_transfer();
    let ghost f = |t: Fact| plan_of(strategies@, t);
    let n = strategies.len();
    let mut ps = Plans { tids: Vec::new(), scores: Vec::new(), costs: Vec::new(), units: Vec::new() };
    let mut i: usize = 0;
    while i < n
        invariant
            n == strategies.len(),
            i <= n,
            pred == real_transfer(),
            ps.matches(strategies@.take(i as int).filter(pred).map_values(f)),
        decreases n - i,
    {
        proof {
            assert(strategies@.take(i + 1) =~= strategies@.take(i as int).push(strategies@[i as int]));
            strategies@.take(i as int).lemma_filter_push(strategies@[i as int], pred);
        }
        if is_real_transfer(&strategies[i]) {
            let (tid, score, cost, units) = read_plan(strategies, &strategies[i]);
            let ghost before = ps;
            let ghost tv = tid@;
            ps.tids.push(tid);
            ps.scores.push(score);
            ps.costs.push(cost);
            ps.units.push(units);
            proof {
                let prev = strategies@.take(i as int).filter(pred);
                let t = strategies@.take(i + 1).filter(pred).map_values(f);
                assert(strategies@.take(i + 1).filter(pred) == prev.push(strategies@[i as int]));
                assert forall|j: int| 0 <= j < t.len() implies ps.tids@[j]@ == #[trigger] t[j].0
                    && ps.scores@[j] as nat == t[j].1 && ps.costs@[j] as nat == t[j].2
                    && ps.units@[j] as nat == t[j].3 by {
                    if j < prev.len() {
                        assert(ps.tids@[j] == before.tids@[j]);
                        assert(ps.scores@[j] == before.scores@[j]);
                        assert(ps.costs@[j] == before.costs@[j]);
                        assert(ps.units@[j] == before.units@[j]);
                        assert(t[j] == prev.map_values(f)[j]);
                    } else {
                        assert(t[j] == f(strategies@[i as int]));
                        assert(ps.tids@[j]@ == tv);
                    }
                }
            }
        } else {
            proof {
                assert(strategies@.take(i + 1).filter(pred).map_values(f) =~= strategies@.take(
                    i as int,
                ).filter(pred).map_values(f));
            }
        }
        i = i + 1;
    }
    assert(strategies@.take(n as int) =~= strategies@);
    ps
}

impl Agent for RebalanceDecisionAgent {
    fn name(&self) -> (r: &'static str)
        ensures
            r@ == "RebalanceDecisionAgent"@,
    {
        "RebalanceDecisionAgent"
    }

    fn dependencies(&self) -> (r: Vec<ContextKey>)
        ensures
            r@ == seq![ContextKey::Strategies, ContextKey::Constraints],
    {
        vec![ContextKey::Strategies, ContextKey::Constraints]
    }

    /// Runs once: when transfer plans or financial impacts exist, constraints
    /// exist, and no evaluation does.
    open spec fn runs_on(&self, ctx: Context) -> bool {
        ((any(ctx.facts(ContextKey::Strategies), id_prefix("transfer:"@)) || any(
            ctx.facts(ContextKey::Strategies),
            id_prefix("financial:"@),
        )) && ctx.facts(ContextKey::Constraints).len() > 0 && ctx.facts(
            ContextKey::Evaluations,
        ).len() == 0)
    }

    fn accepts(&self, ctx: &Context) -> (r: bool) {
        let strategies = ctx.get(ContextKey::Strategies);
        let has_transfers = exists_fact(strategies, FactTest::IdPrefix, "transfer:");
        let has_financial = exists_fact(strategies, FactTest::IdPrefix, "financial:");
        (has_transfers || has_financial) && ctx.has(ContextKey::Constraints) && !ctx.has(
            ContextKey::Evaluations,
        )
    }

    open spec fn proposes(&self, ctx: Context) -> Seq<FactView> {
        rebalance_decisions(ctx.facts(ContextKey::Strategies))
    }

    #[verifier::loop_isolation(false)]
    fn execute(&self, ctx: &Context) -> (r: AgentEffect) {
        let strategies = ctx.get(ContextKey::Strategies);
        let ps = read_plans(strategies);
        let ghost plans = rebalance_plans(strategies@);
        let mut facts: Vec<Fact> = Vec::new();
        if ps.tids.len() == 0 {
            push_fact(
                &mut facts,
                Fact::new(
                    ContextKey::Evaluations,
                    "eval:no-rebalancing",
                    "Status: NO ACTION NEEDED | All regions balanced | No transfers required",
                ),
            );
            let r = AgentEffect::with_facts(facts);
            assert(r@ =~= rebalance_decisions(strategies@));
            return r;
        }
        let order = rank_indices(&ps.scores, false);
        proof {
            assert forall|j: int| 0 <= j < plans.len() implies nats(ps.scores@)[j] == plan_scores(
                plans,
            )[j] by {
                assert(plans[j] == plans[j]);
            }
            assert(nats(ps.scores@) =~= plan_scores(plans));
            lemma_rank_order_permutation(plan_scores(plans), plans.len(), false);
        }
        let ghost spec = rebalance_decisions(strategies@);
        let m = order.len();
        let mut p: usize = 0;
        while p < m
            invariant
                m == order.len(),
                idx(order@) == ranking(plan_scores(plans), false),
                spec == ranking(plan_scores(plans), false).map(
                    |i: int, j: nat| decision_fact(i, plans[j as int]),
                ),
                ps.matches(plans),
                p <= m,
                m == plans.len(),
                fact_views(facts@) == spec.take(p as int),
            decreases m - p,
        {
            let j = order[p];
            proof {
                assert(idx(order@)[p as int] == j as nat);
                assert(j < plans.len());
            }
            let mut id = String::from_str("eval:");
            push_dec(&mut id, p as u128 + 1);
            let mut c = String::from_str("Plan ");
            push_dec(&mut c, p as u128 + 1);
            c.append(": Transfer ");
            c.append(ps.tids[j].as_str());
            c.append(" | ");
            push_dec(&mut c, ps.units[j] as u128);
            c.append(" units | Cost: $");
            push_dec(&mut c, ps.costs[j] as u128);
            c.append(" | Score: ");
            push_dec(&mut c, ps.scores[j] as u128);
            c.append(" | ");
            c.append(rank_label_str(p));
            let f = Fact::from_strings(ContextKey::Evaluations, id, c);
            proof {
                assert(ps.tids@[j as int]@ == plans[j as int].0);
                assert(f@ == spec[p as int]);
                lemma_take_push(spec, p as int);
            }
            push_fact(&mut facts, f);
            p = p + 1;
        }
        assert(spec.take(m as int) =~= spec);
        AgentEffect::with_facts(facts)
    }
}

/// The order in which the plans are evaluated: indices into the plans.
pub open spec fn rebalance_order(strategies: Seq<Fact>) -> Seq<nat> {
    ranking(plan_scores(rebalance_plans(strategies)), false)
}

/// The plan evaluated `i`-th.
pub open spec fn ranked_plan(strategies: Seq<Fact>, i: int) -> (Seq<char>, nat, nat, nat) {
    rebalance_plans(strategies)[rebalance_order(strategies)[i] as int]
}

/// Law: every plan to rank is evaluated exactly once, by ascending score, and
/// plans with equal scores keep their strategy order.
pub proof fn lemma_rebalance_ranking(strategies: Seq<Fact>)
    ensures
        is_permutation(rebalance_order(strategies), rebalance_plans(strategies).len()),
        forall|a: int, b: int|
            0 <= a < b < rebalance_plans(strategies).len() ==> (#[trigger] ranked_plan(
                strategies,
                a,
            )).1 <= (#[trigger] ranked_plan(strategies, b)).1 && (ranked_plan(strategies, a).1
                == ranked_plan(strategies, b).1 ==> rebalance_order(strategies)[a]
                < rebalance_order(strategies)[b]),
{
    let plans = rebalance_plans(strategies);
    let keys = plan_scores(plans);
    lemma_rank_order_permutation(keys, plans.len(), false);
    lemma_rank_order_ranked(keys, plans.len(), false);
    let order = ranking(keys, false);
    assert forall|a: int, b: int| 0 <= a < b < plans.len() implies (#[trigger] ranked_plan(
        strategies,
        a,
    )).1 <= (#[trigger] ranked_plan(strategies, b)).1 && (ranked_plan(strategies, a).1
        == ranked_plan(strategies, b).1 ==> order[a] < order[b]) by {
        assert(in_rank_order(order[a], order[b], keys, false));
        assert(order[a] < plans.len() && order[b] < plans.len());
    }
}

/// Law: a transfer moves at least one unit and never takes the sending
/// region below, nor the receiving region above, the safety stock of 50; it
/// moves as much as that allows, so afterwards one of the two regions sits
/// exactly at the safety stock.
pub proof fn lemma_transfer_keeps_safety_stock(low: nat, high: nat)
    requires
        low < 50,
        high > 100,
    ensures
        transfer_amount(low, high) > 0,
        low + transfer_amount(low, high) <= 50,
        high - transfer_amount(low, high) >= 50,
        low + transfer_amount(low, high) == 50 || high - transfer_amount(low, high) == 50,
{
}

/// Law: the transfer plans pair every region below the safety stock with
/// every region above 100 units, low regions first and high regions within,
/// in signal order. The plan at position `t` is numbered `t + 1`, lies
/// `100 * (t + 1)` km away, costs 5 per unit, and moves the smaller of the
/// high region's excess over 50 and the low region's shortfall below 50, so
/// that one of the two regions ends exactly at the safety stock.
pub proof fn lemma_transfer_plan(ctx: Context, i: int, j: int)
    requires
        0 <= i < low_regions(ctx.facts(ContextKey::Signals)).len(),
        0 <= j < high_regions(ctx.facts(ContextKey::Signals)).len(),
    ensures
        ({
            let signals = ctx.facts(ContextKey::Signals);
            let lows = low_regions(signals);
            let highs = high_regions(signals);
            let l = lows[i];
            let h = highs[j];
            let t = i * highs.len() + j;
            let a = transfer_amount(l.1, h.1);
            let p = TransferOptimizationAgent.proposes(ctx);
            &&& p.len() == lows.len() * highs.len()
            &&& 0 <= t < p.len()
            &&& l.1 < 50 && h.1 > 100
            &&& a <= h.1 - 50 && a <= 50 - l.1
            &&& l.1 + a == 50 || h.1 - a == 50
            &&& p[t] == fv(
                ContextKey::Strategies,
                "transfer:"@ + dec((t + 1) as nat),
                "Transfer "@ + dec(a) + " units: "@ + h.0 + " → "@ + l.0 + " | Distance: "@
                    + dec(((t + 1) * 100) as nat) + "km | Cost: $"@ + dec(a * 5),
            )
        }),
{
    let signals = ctx.facts(ContextKey::Signals);
    let lows = low_regions(signals);
    let highs = high_regions(signals);
    let rows = transfer_rows(lows, highs);
    let w = highs.len() as int;
    assert forall|r: int| 0 <= r < rows.len() implies (#[trigger] rows[r]).len() == w by {}
    lemma_flatten_grid(rows, w, i, j);
    let stock = stock_entries(signals);
    stock.lemma_filter_pred(|e: (Seq<char>, nat)| is_low(e), i);
    stock.lemma_filter_pred(|e: (Seq<char>, nat)| is_high(e), j);
    lemma_transfer_keeps_safety_stock(lows[i].1, highs[j].1);
    assert(rows[i][j] == transfer_fact((i * w + j + 1) as nat, lows[i], highs[j]));
}

// ---------------------------------------------------------------------------
// Invariants
// ---------------------------------------------------------------------------

/// Acceptance: no recommended transfer breaks the safety stock, and a region
/// below it has a transfer plan.
pub struct RequireSafetyStock;

/// Recommended evaluations that report a safety-stock breach.
pub open spec fn flagged_recommendation() -> spec_fn(Fact) -> bool {
    |f: Fact|
        contains(f.content@, "RECOMMENDED"@) && (contains(f.content@, "violates"@) || contains(
            f.content@,
            "below safety"@,
        ))
}

/// Recommended evaluations that plan an action.
pub open spec fn active_plan() -> spec_fn(Fact) -> bool {
    |f: Fact| contains(f.content@, "RECOMMENDED"@) && !contains(f.content@, "NO ACTION"@)
}

/// Stock signals below 50 units (an unreadable stock counts as 0).
pub open spec fn below_safety() -> spec_fn(Fact) -> bool {
    |f: Fact| "stock:"@.is_prefix_of(f.id@) && word_u32(f.content@, 1, 0) < 50
}

pub open spec fn safety_verdict(evaluations: Seq<Fact>, signals: Seq<Fact>) -> Verdict {
    match find(evaluations, flagged_recommendation()) {
        Some(e) => broken_at("recommended transfer violates safety stock requirement"@, e.id@),
        None => if any(evaluations, active_plan()) {
            Verdict::Pass
        } else {
            match find(signals, below_safety()) {
                Some(s) => broken_at("region below safety stock with no transfer plan"@, s.id@),
                None => Verdict::Pass,
            }
        },
    }
}

fn is_flagged_recommendation(f: &Fact) -> (r: bool)
    ensures
        r == flagged_recommendation()(*f),
{
    let c = f.content.as_str();
    str_contains(c, "RECOMMENDED") && (str_contains(c, "violates") || str_contains(
        c,
        "below safety",
    ))
}

fn is_active_plan(f: &Fact) -> (r: bool)
    ensures
        r == active_plan()(*f),
{
    str_contains(f.content.as_str(), "RECOMMENDED") && !str_contains(
        f.content.as_str(),
        "NO ACTION",
    )
}

fn is_below_safety(f: &Fact) -> (r: bool)
    ensures
        r == below_safety()(*f),
{
    str_starts_with(f.id.as_str(), "stock:") && word_u32_str(f.content.as_str(), 1, 0) < 50
}

impl Invariant for RequireSafetyStock {
    fn name(&self) -> (r: &'static str)
        ensures
            r@ == "require_safety_stock"@,
    {
        "require_safety_stock"
    }

    fn class(&self) -> (r: InvariantClass)
        ensures
            r == InvariantClass::Acceptance,
    {
        InvariantClass::Acceptance
    }

    open spec fn verdict(&self, ctx: Context) -> Verdict {
        safety_verdict(
            ctx.facts(ContextKey::Evaluations),
            ctx.facts(ContextKey::Signals),
        )
    }

    fn check(&self, ctx: &Context) -> (r: InvariantResult) {
        let evaluations = ctx.get(ContextKey::Evaluations);
        let signals = ctx.get(ContextKey::Signals);
        match position_by(evaluations, is_flagged_recommendation, Ghost(flagged_recommendation())) {
            Some(k) => {
                return InvariantResult::violated_at(
                    String::from_str("recommended transfer violates safety stock requirement"),
                    evaluations[k].id.clone(),
                );
            },
            None => {},
        }
        if position_by(evaluations, is_active_plan, Ghost(active_plan())).is_some() {
            return InvariantResult::Holds;
        }
        match position_by(signals, is_below_safety, Ghost(below_safety())) {
            Some(k) => InvariantResult::violated_at(
                String::from_str("region below safety stock with no transfer plan"),
                signals[k].id.clone(),
            ),
            None => InvariantResult::Holds,
        }
    }
}

/// Semantic: the recommended transfers stay within a budget of 500.
pub struct RequireBudgetCompliance;

/// The cost an evaluation states: the first word after `Cost: $`, if it is a
/// number.
pub open spec fn stated_cost(f: Fact) -> Option<nat> {
    match and_first_word(after(f.content@, "Cost: $"@)) {
        Some(w) => parse_u32(w),
        None => None,
    }
}

/// What an evaluation adds to the recommended total.
pub open spec fn recommended_cost(f: Fact) -> nat {
    if contains(f.content@, "RECOMMENDED"@) {
        match stated_cost(f) {
            Some(v) => v,
            None => 0,
        }
    } else {
        0
    }
}

/// The total stated cost of the recommended evaluations.
pub open spec fn recommended_total(evaluations: Seq<Fact>) -> nat
    decreases evaluations.len(),
{
    if evaluations.len() == 0 {
        0
    } else {
        recommended_total(evaluations.drop_last()) + recommended_cost(evaluations.last())
    }
}

pub open spec fn budget_verdict(evaluations: Seq<Fact>) -> Verdict {
    let total = recommended_total(evaluations);
    if total > 500 {
        broken("total transfer cost $"@ + dec(total) + " exceeds budget $500"@)
    } else {
        Verdict::Pass
    }
}

impl Invariant for RequireBudgetCompliance {
    fn name(&self) -> (r: &'static str)
        ensures
            r@ == "require_budget_compliance"@,
    {
        "require_budget_compliance"
    }

    fn class(&self) -> (r: InvariantClass)
        ensures
            r == InvariantClass::Semantic,
    {
        InvariantClass::Semantic
    }

    open spec fn verdict(&self, ctx: Context) -> Verdict {
        budget_verdict(ctx.facts(ContextKey::Evaluations))
    }

    #[verifier::loop_isolation(false)]
    fn check(&self, ctx: &Context) -> (r: InvariantResult) {
        let evaluations = ctx.get(ContextKey::Evaluations);
        let n = evaluations.len();
        let mut total: u128 = 0;
        let mut i: usize = 0;
        proof {
            reveal_strlit("Cost: $");
        }
        assert(evaluations@.take(0) =~= Seq::<Fact>::empty());
        while i < n
            invariant
                n == evaluations.len(),
                i <= n,
                total == recommended_total(evaluations@.take(i as int)),
                total <= i * 4294967295,
            decreases n - i,
        {
            let e = &evaluations[i];
            let mut add: u128 = 0;
            if str_contains(e.content.as_str(), "RECOMMENDED") {
                let w = and_first_word_str(after_str(e.content.as_str(), "Cost: $"));
                match w {
                    Some(t) => match parse_u32_str(t.as_str()) {
                        Some(v) => {
                            add = v as u128;
                        },
                        None => {},
                    },
                    None => {},
                }
            }
            proof {
                assert(add == recommended_cost(evaluations@[i as int]));
                assert(evaluations@.take(i + 1).drop_last() =~= evaluations@.take(i as int));
                assert(evaluations@.take(i + 1).last() == evaluations@[i as int]);
            }
            total = total + add;
            i = i + 1;
        }
        assert(evaluations@.take(n as int) =~= evaluations@);
        if total > 500 {
            let mut reason = String::from_str("total transfer cost $");
            push_dec(&mut reason, total);
            reason.append(" exceeds budget $500");
            return InvariantResult::violated(reason);
        }
        InvariantResult::Holds
    }
}

/// Structural: once forecasting has started, every region with a stock
/// signal has a forecast.
pub struct RequireCompleteForecasts;

/// The region of a stock signal.
pub open spec fn stock_region(s: Fact) -> Seq<char> {
    strip_prefix_or(s.id@, "stock:"@, "unknown"@)
}

/// Stock signals whose region has no forecast among `signals`.
pub open spec fn missing_forecast(signals: Seq<Fact>) -> spec_fn(Fact) -> bool {
    |s: Fact|
        "stock:"@.is_prefix_of(s.id@) && !any(signals, id_is("forecast:"@ + stock_region(s)))
}

pub open spec fn forecasts_verdict(signals: Seq<Fact>) -> Verdict {
    if !any(signals, id_prefix("forecast:"@)) {
        Verdict::Pass
    } else {
        match find(signals, missing_forecast(signals)) {
            Some(s) => broken_at(
                "region "@ + stock_region(s) + " missing forecast"@,
                "stock:"@ + stock_region(s),
            ),
            None => Verdict::Pass,
        }
    }
}

impl Invariant for RequireCompleteForecasts {
    fn name(&self) -> (r: &'static str)
        ensures
            r@ == "require_complete_forecasts"@,
    {
        "require_complete_forecasts"
    }

    fn class(&self) -> (r: InvariantClass)
        ensures
            r == InvariantClass::Structure,
    {
        InvariantClass::Structure
    }

    open spec fn verdict(&self, ctx: Context) -> Verdict {
        forecasts_verdict(ctx.facts(ContextKey::Signals))
    }

    #[verifier::loop_isolation(false)]
    fn check(&self, ctx: &Context) -> (r: InvariantResult) {
        let signals = ctx.get(ContextKey::Signals);
        if !exists_fact(signals, FactTest::IdPrefix, "forecast:") {
            return InvariantResult::Holds;
        }
        let ghost pred = missing_forecast(signals@);
        let n = signals.len();
        let mut i: usize = 0;
        while i < n
            invariant
                n == signals.len(),
                i <= n,
                pred == missing_forecast(signals@),
                forall|j: int| 0 <= j < i ==> !pred(#[trigger] signals@[j]),
            decreases n - i,
        {
            let s = &signals[i];
            if str_starts_with(s.id.as_str(), "stock:") {
                let region = strip_prefix_or_str(s.id.as_str(), "stock:", "unknown");
                let mut fid = String::from_str("forecast:");
                fid.append(region.as_str());
                if !exists_fact(signals, FactTest::IdIs, fid.as_str()) {
                    proof {
                        assert(pred(signals@[i as int]));
                        assert(is_first(signals@, pred, i as int));
                        let k = choose|k: int| is_first(signals@, pred, k);
                        lemma_first_unique(signals@, pred, i as int, k);
                    }
                    let mut reason = String::from_str("region ");
                    reason.append(region.as_str());
                    reason.append(" missing forecast");
                    let mut id = String::from_str("stock:");
                    id.append(region.as_str());
                    return InvariantResult::violated_at(reason, id);
                }
            }
            i = i + 1;
        }
        proof {
            lemma_find_none(signals@, pred);
        }
        InvariantResult::Holds
    }
}

// ---------------------------------------------------------------------------
// Laws: each agent runs once
// ---------------------------------------------------------------------------

/// The seeds always name at least one region.
pub proof fn lemma_regions_nonempty(seeds: Seq<Fact>)
    ensures
        regions(seeds).len() > 0,
{
    match find(seeds, id_is("regions"@)) {
        Some(seed) => {
            reveal_strlit(",");
            lemma_trimmed_pieces_nonempty(seed.content@, ","@);
        },
        None => {},
    }
}

/// Law: the sales-velocity agent runs once: once the signals it proposes on
/// a context it runs on are added, it does not run again.
pub proof fn lemma_sales_velocity_runs_once(ctx: Context, next: Context)
    requires
        SalesVelocityAgent.runs_on(ctx),
        next.extends(ctx, SalesVelocityAgent.proposes(ctx)),
    ensures
        !SalesVelocityAgent.runs_on(next),
{
    let seeds = ctx.facts(ContextKey::Seeds);
    lemma_regions_nonempty(seeds);
    lemma_prefix_of_concat("velocity:"@, lowercase(regions(seeds)[0]));
    lemma_added_prefixed(ctx, next, SalesVelocityAgent.proposes(ctx), 0, "velocity:"@);
}

/// Law: the inventory agent runs once.
pub proof fn lemma_inventory_runs_once(ctx: Context, next: Context)
    requires
        InventoryAgent.runs_on(ctx),
        next.extends(ctx, InventoryAgent.proposes(ctx)),
    ensures
        !InventoryAgent.runs_on(next),
{
    let seeds = ctx.facts(ContextKey::Seeds);
    lemma_regions_nonempty(seeds);
    lemma_prefix_of_concat("stock:"@, lowercase(regions(seeds)[0]));
    lemma_added_prefixed(ctx, next, InventoryAgent.proposes(ctx), 0, "stock:"@);
}

/// Law: the forecast agent runs once.
pub proof fn lemma_forecast_runs_once(ctx: Context, next: Context)
    requires
        ForecastAgent.runs_on(ctx),
        next.extends(ctx, ForecastAgent.proposes(ctx)),
    ensures
        !ForecastAgent.runs_on(next),
{
    let signals = ctx.facts(ContextKey::Signals);
    lemma_any_filter(signals, id_prefix("velocity:"@));
    lemma_prefix_of_concat("forecast:"@, forecast_regions(signals)[0]);
    lemma_added_prefixed(ctx, next, ForecastAgent.proposes(ctx), 0, "forecast:"@);
}

/// Law: the transfer-optimization agent runs once.
pub proof fn lemma_transfer_optimization_runs_once(ctx: Context, next: Context)
    requires
        TransferOptimizationAgent.runs_on(ctx),
        next.extends(ctx, TransferOptimizationAgent.proposes(ctx)),
    ensures
        !TransferOptimizationAgent.runs_on(next),
{
    let signals = ctx.facts(ContextKey::Signals);
    let rows = transfer_rows(low_regions(signals), high_regions(signals));
    lemma_flatten_all(rows, keyed(ContextKey::Strategies));
    lemma_added_fact(ctx, next, TransferOptimizationAgent.proposes(ctx), 0);
}

/// Law: the capacity-constraint agent runs once.
pub proof fn lemma_capacity_constraint_runs_once(ctx: Context, next: Context)
    requires
        CapacityConstraintAgent.runs_on(ctx),
        next.extends(ctx, CapacityConstraintAgent.proposes(ctx)),
    ensures
        !CapacityConstraintAgent.runs_on(next),
{
    lemma_added_fact(ctx, next, CapacityConstraintAgent.proposes(ctx), 0);
}

/// Law: the financial-impact agent runs once.
pub proof fn lemma_financial_impact_runs_once(ctx: Context, next: Context)
    requires
        FinancialImpactAgent.runs_on(ctx),
        next.extends(ctx, FinancialImpactAgent.proposes(ctx)),
    ensures
        !FinancialImpactAgent.runs_on(next),
{
    let strategies = ctx.facts(ContextKey::Strategies);
    lemma_any_filter(strategies, id_prefix("transfer:"@));
    let t = strategies.filter(id_prefix("transfer:"@))[0];
    lemma_prefix_of_concat("financial:"@, strip_prefix_or(t.id@, "transfer:"@, "unknown"@));
    lemma_added_prefixed(ctx, next, FinancialImpactAgent.proposes(ctx), 0, "financial:"@);
}

/// Law: the rebalance-decision agent runs once.
pub proof fn lemma_rebalance_decision_runs_once(ctx: Context, next: Context)
    requires
        RebalanceDecisionAgent.runs_on(ctx),
        next.extends(ctx, RebalanceDecisionAgent.proposes(ctx)),
    ensures
        !RebalanceDecisionAgent.runs_on(next),
{
    let strategies = ctx.facts(ContextKey::Strategies);
    let plans = rebalance_plans(strategies);
    lemma_rank_order_permutation(plan_scores(plans), plans.len(), false);
    lemma_added_fact(ctx, next, RebalanceDecisionAgent.proposes(ctx), 0);
}

} // verus!
