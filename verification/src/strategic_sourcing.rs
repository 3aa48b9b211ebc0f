//! Strategic sourcing agents: vendor selection under cost, ESG, risk and
//! compliance constraints.
//!
//! ```text
//! Seeds (requirements, suppliers)
//!    │
//!    ├─► SupplierDiscoveryAgent → Signals (supplier profiles)
//!    ├─► ComplianceAgent → Signals (compliance status)
//!    ├─► ESGScoringAgent → Signals (ESG scores)
//!    ├─► PriceBenchmarkAgent → Signals (price comparisons)
//!    └─► RiskModelAgent → Signals (risk assessments)
//!    │
//!    ▼
//! SourcingStrategyAgent → Strategies (shortlisted suppliers)
//!    │
//!    ▼
//! VendorRankingAgent → Evaluations (ranked vendors with rationale)
//! ```
use crate::agent::{
    any, broken, broken_at, exists_fact, filter_facts, find, id_is, id_prefix, is_first,
    lemma_find_none, lemma_first_unique, position, position_by, Agent, FactTest, Invariant,
    InvariantClass, InvariantResult, Verdict,
};
use crate::context::{
    fact_views, fv, lemma_take_push, push_fact, AgentEffect, Context, ContextKey, Fact, FactView,
};
use crate::rank::{
    idx, in_rank_order, is_permutation, lemma_rank_order_covers, lemma_rank_order_permutation,
    lemma_rank_order_ranked,
    nats, rank_indices, rank_label, rank_label_str, ranking,
};
use crate::text::{
    after, after_str, and_before, and_before_str, before, before_str, contains, dec, lowercase,
    opt_view, push_dec, push_difference, signed_dec, split_trimmed, str_contains, str_eq,
    str_starts_with, strip_prefix_or, strip_prefix_or_str, to_lowercase, trimmed_pieces, u32_or,
    u32_or_str, views,
};
use crate::agent::{lemma_added_fact, lemma_added_prefixed, lemma_any_filter};
use crate::text::{lemma_prefix_of_concat, lemma_trimmed_pieces_nonempty};
use vstd::prelude::*;

verus! {

/// The supplier named by a supplier profile's id.
pub open spec fn supplier_of(s: Fact) -> Seq<char> {
    strip_prefix_or(s.id@, "supplier:"@, "unknown"@)
}

/// The supplier profiles, in signal order.
pub open spec fn profiles(signals: Seq<Fact>) -> Seq<Fact> {
    signals.filter(id_prefix("supplier:"@))
}

// ---------------------------------------------------------------------------
// Supplier discovery
// ---------------------------------------------------------------------------

/// Profiles the suppliers named by the seeds.
pub struct SupplierDiscoveryAgent;

/// The suppliers named by the `suppliers` seed, or five default vendors.
pub open spec fn suppliers(seeds: Seq<Fact>) -> Seq<Seq<char>> {
    match find(seeds, id_is("suppliers"@)) {
        Some(seed) => trimmed_pieces(seed.content@, ","@),
        None => seq!["VendorA"@, "VendorB"@, "VendorC"@, "VendorD"@, "VendorE"@],
    }
}

/// The profile of the `i`-th supplier: alternately domestic and
/// international, capacity growing by 100 a month, established two years
/// earlier than the one before.
pub open spec fn supplier_fact(i: int, supplier: Seq<char>) -> FactView {
    fv(
        ContextKey::Signals,
        "supplier:"@ + lowercase(supplier),
        "Supplier "@ + dec((i + 1) as nat) + ": "@ + supplier + " | Location: "@ + (if i % 2 == 0 {
            "Domestic"@
        } else {
            "International"@
        }) + " | Capacity: "@ + dec(((i + 1) * 100) as nat) + " units/month | Established: "@
            + signed_dec(2020 - i * 2),
    )
}

/// One profile per supplier, in order.
pub open spec fn supplier_facts(seeds: Seq<Fact>) -> Seq<FactView> {
    suppliers(seeds).map(|i: int, s: Seq<char>| supplier_fact(i, s))
}

/// The suppliers named by the seeds.
fn read_suppliers(seeds: &Vec<Fact>) -> (r: Vec<String>)
    ensures
        views(r@) == suppliers(seeds@),
{
    match position(seeds, FactTest::IdIs, "suppliers") {
        Some(k) => {
            proof {
                reveal_strlit(",");
            }
            split_trimmed(seeds[k].content.as_str(), ",")
        },
        None => {
            let r = vec![
                String::from_str("VendorA"),
                String::from_str("VendorB"),
                String::from_str("VendorC"),
                String::from_str("VendorD"),
                String::from_str("VendorE"),
            ];
            assert(views(r@) =~= seq!["VendorA"@, "VendorB"@, "VendorC"@, "VendorD"@, "VendorE"@]);
            r
        },
    }
}

impl Agent for SupplierDiscoveryAgent {
    fn name(&self) -> (r: &'static str)
        ensures
            r@ == "SupplierDiscoveryAgent"@,
    {
        "SupplierDiscoveryAgent"
    }

    fn dependencies(&self) -> (r: Vec<ContextKey>)
        ensures
            r@ == seq![ContextKey::Seeds],
    {
        vec![ContextKey::Seeds]
    }

    /// Runs once: when seeds exist and no supplier profile does.
    open spec fn runs_on(&self, ctx: Context) -> bool {
        (ctx.facts(ContextKey::Seeds).len() > 0 && !any(
            ctx.facts(ContextKey::Signals),
            id_prefix("supplier:"@),
        ))
    }

    fn accepts(&self, ctx: &Context) -> (r: bool) {
        ctx.has(ContextKey::Seeds) && !exists_fact(
            ctx.get(ContextKey::Signals),
            FactTest::IdPrefix,
            "supplier:",
        )
    }

    open spec fn proposes(&self, ctx: Context) -> Seq<FactView> {
        supplier_facts(ctx.facts(ContextKey::Seeds))
    }

    #[verifier::loop_isolation(false)]
    fn execute(&self, ctx: &Context) -> (r: AgentEffect) {
        let names = read_suppliers(ctx.get(ContextKey::Seeds));
        let ghost spec = supplier_facts(ctx.facts(ContextKey::Seeds));
        let n = names.len();
        let mut facts: Vec<Fact> = Vec::new();
        let mut i: usize = 0;
        while i < n
            invariant
                n == names.len(),
                i <= n,
                spec.len() == n,
                fact_views(facts@) == spec.take(i as int),
            decreases n - i,
        {
            let name = names[i].as_str();
            let mut id = String::from_str("supplier:");
            let lower = to_lowercase(name);
            id.append(lower.as_str());
            let mut c = String::from_str("Supplier ");
            push_dec(&mut c, i as u128 + 1);
            c.append(": ");
            c.append(name);
            c.append(" | Location: ");
            c.append(
                if i % 2 == 0 {
                    "Domestic"
                } else {
                    "International"
                },
            );
            c.append(" | Capacity: ");
            push_dec(&mut c, (i as u128 + 1) * 100);
            c.append(" units/month | Established: ");
            push_difference(&mut c, 2020, i as u128 * 2);
            let f = Fact::from_strings(ContextKey::Signals, id, c);
            proof {
                assert(views(names@)[i as int] == names@[i as int]@);
                assert(f@ == spec[i as int]);
                lemma_take_push(spec, i as int);
            }
            push_fact(&mut facts, f);
            i = i + 1;
        }
        assert(spec.take(n as int) =~= spec);
        AgentEffect::with_facts(facts)
    }
}

// ---------------------------------------------------------------------------
// Compliance
// ---------------------------------------------------------------------------

/// Checks the compliance of each profiled supplier.
pub struct ComplianceAgent;

/// The compliance status of a supplier: VendorC fails.
pub open spec fn compliance_fact(s: Fact) -> FactView {
    let supplier = supplier_of(s);
    let ok = !contains(supplier, "vendorc"@);
    fv(
        ContextKey::Signals,
        "compliance:"@ + supplier,
        "Compliance "@ + supplier + ": "@ + (if ok {
            "COMPLIANT"@
        } else {
            "NON-COMPLIANT"@
        }) + " | Certifications: "@ + (if ok {
            "ISO 9001, ISO 14001, SOC 2"@
        } else {
            "ISO 9001 (expired)"@
        }) + " | Status: "@ + (if ok {
            "PASS"@
        } else {
            "FAIL"@
        }),
    )
}

/// One compliance status per supplier profile, in order.
pub open spec fn compliance_facts(signals: Seq<Fact>) -> Seq<FactView> {
    profiles(signals).map_values(|s: Fact| compliance_fact(s))
}

impl Agent for ComplianceAgent {
    fn name(&self) -> (r: &'static str)
        ensures
            r@ == "ComplianceAgent"@,
    {
        "ComplianceAgent"
    }

    fn dependencies(&self) -> (r: Vec<ContextKey>)
        ensures
            r@ == seq![ContextKey::Signals],
    {
        vec![ContextKey::Signals]
    }

    /// Runs once: when supplier profiles exist and no compliance status does.
    open spec fn runs_on(&self, ctx: Context) -> bool {
        (any(ctx.facts(ContextKey::Signals), id_prefix("supplier:"@)) && !any(
            ctx.facts(ContextKey::Signals),
            id_prefix("compliance:"@),
        ))
    }

    fn accepts(&self, ctx: &Context) -> (r: bool) {
        let signals = ctx.get(ContextKey::Signals);
        exists_fact(signals, FactTest::IdPrefix, "supplier:") && !exists_fact(
            signals,
            FactTest::IdPrefix,
            "compliance:",
        )
    }

    open spec fn proposes(&self, ctx: Context) -> Seq<FactView> {
        compliance_facts(ctx.facts(ContextKey::Signals))
    }

    #[verifier::loop_isolation(false)]
    fn execute(&self, ctx: &Context) -> (r: AgentEffect) {
        let ps = filter_facts(ctx.get(ContextKey::Signals), FactTest::IdPrefix, "supplier:");
        let ghost spec = compliance_facts(ctx.facts(ContextKey::Signals));
        let n = ps.len();
        let mut facts: Vec<Fact> = Vec::new();
        let mut i: usize = 0;
        while i < n
            invariant
                n == ps.len(),
                ps@ == profiles(ctx.facts(ContextKey::Signals)),
                i <= n,
                spec.len() == n,
                fact_views(facts@) == spec.take(i as int),
            decreases n - i,
        {
            let supplier = strip_prefix_or_str(ps[i].id.as_str(), "supplier:", "unknown");
            let ok = !str_contains(supplier.as_str(), "vendorc");
            let mut id = String::from_str("compliance:");
            id.append(supplier.as_str());
            let mut c = String::from_str("Compliance ");
            c.append(supplier.as_str());
            c.append(": ");
            c.append(
                if ok {
                    "COMPLIANT"
                } else {
                    "NON-COMPLIANT"
                },
            );
            c.append(" | Certifications: ");
            c.append(
                if ok {
                    "ISO 9001, ISO 14001, SOC 2"
                } else {
                    "ISO 9001 (expired)"
                },
            );
            c.append(" | Status: ");
            c.append(
                if ok {
                    "PASS"
                } else {
                    "FAIL"
                },
            );
            let f = Fact::from_strings(ContextKey::Signals, id, c);
            proof {
                assert(f@ == spec[i as int]);
                lemma_take_push(spec, i as int);
            }
            push_fact(&mut facts, f);
            i = i + 1;
        }
        assert(spec.take(n as int) =~= spec);
        AgentEffect::with_facts(facts)
    }
}

// ---------------------------------------------------------------------------
// ESG scoring
// ---------------------------------------------------------------------------

/// Scores the environmental, social and governance record of each supplier.
pub struct ESGScoringAgent;

/// The simulated ESG score of a supplier.
pub open spec fn esg_score(supplier: Seq<char>) -> nat {
    if contains(supplier, "vendora"@) {
        95
    } else if contains(supplier, "vendorb"@) {
        85
    } else if contains(supplier, "vendorc"@) {
        60
    } else if contains(supplier, "vendord"@) {
        75
    } else {
        70
    }
}

/// The simulated ESG score of a supplier.
pub fn read_esg_score(supplier: &str) -> (r: u64)
    ensures
        r as nat == esg_score(supplier@),
{
    if str_contains(supplier, "vendora") {
        95
    } else if str_contains(supplier, "vendorb") {
        85
    } else if str_contains(supplier, "vendorc") {
        60
    } else if str_contains(supplier, "vendord") {
        75
    } else {
        70
    }
}

/// The ESG assessment of a supplier.
pub open spec fn esg_fact(s: Fact) -> FactView {
    let supplier = supplier_of(s);
    let e = esg_score(supplier);
    fv(
        ContextKey::Signals,
        "esg:"@ + supplier,
        "ESG "@ + supplier + ": Score "@ + dec(e) + "/100 | Environmental: "@ + dec((e - 10) as nat)
            + " | Social: "@ + dec((e - 5) as nat) + " | Governance: "@ + dec(e),
    )
}

/// One ESG assessment per supplier profile, in order.
pub open spec fn esg_facts(signals: Seq<Fact>) -> Seq<FactView> {
    profiles(signals).map_values(|s: Fact| esg_fact(s))
}

impl Agent for ESGScoringAgent {
    fn name(&self) -> (r: &'static str)
        ensures
            r@ == "ESGScoringAgent"@,
    {
        "ESGScoringAgent"
    }

    fn dependencies(&self) -> (r: Vec<ContextKey>)
        ensures
            r@ == seq![ContextKey::Signals],
    {
        vec![ContextKey::Signals]
    }

    /// Runs once: when supplier profiles exist and no ESG assessment does.
    open spec fn runs_on(&self, ctx: Context) -> bool {
        (any(ctx.facts(ContextKey::Signals), id_prefix("supplier:"@)) && !any(
            ctx.facts(ContextKey::Signals),
            id_prefix("esg:"@),
        ))
    }

    fn accepts(&self, ctx: &Context) -> (r: bool) {
        let signals = ctx.get(ContextKey::Signals);
        exists_fact(signals, FactTest::IdPrefix, "supplier:") && !exists_fact(
            signals,
            FactTest::IdPrefix,
            "esg:",
        )
    }

    open spec fn proposes(&self, ctx: Context) -> Seq<FactView> {
        esg_facts(ctx.facts(ContextKey::Signals))
    }

    #[verifier::loop_isolation(false)]
    fn execute(&self, ctx: &Context) -> (r: AgentEffect) {
        let ps = filter_facts(ctx.get(ContextKey::Signals), FactTest::IdPrefix, "supplier:");
        let ghost spec = esg_facts(ctx.facts(ContextKey::Signals));
        let n = ps.len();
        let mut facts: Vec<Fact> = Vec::new();
        let mut i: usize = 0;
        while i < n
            invariant
                n == ps.len(),
                ps@ == profiles(ctx.facts(ContextKey::Signals)),
                i <= n,
                spec.len() == n,
                fact_views(facts@) == spec.take(i as int),
            decreases n - i,
        {
            let supplier = strip_prefix_or_str(ps[i].id.as_str(), "supplier:", "unknown");
            let e = read_esg_score(supplier.as_str());
            let mut id = String::from_str("esg:");
            id.append(supplier.as_str());
            let mut c = String::from_str("ESG ");
            c.append(supplier.as_str());
            c.append(": Score ");
            push_dec(&mut c, e as u128);
            c.append("/100 | Environmental: ");
            push_dec(&mut c, e as u128 - 10);
            c.append(" | Social: ");
            push_dec(&mut c, e as u128 - 5);
            c.append(" | Governance: ");
            push_dec(&mut c, e as u128);
            let f = Fact::from_strings(ContextKey::Signals, id, c);
            proof {
                assert(f@ == spec[i as int]);
                lemma_take_push(spec, i as int);
            }
            push_fact(&mut facts, f);
            i = i + 1;
        }
        assert(spec.take(n as int) =~= spec);
        AgentEffect::with_facts(facts)
    }
}

// ---------------------------------------------------------------------------
// Price benchmark
// ---------------------------------------------------------------------------

/// Compares the price of each supplier with the market average of 100.
pub struct PriceBenchmarkAgent;

/// The simulated price of the `i`-th supplier: 20 below the market average
/// for the first, rising by 10 with each.
pub open spec fn supplier_price(i: int) -> nat {
    (100 + (i - 2) * 10) as nat
}

/// How a price compares with the market average of 100.
pub open spec fn versus_market(price: nat) -> Seq<char> {
    if price < 100 {
        dec((((100 - price) * 100) / 100) as nat) + "% below market"@
    } else if price > 100 {
        dec((((price - 100) * 100) / 100) as nat) + "% above market"@
    } else {
        "at market"@
    }
}

/// The price benchmark of the `i`-th supplier profile.
pub open spec fn price_fact(i: int, s: Fact) -> FactView {
    let supplier = supplier_of(s);
    let price = supplier_price(i);
    fv(
        ContextKey::Signals,
        "price:"@ + supplier,
        "Price "@ + supplier + ": $"@ + dec(price) + "/unit | "@ + versus_market(price)
            + " | Payment terms: Net 30"@,
    )
}

/// One price benchmark per supplier profile, in order.
pub open spec fn price_facts(signals: Seq<Fact>) -> Seq<FactView> {
    profiles(signals).map(|i: int, s: Fact| price_fact(i, s))
}

impl Agent for PriceBenchmarkAgent {
    fn name(&self) -> (r: &'static str)
        ensures
            r@ == "PriceBenchmarkAgent"@,
    {
        "PriceBenchmarkAgent"
    }

    fn dependencies(&self) -> (r: Vec<ContextKey>)
        ensures
            r@ == seq![ContextKey::Signals],
    {
        vec![ContextKey::Signals]
    }

    /// Runs once: when supplier profiles exist and no price benchmark does.
    open spec fn runs_on(&self, ctx: Context) -> bool {
        (any(ctx.facts(ContextKey::Signals), id_prefix("supplier:"@)) && !any(
            ctx.facts(ContextKey::Signals),
            id_prefix("price:"@),
        ))
    }

    fn accepts(&self, ctx: &Context) -> (r: bool) {
        let signals = ctx.get(ContextKey::Signals);
        exists_fact(signals, FactTest::IdPrefix, "supplier:") && !exists_fact(
            signals,
            FactTest::IdPrefix,
            "price:",
        )
    }

    open spec fn proposes(&self, ctx: Context) -> Seq<FactView> {
        price_facts(ctx.facts(ContextKey::Signals))
    }

    #[verifier::loop_isolation(false)]
    fn execute(&self, ctx: &Context) -> (r: AgentEffect) {
        let ps = filter_facts(ctx.get(ContextKey::Signals), FactTest::IdPrefix, "supplier:");
        let ghost spec = price_facts(ctx.facts(ContextKey::Signals));
        let n = ps.len();
        let mut facts: Vec<Fact> = Vec::new();
        let mut i: usize = 0;
        while i < n
            invariant
                n == ps.len(),
                ps@ == profiles(ctx.facts(ContextKey::Signals)),
                i <= n,
                spec.len() == n,
                fact_views(facts@) == spec.take(i as int),
            decreases n - i,
        {
            let supplier = strip_prefix_or_str(ps[i].id.as_str(), "supplier:", "unknown");
            let price: u128 = 80 + i as u128 * 10;
            let mut id = String::from_str("price:");
            id.append(supplier.as_str());
            let mut c = String::from_str("Price ");
            c.append(supplier.as_str());
            c.append(": $");
            push_dec(&mut c, price);
            c.append("/unit | ");
            let ghost before_vs = c@;
            if price < 100 {
                push_dec(&mut c, ((100 - price) * 100) / 100);
                c.append("% below market");
            } else if price > 100 {
                push_dec(&mut c, ((price - 100) * 100) / 100);
                c.append("% above market");
            } else {
                c.append("at market");
            }
            assert(c@ =~= before_vs + versus_market(price as nat));
            c.append(" | Payment terms: Net 30");
            let f = Fact::from_strings(ContextKey::Signals, id, c);
            proof {
                assert(price == supplier_price(i as int));
                assert(f@ == spec[i as int]);
                lemma_take_push(spec, i as int);
            }
            push_fact(&mut facts, f);
            i = i + 1;
        }
        assert(spec.take(n as int) =~= spec);
        AgentEffect::with_facts(facts)
    }
}

// ---------------------------------------------------------------------------
// Risk model
// ---------------------------------------------------------------------------

/// Assesses the supply risk of each supplier.
pub struct RiskModelAgent;

/// The risk assessment of a supplier profile: international suppliers carry
/// medium risk, domestic ones low.
pub open spec fn risk_fact(s: Fact) -> FactView {
    let supplier = supplier_of(s);
    let intl = contains(s.content@, "International"@);
    let score: nat = if intl {
        40
    } else {
        20
    };
    fv(
        ContextKey::Signals,
        "risk:"@ + supplier,
        "Risk "@ + supplier + ": Score "@ + dec(score) + "/100 | Level: "@ + (if score > 30 {
            "MEDIUM"@
        } else {
            "LOW"@
        }) + " | Factors: "@ + (if intl {
            "Currency, logistics, geopolitical"@
        } else {
            "Minimal"@
        }) + " | Mitigation: Required"@,
    )
}

/// One risk assessment per supplier profile, in order.
pub open spec fn risk_facts(signals: Seq<Fact>) -> Seq<FactView> {
    profiles(signals).map_values(|s: Fact| risk_fact(s))
}

impl Agent for RiskModelAgent {
    fn name(&self) -> (r: &'static str)
        ensures
            r@ == "RiskModelAgent"@,
    {
        "RiskModelAgent"
    }

    fn dependencies(&self) -> (r: Vec<ContextKey>)
        ensures
            r@ == seq![ContextKey::Signals],
    {
        vec![ContextKey::Signals]
    }

    /// Runs once: when supplier profiles exist and no risk assessment does.
    open spec fn runs_on(&self, ctx: Context) -> bool {
        (any(ctx.facts(ContextKey::Signals), id_prefix("supplier:"@)) && !any(
            ctx.facts(ContextKey::Signals),
            id_prefix("risk:"@),
        ))
    }

    fn accepts(&self, ctx: &Context) -> (r: bool) {
        let signals = ctx.get(ContextKey::Signals);
        exists_fact(signals, FactTest::IdPrefix, "supplier:") && !exists_fact(
            signals,
            FactTest::IdPrefix,
            "risk:",
        )
    }

    open spec fn proposes(&self, ctx: Context) -> Seq<FactView> {
        risk_facts(ctx.facts(ContextKey::Signals))
    }

    #[verifier::loop_isolation(false)]
    fn execute(&self, ctx: &Context) -> (r: AgentEffect) {
        let ps = filter_facts(ctx.get(ContextKey::Signals), FactTest::IdPrefix, "supplier:");
        let ghost spec = risk_facts(ctx.facts(ContextKey::Signals));
        let n = ps.len();
        let mut facts: Vec<Fact> = Vec::new();
        let mut i: usize = 0;
        while i < n
            invariant
                n == ps.len(),
                ps@ == profiles(ctx.facts(ContextKey::Signals)),
                i <= n,
                spec.len() == n,
                fact_views(facts@) == spec.take(i as int),
            decreases n - i,
        {
            let supplier = strip_prefix_or_str(ps[i].id.as_str(), "supplier:", "unknown");
            let intl = str_contains(ps[i].content.as_str(), "International");
            let score: u64 = if intl {
                40
            } else {
                20
            };
            let mut id = String::from_str("risk:");
            id.append(supplier.as_str());
            let mut c = String::from_str("Risk ");
            c.append(supplier.as_str());
            c.append(": Score ");
            push_dec(&mut c, score as u128);
            c.append("/100 | Level: ");
            c.append(
                if score > 30 {
                    "MEDIUM"
                } else {
                    "LOW"
                },
            );
            c.append(" | Factors: ");
            c.append(
                if intl {
                    "Currency, logistics, geopolitical"
                } else {
                    "Minimal"
                },
            );
            c.append(" | Mitigation: Required");
            let f = Fact::from_strings(ContextKey::Signals, id, c);
            proof {
                assert(f@ == spec[i as int]);
                lemma_take_push(spec, i as int);
            }
            push_fact(&mut facts, f);
            i = i + 1;
        }
        assert(spec.take(n as int) =~= spec);
        AgentEffect::with_facts(facts)
    }
}

// ---------------------------------------------------------------------------
// Sourcing strategy
// ---------------------------------------------------------------------------

/// Shortlists the best suppliers that meet the minimum criteria.
pub struct SourcingStrategyAgent;

/// A compliance report that clears its supplier: it reads `COMPLIANT`, and
/// neither `NON-COMPLIANT` nor `FAIL`.
pub open spec fn clears(content: Seq<char>) -> bool {
    contains(content, "COMPLIANT"@) && !contains(content, "NON-COMPLIANT"@) && !contains(
        content,
        "FAIL"@,
    )
}

/// Whether the supplier's compliance report clears it.
pub open spec fn is_compliant(signals: Seq<Fact>, supplier: Seq<char>) -> bool {
    match find(signals, id_is("compliance:"@ + supplier)) {
        Some(c) => clears(c.content@),
        None => false,
    }
}

/// Whether a compliance report clears its supplier.
fn report_clears(content: &str) -> (r: bool)
    ensures
        r == clears(content@),
{
    str_contains(content, "COMPLIANT") && !str_contains(content, "NON-COMPLIANT")
        && !str_contains(content, "FAIL")
}

/// The ESG score the supplier's assessment states after `Score `, or 0.
pub open spec fn esg_of(signals: Seq<Fact>, supplier: Seq<char>) -> nat {
    match find(signals, id_is("esg:"@ + supplier)) {
        Some(e) => u32_or(and_before(after(e.content@, "Score "@), "/"@), 0),
        None => 0,
    }
}

/// The unit price the supplier's benchmark states after `$`, or 1000.
pub open spec fn price_of(signals: Seq<Fact>, supplier: Seq<char>) -> nat {
    match find(signals, id_is("price:"@ + supplier)) {
        Some(p) => u32_or(and_before(after(p.content@, "$"@), "/"@), 1000),
        None => 1000,
    }
}

/// Suppliers that are compliant, score above 60 on ESG and cost under 120.
pub open spec fn qualifies(signals: Seq<Fact>) -> spec_fn(Fact) -> bool {
    |s: Fact|
        is_compliant(signals, supplier_of(s)) && esg_of(signals, supplier_of(s)) > 60 && price_of(
            signals,
            supplier_of(s),
        ) < 120
}

/// A shortlisting candidate: supplier, composite score, ESG score and price.
/// The composite score is twice the ESG score, plus what the price stays
/// under 120, plus 50.
pub open spec fn candidate_of(signals: Seq<Fact>, s: Fact) -> (Seq<char>, nat, nat, nat) {
    let supplier = supplier_of(s);
    let esg = esg_of(signals, supplier);
    let price = price_of(signals, supplier);
    (supplier, (esg * 2 + (120 - price) + 50) as nat, esg, price)
}

/// The qualifying suppliers, in profile order.
pub open spec fn candidates(signals: Seq<Fact>) -> Seq<(Seq<char>, nat, nat, nat)> {
    profiles(signals).filter(qualifies(signals)).map_values(|s: Fact| candidate_of(signals, s))
}

/// The composite scores of the candidates.
pub open spec fn candidate_scores(cs: Seq<(Seq<char>, nat, nat, nat)>) -> Seq<nat> {
    cs.map_values(|c: (Seq<char>, nat, nat, nat)| c.1)
}

/// The candidates shortlisted: the three best by composite score, highest
/// first and equal scores in profile order.
pub open spec fn shortlist_order(signals: Seq<Fact>) -> Seq<nat> {
    let order = ranking(candidate_scores(candidates(signals)), true);
    if order.len() > 3 {
        order.take(3)
    } else {
        order
    }
}

/// The shortlist entry ranked `i`-th.
pub open spec fn shortlist_fact(i: int, c: (Seq<char>, nat, nat, nat)) -> FactView {
    fv(
        ContextKey::Strategies,
        "shortlist:"@ + dec((i + 1) as nat),
        "Shortlist "@ + dec((i + 1) as nat) + ": "@ + c.0 + " | Composite score: "@ + dec(c.1)
            + " | ESG: "@ + dec(c.2) + " | Price: $"@ + dec(c.3),
    )
}

/// The shortlist, or a single entry saying no supplier qualifies.
pub open spec fn shortlist_facts(signals: Seq<Fact>) -> Seq<FactView> {
    let top = shortlist_order(signals);
    let cs = candidates(signals);
    if top.len() == 0 {
        seq![
            fv(
                ContextKey::Strategies,
                "shortlist:none"@,
                "No suppliers meet minimum criteria"@,
            ),
        ]
    } else {
        top.map(|i: int, j: nat| shortlist_fact(i, cs[j as int]))
    }
}

/// The candidates read from the signals, field by field.
struct Candidates {
    names: Vec<String>,
    scores: Vec<u64>,
    esgs: Vec<u64>,
    prices: Vec<u64>,
}

impl Candidates {
    spec fn matches(&self, cs: Seq<(Seq<char>, nat, nat, nat)>) -> bool {
        &&& self.names@.len() == cs.len()
        &&& self.scores@.len() == cs.len()
        &&& self.esgs@.len() == cs.len()
        &&& self.prices@.len() == cs.len()
        &&& forall|j: int|
            #![trigger cs[j]]
            0 <= j < cs.len() ==> self.names@[j]@ == cs[j].0 && self.scores@[j] as nat == cs[j].1
                && self.esgs@[j] as nat == cs[j].2 && self.prices@[j] as nat == cs[j].3
    }
}

/// The number the assessment with id `prefix + supplier` states between
/// `marker` and `/`, or `default`.
fn read_assessment_number(
    signals: &Vec<Fact>,
    id: &str,
    marker: &str,
    default: u32,
) -> (r: u32)
    requires
        marker@.len() > 0,
    ensures
        r as nat == match find(signals@, id_is(id@)) {
            Some(e) => u32_or(and_before(after(e.content@, marker@), "/"@), default as nat),
            None => default as nat,
        },
{
    proof {
        reveal_strlit("/");
    }
    match position(signals, FactTest::IdIs, id) {
        Some(k) => u32_or_str(
            and_before_str(after_str(signals[k].content.as_str(), marker), "/"),
            default,
        ),
        None => default,
    }
}

/// Whether `s` qualifies, and its candidate entry.
fn read_candidate(signals: &Vec<Fact>, s: &Fact) -> (r: (bool, String, u64, u64, u64))
    ensures
        r.0 == qualifies(signals@)(*s),
        r.0 ==> r.1@ == candidate_of(signals@, *s).0 && r.2 as nat == candidate_of(signals@, *s).1
            && r.3 as nat == candidate_of(signals@, *s).2 && r.4 as nat == candidate_of(
            signals@,
            *s,
        ).3,
{
    proof {
        reveal_strlit("Score ");
        reveal_strlit("$");
    }
    let supplier = strip_prefix_or_str(s.id.as_str(), "supplier:", "unknown");
    let mut cid = String::from_str("compliance:");
    cid.append(supplier.as_str());
    let compliant = match position(signals, FactTest::IdIs, cid.as_str()) {
        Some(k) => report_clears(signals[k].content.as_str()),
        None => false,
    };
    let mut eid = String::from_str("esg:");
    eid.append(supplier.as_str());
    let esg = read_assessment_number(signals, eid.as_str(), "Score ", 0) as u64;
    let mut pid = String::from_str("price:");
    pid.append(supplier.as_str());
    let price = read_assessment_number(signals, pid.as_str(), "$", 1000) as u64;
    if compliant && esg > 60 && price < 120 {
        (true, supplier, esg * 2 + (120 - price) + 50, esg, price)
    } else {
        (false, supplier, 0, esg, price)
    }
}

/// The qualifying candidates.
#[verifier::loop_isolation(false)]
fn read_candidates(signals: &Vec<Fact>) -> (r: Candidates)
    ensures
        r.matches(candidates(signals@)),
{
    let ps = filter_facts(signals, FactTest::IdPrefix, "supplier:");
    let ghost pred = qualifies(signals@);
    let ghost f = |s: Fact| candidate_of(signals@, s);
    let n = ps.len();
    let mut cs = Candidates {
        names: Vec::new(),
        scores: Vec::new(),
        esgs: Vec::new(),
        prices: Vec::new(),
    };
    let mut i: usize = 0;
    while i < n
        invariant
            n == ps.len(),
            ps@ == profiles(signals@),
            i <= n,
            pred == qualifies(signals@),
            cs.matches(ps@.take(i as int).filter(pred).map_values(f)),
        decreases n - i,
    {
        proof {
            assert(ps@.take(i + 1) =~= ps@.take(i as int).push(ps@[i as int]));
            ps@.take(i as int).lemma_filter_push(ps@[i as int], pred);
        }
        let (ok, name, score, esg, price) = read_candidate(signals, &ps[i]);
        if ok {
            let ghost before = cs;
            let ghost nv = name@;
            cs.names.push(name);
            cs.scores.push(score);
            cs.esgs.push(esg);
            cs.prices.push(price);
            proof {
                let prev = ps@.take(i as int).filter(pred);
                let t = ps@.take(i + 1).filter(pred).map_values(f);
                assert(ps@.take(i + 1).filter(pred) == prev.push(ps@[i as int]));
                assert forall|j: int| 0 <= j < t.len() implies cs.names@[j]@ == #[trigger] t[j].0
                    && cs.scores@[j] as nat == t[j].1 && cs.esgs@[j] as nat == t[j].2
                    && cs.prices@[j] as nat == t[j].3 by {
                    if j < prev.len() {
                        assert(cs.names@[j] == before.names@[j]);
                        assert(cs.scores@[j] == before.scores@[j]);
                        assert(cs.esgs@[j] == before.esgs@[j]);
                        assert(cs.prices@[j] == before.prices@[j]);
                        assert(t[j] == prev.map_values(f)[j]);
                    } else {
                        assert(t[j] == f(ps@[i as int]));
                        assert(cs.names@[j]@ == nv);
                    }
                }
            }
        } else {
            proof {
                assert(ps@.take(i + 1).filter(pred).map_values(f) =~= ps@.take(i as int).filter(
                    pred,
                ).map_values(f));
            }
        }
        i = i + 1;
    }
    assert(ps@.take(n as int) =~= ps@);
    cs
}

impl Agent for SourcingStrategyAgent {
    fn name(&self) -> (r: &'static str)
        ensures
            r@ == "SourcingStrategyAgent"@,
    {
        "SourcingStrategyAgent"
    }

    fn dependencies(&self) -> (r: Vec<ContextKey>)
        ensures
            r@ == seq![ContextKey::Signals],
    {
        vec![ContextKey::Signals]
    }

    /// Runs once: when compliance, ESG, price and risk assessments exist and
    /// no strategy does.
    open spec fn runs_on(&self, ctx: Context) -> bool {
        (any(ctx.facts(ContextKey::Signals), id_prefix("compliance:"@)) && any(
            ctx.facts(ContextKey::Signals),
            id_prefix("esg:"@),
        ) && any(ctx.facts(ContextKey::Signals), id_prefix("price:"@)) && any(
            ctx.facts(ContextKey::Signals),
            id_prefix("risk:"@),
        ) && ctx.facts(ContextKey::Strategies).len() == 0)
    }

    fn accepts(&self, ctx: &Context) -> (r: bool) {
        let signals = ctx.get(ContextKey::Signals);
        exists_fact(signals, FactTest::IdPrefix, "compliance:") && exists_fact(
            signals,
            FactTest::IdPrefix,
            "esg:",
        ) && exists_fact(signals, FactTest::IdPrefix, "price:") && exists_fact(
            signals,
            FactTest::IdPrefix,
            "risk:",
        ) && !ctx.has(ContextKey::Strategies)
    }

    open spec fn proposes(&self, ctx: Context) -> Seq<FactView> {
        shortlist_facts(ctx.facts(ContextKey::Signals))
    }

    #[verifier::loop_isolation(false)]
    fn execute(&self, ctx: &Context) -> (r: AgentEffect) {
        let signals = ctx.get(ContextKey::Signals);
        let cs = read_candidates(signals);
        let ghost cands = candidates(signals@);
        let order = rank_indices(&cs.scores, true);
        proof {
            assert forall|j: int| 0 <= j < cands.len() implies nats(cs.scores@)[j]
                == candidate_scores(cands)[j] by {
                assert(cands[j] == cands[j]);
            }
            assert(nats(cs.scores@) =~= candidate_scores(cands));
            lemma_rank_order_permutation(candidate_scores(cands), cands.len(), true);
        }
        let ghost full = ranking(candidate_scores(cands), true);
        let ghost top = shortlist_order(signals@);
        let m: usize = if order.len() > 3 {
            3
        } else {
            order.len()
        };
        let ghost spec = top.map(|i: int, j: nat| shortlist_fact(i, cands[j as int]));
        let mut facts: Vec<Fact> = Vec::new();
        let mut p: usize = 0;
        while p < m
            invariant
                idx(order@) == full,
                m == top.len(),
                m <= order.len(),
                forall|q: int| 0 <= q < m ==> #[trigger] top[q] == full[q],
                cs.matches(cands),
                full.len() == cands.len(),
                p <= m,
                fact_views(facts@) == spec.take(p as int),
            decreases m - p,
        {
            let j = order[p];
            proof {
                assert(idx(order@)[p as int] == j as nat);
                assert(top[p as int] == j as nat);
                assert(j < cands.len());
            }
            let mut id = String::from_str("shortlist:");
            push_dec(&mut id, p as u128 + 1);
            let mut c = String::from_str("Shortlist ");
            push_dec(&mut c, p as u128 + 1);
            c.append(": ");
            c.append(cs.names[j].as_str());
            c.append(" | Composite score: ");
            push_dec(&mut c, cs.scores[j] as u128);
            c.append(" | ESG: ");
            push_dec(&mut c, cs.esgs[j] as u128);
            c.append(" | Price: $");
            push_dec(&mut c, cs.prices[j] as u128);
            let f = Fact::from_strings(ContextKey::Strategies, id, c);
            proof {
                assert(cs.names@[j as int]@ == cands[j as int].0);
                assert(f@ == spec[p as int]);
                lemma_take_push(spec, p as int);
            }
            push_fact(&mut facts, f);
            p = p + 1;
        }
        assert(spec.take(m as int) =~= spec);
        if facts.len() == 0 {
            push_fact(
                &mut facts,
                Fact::new(
                    ContextKey::Strategies,
                    "shortlist:none",
                    "No suppliers meet minimum criteria",
                ),
            );
        }
        let r = AgentEffect::with_facts(facts);
        assert(r@ =~= shortlist_facts(signals@));
        r
    }
}

/// The shortlisted candidate ranked `i`-th.
pub open spec fn shortlisted(signals: Seq<Fact>, i: int) -> (Seq<char>, nat, nat, nat) {
    candidates(signals)[shortlist_order(signals)[i] as int]
}

/// Law: the shortlist holds at most three qualifying suppliers, each once,
/// by descending composite score (equal scores in profile order), and no
/// qualifying supplier left out scores higher than one kept.
pub proof fn lemma_shortlist_ranking(signals: Seq<Fact>)
    ensures
        shortlist_order(signals).len() <= 3,
        shortlist_order(signals).len() == if candidates(signals).len() > 3 {
            3
        } else {
            candidates(signals).len()
        },
        shortlist_order(signals).no_duplicates(),
        forall|a: int|
            0 <= a < shortlist_order(signals).len() ==> #[trigger] shortlist_order(signals)[a]
                < candidates(signals).len(),
        forall|a: int, b: int|
            0 <= a < b < shortlist_order(signals).len() ==> (#[trigger] shortlisted(
                signals,
                a,
            )).1 >= (#[trigger] shortlisted(signals, b)).1,
        forall|a: int, j: nat|
            0 <= a < shortlist_order(signals).len() && j < candidates(signals).len()
                && !shortlist_order(signals).contains(j) ==> (#[trigger] candidates(
                signals,
            )[j as int]).1 <= (#[trigger] shortlisted(signals, a)).1,
{
    let cs = candidates(signals);
    let keys = candidate_scores(cs);
    lemma_rank_order_permutation(keys, cs.len(), true);
    lemma_rank_order_ranked(keys, cs.len(), true);
    let order = ranking(keys, true);
    let top = shortlist_order(signals);
    assert forall|a: int| 0 <= a < top.len() implies #[trigger] top[a] < cs.len() by {
        assert(top[a] == order[a]);
    }
    assert forall|x: int, y: int| 0 <= x < top.len() && 0 <= y < top.len() && x != y implies top[x]
        != top[y] by {
        assert(top[x] == order[x] && top[y] == order[y]);
    }
    assert forall|a: int, b: int| 0 <= a < b < top.len() implies (#[trigger] shortlisted(
        signals,
        a,
    )).1 >= (#[trigger] shortlisted(signals, b)).1 by {
        assert(top[a] == order[a] && top[b] == order[b]);
        assert(in_rank_order(order[a], order[b], keys, true));
    }
    assert forall|a: int, j: nat|
        0 <= a < top.len() && j < cs.len() && !top.contains(j) implies (#[trigger] cs[j as int]).1
        <= (#[trigger] shortlisted(signals, a)).1 by {
        assert(top[a] == order[a]);
        lemma_rank_order_covers(keys, cs.len(), true, j);
        let k = choose|k: int| 0 <= k < order.len() && order[k] == j;
        if k < top.len() {
            assert(top[k] == order[k]);
            assert(top.contains(j));
        } else {
            assert(a < k);
            assert(in_rank_order(order[a], order[k], keys, true));
        }
    }
}

/// Law: the shortlist size follows the minimum criteria. Counting the
/// supplier profiles whose compliance report clears them, whose ESG score
/// exceeds 60 and whose price is under 120: with none, the shortlist is the
/// single entry saying no supplier meets the criteria; else it has one entry
/// per such supplier, up to three.
pub proof fn lemma_shortlist_size(ctx: Context)
    ensures
        ({
            let signals = ctx.facts(ContextKey::Signals);
            let n = profiles(signals).filter(
                |s: Fact|
                    is_compliant(signals, supplier_of(s)) && esg_of(signals, supplier_of(s)) > 60
                        && price_of(signals, supplier_of(s)) < 120,
            ).len();
            let p = SourcingStrategyAgent.proposes(ctx);
            &&& n == 0 ==> p == seq![
                fv(
                    ContextKey::Strategies,
                    "shortlist:none"@,
                    "No suppliers meet minimum criteria"@,
                ),
            ]
            &&& n > 0 ==> p.len() == if n > 3 {
                3
            } else {
                n
            }
        }),
{
    let signals = ctx.facts(ContextKey::Signals);
    let meets = |s: Fact|
        is_compliant(signals, supplier_of(s)) && esg_of(signals, supplier_of(s)) > 60 && price_of(
            signals,
            supplier_of(s),
        ) < 120;
    assert(meets =~= qualifies(signals));
    lemma_shortlist_ranking(signals);
}

/// Law: every supplier that meets the minimum criteria is shortlisted when
/// at most three do. A supplier profile whose compliance report clears it,
/// whose ESG score exceeds 60 and whose price is under 120 then has a
/// shortlist entry giving its composite score (twice the ESG score, plus
/// what the price stays under 120, plus 50), its ESG score and its price.
pub proof fn lemma_qualifying_supplier_shortlisted(ctx: Context, k: int)
    requires
        ({
            let signals = ctx.facts(ContextKey::Signals);
            let meets = |s: Fact|
                is_compliant(signals, supplier_of(s)) && esg_of(signals, supplier_of(s)) > 60
                    && price_of(signals, supplier_of(s)) < 120;
            &&& 0 <= k < profiles(signals).len()
            &&& meets(profiles(signals)[k])
            &&& profiles(signals).filter(meets).len() <= 3
        }),
    ensures
        ({
            let signals = ctx.facts(ContextKey::Signals);
            let supplier = supplier_of(profiles(signals)[k]);
            let esg = esg_of(signals, supplier);
            let price = price_of(signals, supplier);
            let p = SourcingStrategyAgent.proposes(ctx);
            exists|a: int|
                0 <= a < p.len() && (#[trigger] p[a]).content == "Shortlist "@ + dec((a + 1) as nat)
                    + ": "@ + supplier + " | Composite score: "@ + dec(
                    (esg * 2 + (120 - price) + 50) as nat,
                ) + " | ESG: "@ + dec(esg) + " | Price: $"@ + dec(price)
        }),
{
    let signals = ctx.facts(ContextKey::Signals);
    let meets = |s: Fact|
        is_compliant(signals, supplier_of(s)) && esg_of(signals, supplier_of(s)) > 60 && price_of(
            signals,
            supplier_of(s),
        ) < 120;
    assert(meets =~= qualifies(signals));
    let ps = profiles(signals);
    let chosen = ps.filter(qualifies(signals));
    ps.lemma_filter_contains(qualifies(signals), k);
    let j = choose|j: int| 0 <= j < chosen.len() && chosen[j] == ps[k];
    let cs = candidates(signals);
    assert(cs[j] == candidate_of(signals, ps[k]));
    let keys = candidate_scores(cs);
    lemma_rank_order_permutation(keys, cs.len(), true);
    lemma_rank_order_covers(keys, cs.len(), true, j as nat);
    let order = ranking(keys, true);
    let top = shortlist_order(signals);
    assert(top == order);
    let a = choose|a: int| 0 <= a < order.len() && order[a] == j as nat;
    let p = SourcingStrategyAgent.proposes(ctx);
    assert(p[a] == shortlist_fact(a, cs[j]));
}

// ---------------------------------------------------------------------------
// Vendor ranking
// ---------------------------------------------------------------------------

/// Ranks the shortlisted vendors and gives a rationale.
pub struct VendorRankingAgent;

/// Shortlist entries that name a vendor.
pub open spec fn real_shortlist() -> spec_fn(Fact) -> bool {
    |f: Fact|
        "shortlist:"@.is_prefix_of(f.id@) && f.id@ != "shortlist:none"@ && !contains(
            f.content@,
            "No suppliers"@,
        )
}

/// Whether `f` is a shortlist entry that names a vendor.
pub fn is_real_shortlist(f: &Fact) -> (r: bool)
    ensures
        r == real_shortlist()(*f),
{
    str_starts_with(f.id.as_str(), "shortlist:") && !str_eq(f.id.as_str(), "shortlist:none")
        && !str_contains(f.content.as_str(), "No suppliers")
}

/// The vendor a shortlist entry names: the text after the first `: ` up to
/// the next space, or `unknown`.
pub open spec fn vendor_name(content: Seq<char>) -> Seq<char> {
    match after(content, ": "@) {
        Some(t) => before(t, " "@),
        None => "unknown"@,
    }
}

/// The vendor a shortlist entry names.
pub fn read_vendor_name(content: &str) -> (r: String)
    ensures
        r@ == vendor_name(content@),
{
    proof {
        reveal_strlit(": ");
        reveal_strlit(" ");
    }
    match after_str(content, ": ") {
        Some(t) => before_str(t.as_str(), " "),
        None => String::from_str("unknown"),
    }
}

/// The evaluation of the `i`-th shortlist entry.
pub open spec fn vendor_evaluation(i: int, s: Fact) -> FactView {
    fv(
        ContextKey::Evaluations,
        "eval:"@ + dec((i + 1) as nat),
        "Rank "@ + dec((i + 1) as nat) + ": "@ + vendor_name(s.content@) + " | "@ + s.content@
            + " | Rationale: "@ + (if i == 0 {
            "Best overall balance of ESG, price, and compliance"@
        } else {
            "Strong alternative option"@
        }) + " | "@ + rank_label(i),
    )
}

/// One evaluation per shortlisted vendor, in order, or a single evaluation
/// saying no vendor was found.
pub open spec fn vendor_evaluations(strategies: Seq<Fact>) -> Seq<FactView> {
    let sl = strategies.filter(real_shortlist());
    if sl.len() == 0 {
        seq![
            fv(
                ContextKey::Evaluations,
                "eval:no-vendors"@,
                "Status: NO VENDORS FOUND | No suppliers meet all criteria | Recommendation: Relax constraints or expand search"@,
            ),
        ]
    } else {
        sl.map(|i: int, s: Fact| vendor_evaluation(i, s))
    }
}

impl Agent for VendorRankingAgent {
    fn name(&self) -> (r: &'static str)
        ensures
            r@ == "VendorRankingAgent"@,
    {
        "VendorRankingAgent"
    }

    fn dependencies(&self) -> (r: Vec<ContextKey>)
        ensures
            r@ == seq![ContextKey::Strategies],
    {
        vec![ContextKey::Strategies]
    }

    /// Runs once: when strategies exist and no evaluation does.
    open spec fn runs_on(&self, ctx: Context) -> bool {
        (ctx.facts(ContextKey::Strategies).len() > 0 && ctx.facts(
            ContextKey::Evaluations,
        ).len() == 0)
    }

    fn accepts(&self, ctx: &Context) -> (r: bool) {
        ctx.has(ContextKey::Strategies) && !ctx.has(ContextKey::Evaluations)
    }

    open spec fn proposes(&self, ctx: Context) -> Seq<FactView> {
        vendor_evaluations(ctx.facts(ContextKey::Strategies))
    }

    #[verifier::loop_isolation(false)]
    fn execute(&self, ctx: &Context) -> (r: AgentEffect) {
        let strategies = ctx.get(ContextKey::Strategies);
        let ghost pred = real_shortlist();
        let mut sl: Vec<Fact> = Vec::new();
        let n = strategies.len();
        let mut k: usize = 0;
        while k < n
            invariant
                n == strategies.len(),
                k <= n,
                pred == real_shortlist(),
                sl@ == strategies@.take(k as int).filter(pred),
            decreases n - k,
        {
            proof {
                assert(strategies@.take(k + 1) =~= strategies@.take(k as int).push(
                    strategies@[k as int],
                ));
                strategies@.take(k as int).lemma_filter_push(strategies@[k as int], pred);
            }
            if is_real_shortlist(&strategies[k]) {
                sl.push(strategies[k].duplicate());
            }
            k = k + 1;
        }
        assert(strategies@.take(n as int) =~= strategies@);
        let mut facts: Vec<Fact> = Vec::new();
        if sl.len() == 0 {
            push_fact(
                &mut facts,
                Fact::new(
                    ContextKey::Evaluations,
                    "eval:no-vendors",
                    "Status: NO VENDORS FOUND | No suppliers meet all criteria | Recommendation: Relax constraints or expand search",
                ),
            );
            let r = AgentEffect::with_facts(facts);
            assert(r@ =~= vendor_evaluations(strategies@));
            return r;
        }
        let ghost spec = vendor_evaluations(strategies@);
        let m = sl.len();
        let mut i: usize = 0;
        while i < m
            invariant
                m == sl.len(),
                sl@ == strategies@.filter(real_shortlist()),
                m > 0,
                spec == sl@.map(|i: int, s: Fact| vendor_evaluation(i, s)),
                i <= m,
                fact_views(facts@) == spec.take(i as int),
            decreases m - i,
        {
            let s = &sl[i];
            let vendor = read_vendor_name(s.content.as_str());
            let mut id = String::from_str("eval:");
            push_dec(&mut id, i as u128 + 1);
            let mut c = String::from_str("Rank ");
            push_dec(&mut c, i as u128 + 1);
            c.append(": ");
            c.append(vendor.as_str());
            c.append(" | ");
            c.append(s.content.as_str());
            c.append(" | Rationale: ");
            c.append(
                if i == 0 {
                    "Best overall balance of ESG, price, and compliance"
                } else {
                    "Strong alternative option"
                },
            );
            c.append(" | ");
            c.append(rank_label_str(i));
            let f = Fact::from_strings(ContextKey::Evaluations, id, c);
            proof {
                assert(f@ == spec[i as int]);
                lemma_take_push(spec, i as int);
            }
            push_fact(&mut facts, f);
            i = i + 1;
        }
        assert(spec.take(m as int) =~= spec);
        AgentEffect::with_facts(facts)
    }
}

// ---------------------------------------------------------------------------
// Invariants
// ---------------------------------------------------------------------------

/// Acceptance: a vendor is recommended.
pub struct RequireCompliantVendor;

/// Recommendations of an actual vendor.
pub open spec fn vendor_recommended() -> spec_fn(Fact) -> bool {
    |f: Fact| contains(f.content@, "RECOMMENDED"@) && !contains(f.content@, "NO VENDORS"@)
}

fn is_vendor_recommended(f: &Fact) -> (r: bool)
    ensures
        r == vendor_recommended()(*f),
{
    str_contains(f.content.as_str(), "RECOMMENDED") && !str_contains(
        f.content.as_str(),
        "NO VENDORS",
    )
}

pub open spec fn compliant_vendor_verdict(evaluations: Seq<Fact>) -> Verdict {
    if !any(evaluations, vendor_recommended()) {
        broken("no compliant vendors found in shortlist"@)
    } else {
        Verdict::Pass
    }
}

impl Invariant for RequireCompliantVendor {
    fn name(&self) -> (r: &'static str)
        ensures
            r@ == "require_compliant_vendor"@,
    {
        "require_compliant_vendor"
    }

    fn class(&self) -> (r: InvariantClass)
        ensures
            r == InvariantClass::Acceptance,
    {
        InvariantClass::Acceptance
    }

    open spec fn verdict(&self, ctx: Context) -> Verdict {
        compliant_vendor_verdict(ctx.facts(ContextKey::Evaluations))
    }

    fn check(&self, ctx: &Context) -> (r: InvariantResult) {
        let evaluations = ctx.get(ContextKey::Evaluations);
        if position_by(evaluations, is_vendor_recommended, Ghost(vendor_recommended())).is_none() {
            return InvariantResult::violated(
                String::from_str("no compliant vendors found in shortlist"),
            );
        }
        InvariantResult::Holds
    }
}

/// Semantic: no shortlisted vendor is non-compliant.
pub struct RequireShortlistCompliance;

/// Shortlist entries whose vendor has a failing compliance status.
pub open spec fn noncompliant_entry(signals: Seq<Fact>) -> spec_fn(Fact) -> bool {
    |s: Fact|
        "shortlist:"@.is_prefix_of(s.id@) && match find(
            signals,
            id_is("compliance:"@ + lowercase(vendor_name(s.content@))),
        ) {
            Some(c) => contains(c.content@, "NON-COMPLIANT"@) || contains(c.content@, "FAIL"@),
            None => false,
        }
}

pub open spec fn shortlist_compliance_verdict(strategies: Seq<Fact>, signals: Seq<Fact>) -> Verdict {
    match find(strategies, noncompliant_entry(signals)) {
        Some(s) => broken_at(
            "shortlisted vendor "@ + vendor_name(s.content@) + " is non-compliant"@,
            s.id@,
        ),
        None => Verdict::Pass,
    }
}

impl Invariant for RequireShortlistCompliance {
    fn name(&self) -> (r: &'static str)
        ensures
            r@ == "require_shortlist_compliance"@,
    {
        "require_shortlist_compliance"
    }

    fn class(&self) -> (r: InvariantClass)
        ensures
            r == InvariantClass::Semantic,
    {
        InvariantClass::Semantic
    }

    open spec fn verdict(&self, ctx: Context) -> Verdict {
        shortlist_compliance_verdict(
            ctx.facts(ContextKey::Strategies),
            ctx.facts(ContextKey::Signals),
        )
    }

    #[verifier::loop_isolation(false)]
    fn check(&self, ctx: &Context) -> (r: InvariantResult) {
        let strategies = ctx.get(ContextKey::Strategies);
        let signals = ctx.get(ContextKey::Signals);
        let ghost pred = noncompliant_entry(signals@);
        let n = strategies.len();
        let mut i: usize = 0;
        while i < n
            invariant
                n == strategies.len(),
                i <= n,
                pred == noncompliant_entry(signals@),
                forall|j: int| 0 <= j < i ==> !pred(#[trigger] strategies@[j]),
            decreases n - i,
        {
            let s = &strategies[i];
            if str_starts_with(s.id.as_str(), "shortlist:") {
                let vendor = read_vendor_name(s.content.as_str());
                let mut cid = String::from_str("compliance:");
                let lower = to_lowercase(vendor.as_str());
                cid.append(lower.as_str());
                let bad = match position(signals, FactTest::IdIs, cid.as_str()) {
                    Some(k) => str_contains(signals[k].content.as_str(), "NON-COMPLIANT")
                        || str_contains(signals[k].content.as_str(), "FAIL"),
                    None => false,
                };
                if bad {
                    proof {
                        assert(pred(strategies@[i as int]));
                        assert(is_first(strategies@, pred, i as int));
                        let k = choose|k: int| is_first(strategies@, pred, k);
                        lemma_first_unique(strategies@, pred, i as int, k);
                    }
                    let mut reason = String::from_str("shortlisted vendor ");
                    reason.append(vendor.as_str());
                    reason.append(" is non-compliant");
                    return InvariantResult::violated_at(reason, s.id.clone());
                }
            }
            i = i + 1;
        }
        proof {
            lemma_find_none(strategies@, pred);
        }
        InvariantResult::Holds
    }
}

/// Semantic: once assessment has started, every supplier has a compliance,
/// ESG, price and risk assessment.
pub struct RequireCompleteAssessments;

/// Signals that are assessments of some supplier.
pub open spec fn is_assessment() -> spec_fn(Fact) -> bool {
    |f: Fact|
        "compliance:"@.is_prefix_of(f.id@) || "esg:"@.is_prefix_of(f.id@) || "price:"@.is_prefix_of(
            f.id@,
        ) || "risk:"@.is_prefix_of(f.id@)
}

fn is_assessment_fact(f: &Fact) -> (r: bool)
    ensures
        r == is_assessment()(*f),
{
    let id = f.id.as_str();
    str_starts_with(id, "compliance:") || str_starts_with(id, "esg:") || str_starts_with(
        id,
        "price:",
    ) || str_starts_with(id, "risk:")
}

/// The first kind of assessment the supplier lacks, in the order compliance,
/// ESG, price, risk.
pub open spec fn first_missing(signals: Seq<Fact>, supplier: Seq<char>) -> Option<Seq<char>> {
    if !any(signals, id_is("compliance:"@ + supplier)) {
        Some("compliance"@)
    } else if !any(signals, id_is("esg:"@ + supplier)) {
        Some("esg"@)
    } else if !any(signals, id_is("price:"@ + supplier)) {
        Some("price"@)
    } else if !any(signals, id_is("risk:"@ + supplier)) {
        Some("risk"@)
    } else {
        None
    }
}

/// Supplier profiles that lack an assessment.
pub open spec fn incompletely_assessed(signals: Seq<Fact>) -> spec_fn(Fact) -> bool {
    |s: Fact| "supplier:"@.is_prefix_of(s.id@) && first_missing(signals, supplier_of(s)) is Some
}

pub open spec fn assessments_verdict(signals: Seq<Fact>) -> Verdict {
    if !any(signals, is_assessment()) {
        Verdict::Pass
    } else {
        match find(signals, incompletely_assessed(signals)) {
            Some(s) => broken_at(
                "supplier "@ + supplier_of(s) + " missing "@ + first_missing(
                    signals,
                    supplier_of(s),
                )->0 + " assessment"@,
                "supplier:"@ + supplier_of(s),
            ),
            None => Verdict::Pass,
        }
    }
}

/// The first kind of assessment the supplier lacks.
fn read_first_missing(signals: &Vec<Fact>, supplier: &str) -> (r: Option<&'static str>)
    ensures
        match r {
            Some(t) => first_missing(signals@, supplier@) == Some(t@),
            None => first_missing(signals@, supplier@) is None,
        },
{
    let mut id = String::from_str("compliance:");
    id.append(supplier);
    if !exists_fact(signals, FactTest::IdIs, id.as_str()) {
        return Some("compliance");
    }
    let mut id = String::from_str("esg:");
    id.append(supplier);
    if !exists_fact(signals, FactTest::IdIs, id.as_str()) {
        return Some("esg");
    }
    let mut id = String::from_str("price:");
    id.append(supplier);
    if !exists_fact(signals, FactTest::IdIs, id.as_str()) {
        return Some("price");
    }
    let mut id = String::from_str("risk:");
    id.append(supplier);
    if !exists_fact(signals, FactTest::IdIs, id.as_str()) {
        return Some("risk");
    }
    None
}

impl Invariant for RequireCompleteAssessments {
    fn name(&self) -> (r: &'static str)
        ensures
            r@ == "require_complete_assessments"@,
    {
        "require_complete_assessments"
    }

    fn class(&self) -> (r: InvariantClass)
        ensures
            r == InvariantClass::Semantic,
    {
        InvariantClass::Semantic
    }

    open spec fn verdict(&self, ctx: Context) -> Verdict {
        assessments_verdict(ctx.facts(ContextKey::Signals))
    }

    #[verifier::loop_isolation(false)]
    fn check(&self, ctx: &Context) -> (r: InvariantResult) {
        let signals = ctx.get(ContextKey::Signals);
        if position_by(signals, is_assessment_fact, Ghost(is_assessment())).is_none() {
            return InvariantResult::Holds;
        }
        let ghost pred = incompletely_assessed(signals@);
        let n = signals.len();
        let mut i: usize = 0;
        while i < n
            invariant
                n == signals.len(),
                i <= n,
                pred == incompletely_assessed(signals@),
                forall|j: int| 0 <= j < i ==> !pred(#[trigger] signals@[j]),
            decreases n - i,
        {
            let s = &signals[i];
            if str_starts_with(s.id.as_str(), "supplier:") {
                let supplier = strip_prefix_or_str(s.id.as_str(), "supplier:", "unknown");
                match read_first_missing(signals, supplier.as_str()) {
                    Some(kind) => {
                        proof {
                            assert(pred(signals@[i as int]));
                            assert(is_first(signals@, pred, i as int));
                            let k = choose|k: int| is_first(signals@, pred, k);
                            lemma_first_unique(signals@, pred, i as int, k);
                        }
                        let mut reason = String::from_str("supplier ");
                        reason.append(supplier.as_str());
                        reason.append(" missing ");
                        reason.append(kind);
                        reason.append(" assessment");
                        let mut id = String::from_str("supplier:");
                        id.append(supplier.as_str());
                        return InvariantResult::violated_at(reason, id);
                    },
                    None => {},
                }
            }
            i = i + 1;
        }
        proof {
            lemma_find_none(signals@, pred);
        }
        InvariantResult::Holds
    }
}

// ---------------------------------------------------------------------------
// Laws: each agent runs once
// ---------------------------------------------------------------------------

/// The seeds always name at least one supplier.
pub proof fn lemma_suppliers_nonempty(seeds: Seq<Fact>)
    ensures
        suppliers(seeds).len() > 0,
{
    match find(seeds, id_is("suppliers"@)) {
        Some(seed) => {
            reveal_strlit(",");
            lemma_trimmed_pieces_nonempty(seed.content@, ","@);
        },
        None => {},
    }
}

/// Law: the supplier-discovery agent runs once: once the profiles it
/// proposes on a context it runs on are added, it does not run again.
pub proof fn lemma_supplier_discovery_runs_once(ctx: Context, next: Context)
    requires
        SupplierDiscoveryAgent.runs_on(ctx),
        next.extends(ctx, SupplierDiscoveryAgent.proposes(ctx)),
    ensures
        !SupplierDiscoveryAgent.runs_on(next),
{
    let seeds = ctx.facts(ContextKey::Seeds);
    lemma_suppliers_nonempty(seeds);
    lemma_prefix_of_concat("supplier:"@, lowercase(suppliers(seeds)[0]));
    lemma_added_prefixed(ctx, next, SupplierDiscoveryAgent.proposes(ctx), 0, "supplier:"@);
}

/// Law: the compliance agent runs once.
pub proof fn lemma_compliance_runs_once(ctx: Context, next: Context)
    requires
        ComplianceAgent.runs_on(ctx),
        next.extends(ctx, ComplianceAgent.proposes(ctx)),
    ensures
        !ComplianceAgent.runs_on(next),
{
    let signals = ctx.facts(ContextKey::Signals);
    lemma_any_filter(signals, id_prefix("supplier:"@));
    lemma_prefix_of_concat("compliance:"@, supplier_of(profiles(signals)[0]));
    lemma_added_prefixed(ctx, next, ComplianceAgent.proposes(ctx), 0, "compliance:"@);
}

/// Law: the ESG scoring agent runs once.
pub proof fn lemma_esg_scoring_runs_once(ctx: Context, next: Context)
    requires
        ESGScoringAgent.runs_on(ctx),
        next.extends(ctx, ESGScoringAgent.proposes(ctx)),
    ensures
        !ESGScoringAgent.runs_on(next),
{
    let signals = ctx.facts(ContextKey::Signals);
    lemma_any_filter(signals, id_prefix("supplier:"@));
    lemma_prefix_of_concat("esg:"@, supplier_of(profiles(signals)[0]));
    lemma_added_prefixed(ctx, next, ESGScoringAgent.proposes(ctx), 0, "esg:"@);
}

/// Law: the price benchmark agent runs once.
pub proof fn lemma_price_benchmark_runs_once(ctx: Context, next: Context)
    requires
        PriceBenchmarkAgent.runs_on(ctx),
        next.extends(ctx, PriceBenchmarkAgent.proposes(ctx)),
    ensures
        !PriceBenchmarkAgent.runs_on(next),
{
    let signals = ctx.facts(ContextKey::Signals);
    lemma_any_filter(signals, id_prefix("supplier:"@));
    lemma_prefix_of_concat("price:"@, supplier_of(profiles(signals)[0]));
    lemma_added_prefixed(ctx, next, PriceBenchmarkAgent.proposes(ctx), 0, "price:"@);
}

/// Law: the risk model agent runs once.
pub proof fn lemma_risk_model_runs_once(ctx: Context, next: Context)
    requires
        RiskModelAgent.runs_on(ctx),
        next.extends(ctx, RiskModelAgent.proposes(ctx)),
    ensures
        !RiskModelAgent.runs_on(next),
{
    let signals = ctx.facts(ContextKey::Signals);
    lemma_any_filter(signals, id_prefix("supplier:"@));
    lemma_prefix_of_concat("risk:"@, supplier_of(profiles(signals)[0]));
    lemma_added_prefixed(ctx, next, RiskModelAgent.proposes(ctx), 0, "risk:"@);
}

/// Law: the sourcing-strategy agent runs once.
pub proof fn lemma_sourcing_strategy_runs_once(ctx: Context, next: Context)
    requires
        SourcingStrategyAgent.runs_on(ctx),
        next.extends(ctx, SourcingStrategyAgent.proposes(ctx)),
    ensures
        !SourcingStrategyAgent.runs_on(next),
{
    lemma_added_fact(ctx, next, SourcingStrategyAgent.proposes(ctx), 0);
}

/// Law: the vendor-ranking agent runs once.
pub proof fn lemma_vendor_ranking_runs_once(ctx: Context, next: Context)
    requires
        VendorRankingAgent.runs_on(ctx),
        next.extends(ctx, VendorRankingAgent.proposes(ctx)),
    ensures
        !VendorRankingAgent.runs_on(next),
{
    lemma_added_fact(ctx, next, VendorRankingAgent.proposes(ctx), 0);
}

} // verus!
