//! Continuous compliance monitoring agents.
//!
//! ```text
//! Seeds (regulations, data)
//!    │
//!    ├─► RegulationParserAgent → Signals (parsed regulations)
//!    ├─► PolicyRuleAgent → Constraints (policy rules)
//!    ├─► EvidenceCollectorAgent → Signals (evidence data)
//!    ├─► ViolationDetectorAgent → Strategies (violation reports)
//!    └─► RemediationProposalAgent → Evaluations (remediation plans)
//! ```
use crate::agent::{
    any, broken, broken_at, exists_fact, filter_facts, find, id_is, id_prefix, is_first,
    lemma_find_none, lemma_first_unique, position, position_by, Agent, FactTest, Invariant,
    InvariantClass, InvariantResult, Verdict,
};
use crate::context::{
    fact_views, fv, lemma_rows_done, lemma_rows_step, lemma_take_push, push_fact, AgentEffect,
    Context, ContextKey, Fact, FactView,
};
use crate::rank::{rank_label, rank_label_str};
use crate::text::{
    contains, dec, lowercase, push_dec, split_trimmed, str_contains, str_eq, str_starts_with,
    strip_prefix_or, strip_prefix_or_str, to_lowercase, trimmed_pieces, views,
};
use crate::agent::{lemma_added_fact, lemma_added_prefixed, lemma_any_filter, lemma_find_some};
use crate::context::{keyed, lemma_flatten_all, lemma_flatten_member};
use crate::text::{
    lemma_contains_after_prefix, lemma_prefix_of_concat, lemma_trimmed_pieces_nonempty, occurs_at,
};
use vstd::prelude::*;

verus! {

// ---------------------------------------------------------------------------
// Regulation parsing
// ---------------------------------------------------------------------------

/// Lists the regulations that apply.
pub struct RegulationParserAgent;

/// The regulations named by the `regulations` seed, or GDPR, SOC2 and HIPAA.
pub open spec fn regulations(seeds: Seq<Fact>) -> Seq<Seq<char>> {
    match find(seeds, id_is("regulations"@)) {
        Some(seed) => trimmed_pieces(seed.content@, ","@),
        None => seq!["GDPR"@, "SOC2"@, "HIPAA"@],
    }
}

/// The requirements of a regulation, by its exact name.
pub open spec fn requirements(reg: Seq<char>) -> Seq<char> {
    if reg == "GDPR"@ {
        "Data privacy, consent, right to deletion"@
    } else if reg == "SOC2"@ {
        "Security controls, access management, monitoring"@
    } else if reg == "HIPAA"@ {
        "PHI protection, access controls, audit logs"@
    } else {
        "General compliance requirements"@
    }
}

/// The requirements of a regulation.
pub fn read_requirements(reg: &str) -> (r: &'static str)
    ensures
        r@ == requirements(reg@),
{
    if str_eq(reg, "GDPR") {
        "Data privacy, consent, right to deletion"
    } else if str_eq(reg, "SOC2") {
        "Security controls, access management, monitoring"
    } else if str_eq(reg, "HIPAA") {
        "PHI protection, access controls, audit logs"
    } else {
        "General compliance requirements"
    }
}

/// The parsed regulation `reg`.
pub open spec fn regulation_fact(reg: Seq<char>) -> FactView {
    fv(
        ContextKey::Signals,
        "regulation:"@ + lowercase(reg),
        "Regulation "@ + reg + ": Parsed | Requirements: "@ + requirements(reg)
            + " | Applicable: Yes"@,
    )
}

/// One parsed regulation per regulation, in order.
pub open spec fn regulation_facts(seeds: Seq<Fact>) -> Seq<FactView> {
    regulations(seeds).map_values(|r: Seq<char>| regulation_fact(r))
}

/// The regulations the seeds name.
fn read_regulations(seeds: &Vec<Fact>) -> (r: Vec<String>)
    ensures
        views(r@) == regulations(seeds@),
{
    match position(seeds, FactTest::IdIs, "regulations") {
        Some(k) => {
            proof {
                reveal_strlit(",");
            }
            split_trimmed(seeds[k].content.as_str(), ",")
        },
        None => {
            let r = vec![
                String::from_str("GDPR"),
                String::from_str("SOC2"),
                String::from_str("HIPAA"),
            ];
            assert(views(r@) =~= seq!["GDPR"@, "SOC2"@, "HIPAA"@]);
            r
        },
    }
}

impl Agent for RegulationParserAgent {
    fn name(&self) -> (r: &'static str)
        ensures
            r@ == "RegulationParserAgent"@,
    {
        "RegulationParserAgent"
    }

    fn dependencies(&self) -> (r: Vec<ContextKey>)
        ensures
            r@ == seq![ContextKey::Seeds],
    {
        vec![ContextKey::Seeds]
    }

    /// Runs once: when seeds exist and no regulation signal does.
    open spec fn runs_on(&self, ctx: Context) -> bool {
        (ctx.facts(ContextKey::Seeds).len() > 0 && !any(
            ctx.facts(ContextKey::Signals),
            id_prefix("regulation:"@),
        ))
    }

    fn accepts(&self, ctx: &Context) -> (r: bool) {
        ctx.has(ContextKey::Seeds) && !exists_fact(
            ctx.get(ContextKey::Signals),
            FactTest::IdPrefix,
            "regulation:",
        )
    }

    open spec fn proposes(&self, ctx: Context) -> Seq<FactView> {
        regulation_facts(ctx.facts(ContextKey::Seeds))
    }

    #[verifier::loop_isolation(false)]
    fn execute(&self, ctx: &Context) -> (r: AgentEffect) {
        let regs = read_regulations(ctx.get(ContextKey::Seeds));
        let ghost spec = regulation_facts(ctx.facts(ContextKey::Seeds));
        let n = regs.len();
        let mut facts: Vec<Fact> = Vec::new();
        let mut i: usize = 0;
        while i < n
            invariant
                n == regs.len(),
                i <= n,
                spec.len() == n,
                views(regs@) == regulations(ctx.facts(ContextKey::Seeds)),
                fact_views(facts@) == spec.take(i as int),
            decreases n - i,
        {
            let reg = regs[i].as_str();
            let mut id = String::from_str("regulation:");
            let lower = to_lowercase(reg);
            id.append(lower.as_str());
            let mut c = String::from_str("Regulation ");
            c.append(reg);
            c.append(": Parsed | Requirements: ");
            c.append(read_requirements(reg));
            c.append(" | Applicable: Yes");
            let f = Fact::from_strings(ContextKey::Signals, id, c);
            proof {
                assert(views(regs@)[i as int] == regs@[i as int]@);
                assert(f@ == spec[i as int]);
                lemma_take_push(spec, i as int);
            }
            push_fact(&mut facts, f);
            i = i + 1;
        }
        assert(spec.take(n as int) =~= spec);
        AgentEffect::with_facts(facts)
    }
}

// ---------------------------------------------------------------------------
// Policy rules
// ---------------------------------------------------------------------------

/// Turns each regulation into a policy rule.
pub struct PolicyRuleAgent;

/// The rule a policy enforces, by the regulation's lower-case name.
pub open spec fn policy_rule(name: Seq<char>) -> Seq<char> {
    if name == "gdpr"@ {
        "All data access must be logged | Consent required for processing"@
    } else if name == "soc2"@ {
        "Access controls must be enforced | All changes must be audited"@
    } else if name == "hipaa"@ {
        "PHI access must be authorized | Audit trail required"@
    } else {
        "Compliance with regulation required"@
    }
}

/// The rule a policy enforces.
pub fn read_policy_rule(name: &str) -> (r: &'static str)
    ensures
        r@ == policy_rule(name@),
{
    if str_eq(name, "gdpr") {
        "All data access must be logged | Consent required for processing"
    } else if str_eq(name, "soc2") {
        "Access controls must be enforced | All changes must be audited"
    } else if str_eq(name, "hipaa") {
        "PHI access must be authorized | Audit trail required"
    } else {
        "Compliance with regulation required"
    }
}

/// The name of a regulation signal.
pub open spec fn regulation_name(s: Fact) -> Seq<char> {
    strip_prefix_or(s.id@, "regulation:"@, "unknown"@)
}

/// The policy of a parsed regulation.
pub open spec fn policy_fact(s: Fact) -> FactView {
    let name = regulation_name(s);
    fv(
        ContextKey::Constraints,
        "policy:"@ + name,
        "Policy "@ + name + ": "@ + policy_rule(name) + " | Enforcement: Automatic | Severity: High"@,
    )
}

/// One policy per parsed regulation, in order.
pub open spec fn policy_facts(signals: Seq<Fact>) -> Seq<FactView> {
    signals.filter(id_prefix("regulation:"@)).map_values(|s: Fact| policy_fact(s))
}

impl Agent for PolicyRuleAgent {
    fn name(&self) -> (r: &'static str)
        ensures
            r@ == "PolicyRuleAgent"@,
    {
        "PolicyRuleAgent"
    }

    fn dependencies(&self) -> (r: Vec<ContextKey>)
        ensures
            r@ == seq![ContextKey::Signals],
    {
        vec![ContextKey::Signals]
    }

    /// Runs once: when regulations are parsed and no constraint exists.
    open spec fn runs_on(&self, ctx: Context) -> bool {
        (any(ctx.facts(ContextKey::Signals), id_prefix("regulation:"@)) && ctx.facts(
            ContextKey::Constraints,
        ).len() == 0)
    }

    fn accepts(&self, ctx: &Context) -> (r: bool) {
        exists_fact(ctx.get(ContextKey::Signals), FactTest::IdPrefix, "regulation:") && !ctx.has(
            ContextKey::Constraints,
        )
    }

    open spec fn proposes(&self, ctx: Context) -> Seq<FactView> {
        policy_facts(ctx.facts(ContextKey::Signals))
    }

    #[verifier::loop_isolation(false)]
    fn execute(&self, ctx: &Context) -> (r: AgentEffect) {
        let rs = filter_facts(ctx.get(ContextKey::Signals), FactTest::IdPrefix, "regulation:");
        let ghost spec = policy_facts(ctx.facts(ContextKey::Signals));
        let n = rs.len();
        let mut facts: Vec<Fact> = Vec::new();
        let mut i: usize = 0;
        while i < n
            invariant
                n == rs.len(),
                rs@ == ctx.facts(ContextKey::Signals).filter(id_prefix("regulation:"@)),
                i <= n,
                spec.len() == n,
                fact_views(facts@) == spec.take(i as int),
            decreases n - i,
        {
            let name = strip_prefix_or_str(rs[i].id.as_str(), "regulation:", "unknown");
            let mut id = String::from_str("policy:");
            id.append(name.as_str());
            let mut c = String::from_str("Policy ");
            c.append(name.as_str());
            c.append(": ");
            c.append(read_policy_rule(name.as_str()));
            c.append(" | Enforcement: Automatic | Severity: High");
            let f = Fact::from_strings(ContextKey::Constraints, id, c);
            proof {
                assert(f@ == spec[i as int]);
                lemma_take_push(spec, i as int);
            }
            push_fact(&mut facts, f);
            i = i + 1;
        }
        assert(spec.take(n as int) =~= spec);
        AgentEffect::with_facts(facts)
    }
}

// ---------------------------------------------------------------------------
// Evidence collection
// ---------------------------------------------------------------------------

/// Collects the evidence for each policy.
pub struct EvidenceCollectorAgent;

/// The name of a policy constraint.
pub open spec fn policy_name(c: Fact) -> Seq<char> {
    strip_prefix_or(c.id@, "policy:"@, "unknown"@)
}

/// Evidence is found for every policy but GDPR's.
pub open spec fn has_evidence(name: Seq<char>) -> bool {
    !contains(name, "gdpr"@) || contains(name, "soc2"@)
}

/// The evidence collected for a policy.
pub open spec fn evidence_fact(c: Fact) -> FactView {
    let name = policy_name(c);
    let found = has_evidence(name);
    fv(
        ContextKey::Signals,
        "evidence:"@ + name,
        "Evidence "@ + name + ": "@ + (if found {
            "Found"@
        } else {
            "Missing"@
        }) + " | Status: "@ + (if found {
            "COMPLIANT"@
        } else {
            "NON-COMPLIANT"@
        }) + " | Last checked: Today | Next check: Tomorrow"@,
    )
}

/// One evidence signal per policy, in order.
pub open spec fn evidence_facts(constraints: Seq<Fact>) -> Seq<FactView> {
    constraints.filter(id_prefix("policy:"@)).map_values(|c: Fact| evidence_fact(c))
}

impl Agent for EvidenceCollectorAgent {
    fn name(&self) -> (r: &'static str)
        ensures
            r@ == "EvidenceCollectorAgent"@,
    {
        "EvidenceCollectorAgent"
    }

    fn dependencies(&self) -> (r: Vec<ContextKey>)
        ensures
            r@ == seq![ContextKey::Seeds, ContextKey::Constraints],
    {
        vec![ContextKey::Seeds, ContextKey::Constraints]
    }

    /// Runs once: when constraints exist and no evidence does.
    open spec fn runs_on(&self, ctx: Context) -> bool {
        (ctx.facts(ContextKey::Constraints).len() > 0 && !any(
            ctx.facts(ContextKey::Signals),
            id_prefix("evidence:"@),
        ))
    }

    fn accepts(&self, ctx: &Context) -> (r: bool) {
        ctx.has(ContextKey::Constraints) && !exists_fact(
            ctx.get(ContextKey::Signals),
            FactTest::IdPrefix,
            "evidence:",
        )
    }

    open spec fn proposes(&self, ctx: Context) -> Seq<FactView> {
        evidence_facts(ctx.facts(ContextKey::Constraints))
    }

    #[verifier::loop_isolation(false)]
    fn execute(&self, ctx: &Context) -> (r: AgentEffect) {
        let ps = filter_facts(ctx.get(ContextKey::Constraints), FactTest::IdPrefix, "policy:");
        let ghost spec = evidence_facts(ctx.facts(ContextKey::Constraints));
        let n = ps.len();
        let mut facts: Vec<Fact> = Vec::new();
        let mut i: usize = 0;
        while i < n
            invariant
                n == ps.len(),
                ps@ == ctx.facts(ContextKey::Constraints).filter(id_prefix("policy:"@)),
                i <= n,
                spec.len() == n,
                fact_views(facts@) == spec.take(i as int),
            decreases n - i,
        {
            let name = strip_prefix_or_str(ps[i].id.as_str(), "policy:", "unknown");
            let found = !str_contains(name.as_str(), "gdpr") || str_contains(name.as_str(), "soc2");
            let mut id = String::from_str("evidence:");
            id.append(name.as_str());
            let mut c = String::from_str("Evidence ");
            c.append(name.as_str());
            c.append(": ");
            c.append(
                if found {
                    "Found"
                } else {
                    "Missing"
                },
            );
            c.append(" | Status: ");
            c.append(
                if found {
                    "COMPLIANT"
                } else {
                    "NON-COMPLIANT"
                },
            );
            c.append(" | Last checked: Today | Next check: Tomorrow");
            let f = Fact::from_strings(ContextKey::Signals, id, c);
            proof {
                assert(f@ == spec[i as int]);
                lemma_take_push(spec, i as int);
            }
            push_fact(&mut facts, f);
            i = i + 1;
        }
        assert(spec.take(n as int) =~= spec);
        AgentEffect::with_facts(facts)
    }
}

// ---------------------------------------------------------------------------
// Violation detection
// ---------------------------------------------------------------------------

/// Reports, for each policy with evidence, whether it is violated.
pub struct ViolationDetectorAgent;

/// The violation report of a policy: none without evidence; non-compliant
/// when the evidence says so or is missing.
pub open spec fn violation_row(signals: Seq<Fact>, c: Fact) -> Seq<FactView> {
    let name = policy_name(c);
    match find(signals, id_is("evidence:"@ + name)) {
        Some(ev) => if contains(ev.content@, "NON-COMPLIANT"@) || contains(
            ev.content@,
            "Missing"@,
        ) {
            seq![
                fv(
                    ContextKey::Strategies,
                    "violation:"@ + name,
                    "Violation "@ + name + ": NON-COMPLIANT | Evidence: "@ + ev.content@
                        + " | Severity: High | Action required: Immediate"@,
                ),
            ]
        } else {
            seq![
                fv(
                    ContextKey::Strategies,
                    "violation:"@ + name,
                    "Violation "@ + name + ": COMPLIANT | Evidence: "@ + ev.content@
                        + " | Status: No action needed"@,
                ),
            ]
        },
        None => seq![],
    }
}

/// The violation reports of the policies, in order.
pub open spec fn violation_facts(signals: Seq<Fact>, constraints: Seq<Fact>) -> Seq<FactView> {
    constraints.filter(id_prefix("policy:"@)).map_values(|c: Fact| violation_row(signals, c)).flatten()
}

impl Agent for ViolationDetectorAgent {
    fn name(&self) -> (r: &'static str)
        ensures
            r@ == "ViolationDetectorAgent"@,
    {
        "ViolationDetectorAgent"
    }

    fn dependencies(&self) -> (r: Vec<ContextKey>)
        ensures
            r@ == seq![ContextKey::Signals, ContextKey::Constraints],
    {
        vec![ContextKey::Signals, ContextKey::Constraints]
    }

    /// Runs once: when evidence and constraints exist and no strategy does.
    open spec fn runs_on(&self, ctx: Context) -> bool {
        (any(ctx.facts(ContextKey::Signals), id_prefix("evidence:"@)) && ctx.facts(
            ContextKey::Constraints,
        ).len() > 0 && ctx.facts(ContextKey::Strategies).len() == 0)
    }

    fn accepts(&self, ctx: &Context) -> (r: bool) {
        exists_fact(ctx.get(ContextKey::Signals), FactTest::IdPrefix, "evidence:") && ctx.has(
            ContextKey::Constraints,
        ) && !ctx.has(ContextKey::Strategies)
    }

    open spec fn proposes(&self, ctx: Context) -> Seq<FactView> {
        violation_facts(
            ctx.facts(ContextKey::Signals),
            ctx.facts(ContextKey::Constraints),
        )
    }

    #[verifier::loop_isolation(false)]
    fn execute(&self, ctx: &Context) -> (r: AgentEffect) {
        let signals = ctx.get(ContextKey::Signals);
        let ps = filter_facts(ctx.get(ContextKey::Constraints), FactTest::IdPrefix, "policy:");
        let ghost rows = ps@.map_values(|c: Fact| violation_row(signals@, c));
        let n = ps.len();
        let mut facts: Vec<Fact> = Vec::new();
        let mut i: usize = 0;
        while i < n
            invariant
                n == ps.len(),
                ps@ == ctx.facts(ContextKey::Constraints).filter(id_prefix("policy:"@)),
                rows == ps@.map_values(|c: Fact| violation_row(signals@, c)),
                i <= n,
                fact_views(facts@) == rows.take(i as int).flatten(),
            decreases n - i,
        {
            let name = strip_prefix_or_str(ps[i].id.as_str(), "policy:", "unknown");
            let mut eid = String::from_str("evidence:");
            eid.append(name.as_str());
            proof {
                lemma_rows_step(rows, i as int);
            }
            match position(signals, FactTest::IdIs, eid.as_str()) {
                Some(k) => {
                    let ev = signals[k].content.as_str();
                    let mut id = String::from_str("violation:");
                    id.append(name.as_str());
                    let mut c = String::from_str("Violation ");
                    c.append(name.as_str());
                    if str_contains(ev, "NON-COMPLIANT") || str_contains(ev, "Missing") {
                        c.append(": NON-COMPLIANT | Evidence: ");
                        c.append(ev);
                        c.append(" | Severity: High | Action required: Immediate");
                    } else {
                        c.append(": COMPLIANT | Evidence: ");
                        c.append(ev);
                        c.append(" | Status: No action needed");
                    }
                    let f = Fact::from_strings(ContextKey::Strategies, id, c);
                    proof {
                        assert(rows[i as int] == seq![f@]);
                    }
                    push_fact(&mut facts, f);
                },
                None => {
                    proof {
                        assert(rows[i as int] == Seq::<FactView>::empty());
                    }
                },
            }
            i = i + 1;
        }
        proof {
            lemma_rows_done(rows, n as int);
        }
        AgentEffect::with_facts(facts)
    }
}

// ---------------------------------------------------------------------------
// Remediation proposals
// ---------------------------------------------------------------------------

/// Proposes a remediation plan for each violation.
pub struct RemediationProposalAgent;

/// Violation reports that are non-compliant.
pub open spec fn open_violation() -> spec_fn(Fact) -> bool {
    |f: Fact| "violation:"@.is_prefix_of(f.id@) && contains(f.content@, "NON-COMPLIANT"@)
}

fn is_open_violation(f: &Fact) -> (r: bool)
    ensures
        r == open_violation()(*f),
{
    str_starts_with(f.id.as_str(), "violation:") && str_contains(
        f.content.as_str(),
        "NON-COMPLIANT",
    )
}

/// The remediation plan for a regulation, by its lower-case name.
pub open spec fn remediation_plan(name: Seq<char>) -> Seq<char> {
    if name == "gdpr"@ {
        "Implement data access logging, consent management system"@
    } else if name == "soc2"@ {
        "Enhance access controls, enable audit logging"@
    } else if name == "hipaa"@ {
        "Implement PHI access controls, audit trail system"@
    } else {
        "Review and implement compliance controls"@
    }
}

/// The remediation plan for a regulation.
pub fn read_remediation_plan(name: &str) -> (r: &'static str)
    ensures
        r@ == remediation_plan(name@),
{
    if str_eq(name, "gdpr") {
        "Implement data access logging, consent management system"
    } else if str_eq(name, "soc2") {
        "Enhance access controls, enable audit logging"
    } else if str_eq(name, "hipaa") {
        "Implement PHI access controls, audit trail system"
    } else {
        "Review and implement compliance controls"
    }
}

/// The remediation of the `i`-th open violation.
pub open spec fn remediation_fact(i: int, v: Fact) -> FactView {
    let name = strip_prefix_or(v.id@, "violation:"@, "unknown"@);
    fv(
        ContextKey::Evaluations,
        "eval:"@ + dec((i + 1) as nat),
        "Remediation "@ + dec((i + 1) as nat) + ": "@ + name + " | Plan: "@ + remediation_plan(name)
            + " | Priority: URGENT | Timeline: 30 days | "@ + rank_label(i),
    )
}

/// One remediation per open violation, in order, or a single evaluation
/// saying that all regulations are satisfied.
pub open spec fn remediation_facts(strategies: Seq<Fact>) -> Seq<FactView> {
    let vs = strategies.filter(open_violation());
    if vs.len() == 0 {
        seq![
            fv(
                ContextKey::Evaluations,
                "eval:compliant"@,
                "Status: COMPLIANT | All regulations satisfied | No remediation needed"@,
            ),
        ]
    } else {
        vs.map(|i: int, v: Fact| remediation_fact(i, v))
    }
}

/// The open violations, in order.
#[verifier::loop_isolation(false)]
fn read_open_violations(strategies: &Vec<Fact>) -> (r: Vec<Fact>)
    ensures
        r@ == strategies@.filter(open_violation()),
{
    let ghost pred = open_violation();
    let n = strategies.len();
    let mut out: Vec<Fact> = Vec::new();
    let mut i: usize = 0;
    while i < n
        invariant
            n == strategies.len(),
            i <= n,
            pred == open_violation(),
            out@ == strategies@.take(i as int).filter(pred),
        decreases n - i,
    {
        proof {
            assert(strategies@.take(i + 1) =~= strategies@.take(i as int).push(
                strategies@[i as int],
            ));
            strategies@.take(i as int).lemma_filter_push(strategies@[i as int], pred);
        }
        if is_open_violation(&strategies[i]) {
            out.push(strategies[i].duplicate());
        }
        i = i + 1;
    }
    assert(strategies@.take(n as int) =~= strategies@);
    out
}

impl Agent for RemediationProposalAgent {
    fn name(&self) -> (r: &'static str)
        ensures
            r@ == "RemediationProposalAgent"@,
    {
        "RemediationProposalAgent"
    }

    fn dependencies(&self) -> (r: Vec<ContextKey>)
        ensures
            r@ == seq![ContextKey::Strategies],
    {
        vec![ContextKey::Strategies]
    }

    /// Runs once: when strategies exist and no evaluation does.
    open spec fn runs_on(&self, ctx: Context) -> bool {
        (ctx.facts(ContextKey::Strategies).len() > 0 && ctx.facts(
            ContextKey::Evaluations,
        ).len() == 0)
    }

    fn accepts(&self, ctx: &Context) -> (r: bool) {
        ctx.has(ContextKey::Strategies) && !ctx.has(ContextKey::Evaluations)
    }

    open spec fn proposes(&self, ctx: Context) -> Seq<FactView> {
        remediation_facts(ctx.facts(ContextKey::Strategies))
    }

    #[verifier::loop_isolation(false)]
    fn execute(&self, ctx: &Context) -> (r: AgentEffect) {
        let strategies = ctx.get(ContextKey::Strategies);
        let vs = read_open_violations(strategies);
        let mut facts: Vec<Fact> = Vec::new();
        if vs.len() == 0 {
            push_fact(
                &mut facts,
                Fact::new(
                    ContextKey::Evaluations,
                    "eval:compliant",
                    "Status: COMPLIANT | All regulations satisfied | No remediation needed",
                ),
            );
            let r = AgentEffect::with_facts(facts);
            assert(r@ =~= remediation_facts(strategies@));
            return r;
        }
        let ghost spec = remediation_facts(strategies@);
        let n = vs.len();
        let mut i: usize = 0;
        while i < n
            invariant
                n == vs.len(),
                vs@ == strategies@.filter(open_violation()),
                n > 0,
                spec == vs@.map(|i: int, v: Fact| remediation_fact(i, v)),
                i <= n,
                fact_views(facts@) == spec.take(i as int),
            decreases n - i,
        {
            let name = strip_prefix_or_str(vs[i].id.as_str(), "violation:", "unknown");
            let mut id = String::from_str("eval:");
            push_dec(&mut id, i as u128 + 1);
            let mut c = String::from_str("Remediation ");
            push_dec(&mut c, i as u128 + 1);
            c.append(": ");
            c.append(name.as_str());
            c.append(" | Plan: ");
            c.append(read_remediation_plan(name.as_str()));
            c.append(" | Priority: URGENT | Timeline: 30 days | ");
            c.append(rank_label_str(i));
            let f = Fact::from_strings(ContextKey::Evaluations, id, c);
            proof {
                assert(f@ == spec[i as int]);
                lemma_take_push(spec, i as int);
            }
            push_fact(&mut facts, f);
            i = i + 1;
        }
        assert(spec.take(n as int) =~= spec);
        AgentEffect::with_facts(facts)
    }
}

// ---------------------------------------------------------------------------
// Invariants
// ---------------------------------------------------------------------------

/// Acceptance: open violations come with a recommended remediation.
pub struct RequireRemediationPlans;

/// Evaluations that recommend a remediation.
pub open spec fn recommended_remediation() -> spec_fn(Fact) -> bool {
    |f: Fact| contains(f.content@, "Remediation"@) && contains(f.content@, "RECOMMENDED"@)
}

fn is_recommended_remediation(f: &Fact) -> (r: bool)
    ensures
        r == recommended_remediation()(*f),
{
    str_contains(f.content.as_str(), "Remediation") && str_contains(
        f.content.as_str(),
        "RECOMMENDED",
    )
}

pub open spec fn remediation_verdict(strategies: Seq<Fact>, evaluations: Seq<Fact>) -> Verdict {
    let n = strategies.filter(open_violation()).len();
    if n > 0 && !any(evaluations, recommended_remediation()) {
        broken(dec(n) + " violations detected but no remediation plans provided"@)
    } else {
        Verdict::Pass
    }
}

impl Invariant for RequireRemediationPlans {
    fn name(&self) -> (r: &'static str)
        ensures
            r@ == "require_remediation_plans"@,
    {
        "require_remediation_plans"
    }

    fn class(&self) -> (r: InvariantClass)
        ensures
            r == InvariantClass::Acceptance,
    {
        InvariantClass::Acceptance
    }

    open spec fn verdict(&self, ctx: Context) -> Verdict {
        remediation_verdict(
            ctx.facts(ContextKey::Strategies),
            ctx.facts(ContextKey::Evaluations),
        )
    }

    fn check(&self, ctx: &Context) -> (r: InvariantResult) {
        let vs = read_open_violations(ctx.get(ContextKey::Strategies));
        if vs.len() > 0 {
            let evaluations = ctx.get(ContextKey::Evaluations);
            if position_by(
                evaluations,
                is_recommended_remediation,
                Ghost(recommended_remediation()),
            ).is_none() {
                let mut reason = String::new();
                push_dec(&mut reason, vs.len() as u128);
                reason.append(" violations detected but no remediation plans provided");
                assert(reason@ =~= dec(vs@.len()) + " violations detected but no remediation plans provided"@);
                return InvariantResult::violated(reason);
            }
        }
        InvariantResult::Holds
    }
}

/// Semantic: once evidence collection has started, every parsed regulation
/// has evidence and a policy.
pub struct RequireEvidenceForAllRegulations;

/// Parsed regulations without evidence or without a policy.
pub open spec fn unsupported_regulation(signals: Seq<Fact>, constraints: Seq<Fact>) -> spec_fn(
    Fact,
) -> bool {
    |s: Fact|
        "regulation:"@.is_prefix_of(s.id@) && (!any(
            signals,
            id_is("evidence:"@ + regulation_name(s)),
        ) || !any(constraints, id_is("policy:"@ + regulation_name(s))))
}

pub open spec fn evidence_verdict(signals: Seq<Fact>, constraints: Seq<Fact>) -> Verdict {
    if !any(signals, id_prefix("evidence:"@)) {
        Verdict::Pass
    } else {
        match find(signals, unsupported_regulation(signals, constraints)) {
            Some(s) => broken_at(
                "regulation "@ + regulation_name(s) + " missing evidence or policy"@,
                "regulation:"@ + regulation_name(s),
            ),
            None => Verdict::Pass,
        }
    }
}

impl Invariant for RequireEvidenceForAllRegulations {
    fn name(&self) -> (r: &'static str)
        ensures
            r@ == "require_evidence_for_all_regulations"@,
    {
        "require_evidence_for_all_regulations"
    }

    fn class(&self) -> (r: InvariantClass)
        ensures
            r == InvariantClass::Semantic,
    {
        InvariantClass::Semantic
    }

    open spec fn verdict(&self, ctx: Context) -> Verdict {
        evidence_verdict(
            ctx.facts(ContextKey::Signals),
            ctx.facts(ContextKey::Constraints),
        )
    }

    #[verifier::loop_isolation(false)]
    fn check(&self, ctx: &Context) -> (r: InvariantResult) {
        let signals = ctx.get(ContextKey::Signals);
        let constraints = ctx.get(ContextKey::Constraints);
        if !exists_fact(signals, FactTest::IdPrefix, "evidence:") {
            return InvariantResult::Holds;
        }
        let ghost pred = unsupported_regulation(signals@, constraints@);
        let n = signals.len();
        let mut i: usize = 0;
        while i < n
            invariant
                n == signals.len(),
                i <= n,
                pred == unsupported_regulation(signals@, constraints@),
                forall|j: int| 0 <= j < i ==> !pred(#[trigger] signals@[j]),
            decreases n - i,
        {
            let s = &signals[i];
            if str_starts_with(s.id.as_str(), "regulation:") {
                let name = strip_prefix_or_str(s.id.as_str(), "regulation:", "unknown");
                let mut eid = String::from_str("evidence:");
                eid.append(name.as_str());
                let mut pid = String::from_str("policy:");
                pid.append(name.as_str());
                if !exists_fact(signals, FactTest::IdIs, eid.as_str()) || !exists_fact(
                    constraints,
                    FactTest::IdIs,
                    pid.as_str(),
                ) {
                    proof {
                        assert(pred(signals@[i as int]));
                        assert(is_first(signals@, pred, i as int));
                        let k = choose|k: int| is_first(signals@, pred, k);
                        lemma_first_unique(signals@, pred, i as int, k);
                    }
                    let mut reason = String::from_str("regulation ");
                    reason.append(name.as_str());
                    reason.append(" missing evidence or policy");
                    let mut id = String::from_str("regulation:");
                    id.append(name.as_str());
                    return InvariantResult::violated_at(reason, id);
                }
            }
            i = i + 1;
        }
        proof {
            lemma_find_none(signals@, pred);
        }
        InvariantResult::Holds
    }
}

// ---------------------------------------------------------------------------
// Laws: each agent runs once
// ---------------------------------------------------------------------------

/// The seeds always name at least one regulation.
pub proof fn lemma_regulations_nonempty(seeds: Seq<Fact>)
    ensures
        regulations(seeds).len() > 0,
{
    match find(seeds, id_is("regulations"@)) {
        Some(seed) => {
            reveal_strlit(",");
            lemma_trimmed_pieces_nonempty(seed.content@, ","@);
        },
        None => {},
    }
}

/// Law: the regulation-parser agent runs once: once the signals it proposes
/// on a context it runs on are added, it does not run again.
pub proof fn lemma_regulation_parser_runs_once(ctx: Context, next: Context)
    requires
        RegulationParserAgent.runs_on(ctx),
        next.extends(ctx, RegulationParserAgent.proposes(ctx)),
    ensures
        !RegulationParserAgent.runs_on(next),
{
    let seeds = ctx.facts(ContextKey::Seeds);
    lemma_regulations_nonempty(seeds);
    lemma_prefix_of_concat("regulation:"@, lowercase(regulations(seeds)[0]));
    lemma_added_prefixed(ctx, next, RegulationParserAgent.proposes(ctx), 0, "regulation:"@);
}

/// Law: the policy-rule agent runs once.
pub proof fn lemma_policy_rule_runs_once(ctx: Context, next: Context)
    requires
        PolicyRuleAgent.runs_on(ctx),
        next.extends(ctx, PolicyRuleAgent.proposes(ctx)),
    ensures
        !PolicyRuleAgent.runs_on(next),
{
    lemma_any_filter(ctx.facts(ContextKey::Signals), id_prefix("regulation:"@));
    lemma_added_fact(ctx, next, PolicyRuleAgent.proposes(ctx), 0);
}

/// Law: the evidence-collector agent runs once when there is a policy to
/// collect evidence for.
pub proof fn lemma_evidence_collector_runs_once(ctx: Context, next: Context)
    requires
        EvidenceCollectorAgent.runs_on(ctx),
        next.extends(ctx, EvidenceCollectorAgent.proposes(ctx)),
        any(ctx.facts(ContextKey::Constraints), id_prefix("policy:"@)),
    ensures
        !EvidenceCollectorAgent.runs_on(next),
{
    let constraints = ctx.facts(ContextKey::Constraints);
    lemma_any_filter(constraints, id_prefix("policy:"@));
    lemma_prefix_of_concat("evidence:"@, policy_name(constraints.filter(id_prefix("policy:"@))[0]));
    lemma_added_prefixed(ctx, next, EvidenceCollectorAgent.proposes(ctx), 0, "evidence:"@);
}

/// Law: the violation-detector agent runs once when it reports a violation
/// status.
pub proof fn lemma_violation_detector_runs_once(ctx: Context, next: Context)
    requires
        ViolationDetectorAgent.runs_on(ctx),
        next.extends(ctx, ViolationDetectorAgent.proposes(ctx)),
        ViolationDetectorAgent.proposes(ctx).len() > 0,
    ensures
        !ViolationDetectorAgent.runs_on(next),
{
    let signals = ctx.facts(ContextKey::Signals);
    let constraints = ctx.facts(ContextKey::Constraints);
    lemma_flatten_all(
        constraints.filter(id_prefix("policy:"@)).map_values(|c: Fact| violation_row(signals, c)),
        keyed(ContextKey::Strategies),
    );
    lemma_added_fact(ctx, next, ViolationDetectorAgent.proposes(ctx), 0);
}

/// Law: the remediation-proposal agent runs once.
pub proof fn lemma_remediation_proposal_runs_once(ctx: Context, next: Context)
    requires
        RemediationProposalAgent.runs_on(ctx),
        next.extends(ctx, RemediationProposalAgent.proposes(ctx)),
    ensures
        !RemediationProposalAgent.runs_on(next),
{
    lemma_added_fact(ctx, next, RemediationProposalAgent.proposes(ctx), 0);
}

/// Law: every open violation gets a recommended remediation, so the
/// remediation invariant holds once the remediation proposals are added to a
/// context without evaluations.
pub proof fn lemma_violations_get_remediations(ctx: Context, next: Context)
    requires
        RemediationProposalAgent.runs_on(ctx),
        next.extends(ctx, RemediationProposalAgent.proposes(ctx)),
        next.facts(ContextKey::Strategies) == ctx.facts(ContextKey::Strategies),
    ensures
        RequireRemediationPlans.verdict(next) == Verdict::Pass,
{
    let strategies = ctx.facts(ContextKey::Strategies);
    let added = RemediationProposalAgent.proposes(ctx);
    if strategies.filter(open_violation()).len() > 0 {
        lemma_added_fact(ctx, next, added, 0);
        let e = next.facts(ContextKey::Evaluations);
        let m = choose|m: int| 0 <= m < e.len() && (#[trigger] e[m])@ == added[0];
        let v = strategies.filter(open_violation())[0];
        let name = strip_prefix_or(v.id@, "violation:"@, "unknown"@);
        reveal_strlit("Remediation ");
        reveal_strlit("Remediation");
        reveal_strlit("RECOMMENDED");
        let c = "Remediation "@ + dec(1) + ": "@ + name + " | Plan: "@ + remediation_plan(name)
            + " | Priority: URGENT | Timeline: 30 days | "@;
        assert(added[0].content == c + "RECOMMENDED"@);
        lemma_contains_after_prefix(c, "RECOMMENDED"@);
        assert(("Remediation "@ + dec(1)).subrange(0, 11) =~= "Remediation"@);
        assert(added[0].content.subrange(0, 11) =~= "Remediation"@);
        assert(occurs_at(added[0].content, "Remediation"@, 0));
        assert(recommended_remediation()(e[m]));
    }
}

/// Law: a policy whose evidence reads NON-COMPLIANT or Missing is reported
/// as a NON-COMPLIANT violation that needs immediate action; a policy whose
/// evidence reads neither is reported COMPLIANT with no action needed. The
/// evidence read is the first signal with id `evidence:` and the policy name.
pub proof fn lemma_violation_report(ctx: Context, k: int)
    requires
        0 <= k < ctx.facts(ContextKey::Constraints).filter(id_prefix("policy:"@)).len(),
        any(
            ctx.facts(ContextKey::Signals),
            id_is(
                "evidence:"@ + policy_name(
                    ctx.facts(ContextKey::Constraints).filter(id_prefix("policy:"@))[k],
                ),
            ),
        ),
    ensures
        ({
            let signals = ctx.facts(ContextKey::Signals);
            let name = policy_name(ctx.facts(ContextKey::Constraints).filter(id_prefix("policy:"@))[k]);
            let ev = find(signals, id_is("evidence:"@ + name))->0.content@;
            let p = ViolationDetectorAgent.proposes(ctx);
            &&& (contains(ev, "NON-COMPLIANT"@) || contains(ev, "Missing"@)) ==> exists|m: int|
                0 <= m < p.len() && #[trigger] p[m] == fv(
                    ContextKey::Strategies,
                    "violation:"@ + name,
                    "Violation "@ + name + ": NON-COMPLIANT | Evidence: "@ + ev
                        + " | Severity: High | Action required: Immediate"@,
                )
            &&& !(contains(ev, "NON-COMPLIANT"@) || contains(ev, "Missing"@)) ==> exists|m: int|
                0 <= m < p.len() && #[trigger] p[m] == fv(
                    ContextKey::Strategies,
                    "violation:"@ + name,
                    "Violation "@ + name + ": COMPLIANT | Evidence: "@ + ev
                        + " | Status: No action needed"@,
                )
        }),
{
    let signals = ctx.facts(ContextKey::Signals);
    let ps = ctx.facts(ContextKey::Constraints).filter(id_prefix("policy:"@));
    let c = ps[k];
    let name = policy_name(c);
    lemma_find_some(signals, id_is("evidence:"@ + name));
    let rows = ps.map_values(|c: Fact| violation_row(signals, c));
    assert(rows[k] == violation_row(signals, c));
    assert(rows[k].len() == 1);
    lemma_flatten_member(rows, k, 0);
    let p = ViolationDetectorAgent.proposes(ctx);
    assert(p == rows.flatten());
    let m = choose|m: int| 0 <= m < rows.flatten().len() && #[trigger] rows.flatten()[m] == rows[k][0];
    let ev = find(signals, id_is("evidence:"@ + name))->0.content@;
    if contains(ev, "NON-COMPLIANT"@) || contains(ev, "Missing"@) {
        assert(p[m] == fv(
            ContextKey::Strategies,
            "violation:"@ + name,
            "Violation "@ + name + ": NON-COMPLIANT | Evidence: "@ + ev
                + " | Severity: High | Action required: Immediate"@,
        ));
    } else {
        assert(p[m] == fv(
            ContextKey::Strategies,
            "violation:"@ + name,
            "Violation "@ + name + ": COMPLIANT | Evidence: "@ + ev + " | Status: No action needed"@,
        ));
    }
}

} // verus!
