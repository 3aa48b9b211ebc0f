//! Meeting scheduling agents: calendar coordination under constraints.
//!
//! ```text
//! Seeds (participants, duration, window)
//!    │
//!    ▼
//! AvailabilityRetrievalAgent → Signals (availability data)
//!    │
//!    ▼
//! TimeZoneNormalizationAgent → Signals (normalized times)
//!    │
//!    ▼
//! WorkingHoursConstraintAgent → Constraints (working hours)
//!    │
//!    ▼
//! SlotOptimizationAgent → Strategies (candidate slots)
//!    │
//!    ▼
//! ConflictDetectionAgent → Evaluations (valid slots ranked)
//! ```
use crate::agent::{
    any, broken, broken_at, exists_fact, find, id_is, id_prefix, position, position_by, Agent,
    FactTest, Invariant, InvariantClass, InvariantResult, Verdict,
};
use crate::context::{
    fact_views, fv, lemma_take_push, push_fact, AgentEffect, Context, ContextKey, Fact, FactView,
};
use crate::rank::{rank_label, rank_label_str};
use crate::text::{
    after, after_str, and_first_word, and_first_word_str, contains, dec, opt_view, parse_u32,
    parse_u32_str, push_dec, str_contains, str_eq, strip_prefix_or, strip_prefix_or_str, u32_or,
    u32_or_str,
};
use crate::agent::{lemma_added_fact, lemma_added_prefixed};
use vstd::prelude::*;

verus! {

// ---------------------------------------------------------------------------
// Availability retrieval
// ---------------------------------------------------------------------------

/// Looks up the availability of each participant.
pub struct AvailabilityRetrievalAgent;

/// Seeds that name the participants.
pub open spec fn participants_seed() -> spec_fn(Fact) -> bool {
    |f: Fact| f.id@ == "participants"@ || contains(f.content@, "participants"@)
}

fn is_participants_seed(f: &Fact) -> (r: bool)
    ensures
        r == participants_seed()(*f),
{
    str_eq(f.id.as_str(), "participants") || str_contains(f.content.as_str(), "participants")
}

/// The availability of Alice, Bob and Carol, for those the participants
/// seed names.
pub open spec fn named_availability(content: Seq<char>) -> Seq<FactView> {
    (if contains(content, "Alice"@) {
        seq![
            fv(
                ContextKey::Signals,
                "availability:alice"@,
                "Alice: Mon 9-17, Tue 9-17, Wed 9-17, Thu 9-17, Fri 9-17 (UTC)"@,
            ),
        ]
    } else {
        seq![]
    }) + (if contains(content, "Bob"@) {
        seq![
            fv(
                ContextKey::Signals,
                "availability:bob"@,
                "Bob: Mon 10-18, Tue 10-18, Wed 10-18, Thu 10-18, Fri 10-18 (UTC)"@,
            ),
        ]
    } else {
        seq![]
    }) + (if contains(content, "Carol"@) {
        seq![
            fv(
                ContextKey::Signals,
                "availability:carol"@,
                "Carol: Mon 8-16, Tue 8-16, Wed 8-16, Thu 8-16, Fri 8-16 (UTC)"@,
            ),
        ]
    } else {
        seq![]
    })
}

/// The availability of the named participants, or a default window when no
/// known participant is named.
pub open spec fn availability_facts(seeds: Seq<Fact>) -> Seq<FactView> {
    let found = match find(seeds, participants_seed()) {
        Some(s) => named_availability(s.content@),
        None => seq![],
    };
    if found.len() == 0 {
        seq![fv(ContextKey::Signals, "availability:default"@, "Default: Mon-Fri 9-17 UTC"@)]
    } else {
        found
    }
}

impl Agent for AvailabilityRetrievalAgent {
    fn name(&self) -> (r: &'static str)
        ensures
            r@ == "AvailabilityRetrievalAgent"@,
    {
        "AvailabilityRetrievalAgent"
    }

    fn dependencies(&self) -> (r: Vec<ContextKey>)
        ensures
            r@ == seq![ContextKey::Seeds],
    {
        vec![ContextKey::Seeds]
    }

    /// Runs once: when seeds exist and no signal does.
    open spec fn runs_on(&self, ctx: Context) -> bool {
        (ctx.facts(ContextKey::Seeds).len() > 0 && ctx.facts(ContextKey::Signals).len()
            == 0)
    }

    fn accepts(&self, ctx: &Context) -> (r: bool) {
        ctx.has(ContextKey::Seeds) && !ctx.has(ContextKey::Signals)
    }

    open spec fn proposes(&self, ctx: Context) -> Seq<FactView> {
        availability_facts(ctx.facts(ContextKey::Seeds))
    }

    fn execute(&self, ctx: &Context) -> (r: AgentEffect) {
        let seeds = ctx.get(ContextKey::Seeds);
        let mut facts: Vec<Fact> = Vec::new();
        match position_by(seeds, is_participants_seed, Ghost(participants_seed())) {
            Some(k) => {
                let content = seeds[k].content.as_str();
                if str_contains(content, "Alice") {
                    push_fact(
                        &mut facts,
                        Fact::new(
                            ContextKey::Signals,
                            "availability:alice",
                            "Alice: Mon 9-17, Tue 9-17, Wed 9-17, Thu 9-17, Fri 9-17 (UTC)",
                        ),
                    );
                }
                if str_contains(content, "Bob") {
                    push_fact(
                        &mut facts,
                        Fact::new(
                            ContextKey::Signals,
                            "availability:bob",
                            "Bob: Mon 10-18, Tue 10-18, Wed 10-18, Thu 10-18, Fri 10-18 (UTC)",
                        ),
                    );
                }
                if str_contains(content, "Carol") {
                    push_fact(
                        &mut facts,
                        Fact::new(
                            ContextKey::Signals,
                            "availability:carol",
                            "Carol: Mon 8-16, Tue 8-16, Wed 8-16, Thu 8-16, Fri 8-16 (UTC)",
                        ),
                    );
                }
                assert(fact_views(facts@) =~= named_availability(seeds@[k as int].content@));
            },
            None => {},
        }
        if facts.len() == 0 {
            push_fact(
                &mut facts,
                Fact::new(ContextKey::Signals, "availability:default", "Default: Mon-Fri 9-17 UTC"),
            );
        }
        let r = AgentEffect::with_facts(facts);
        assert(r@ =~= availability_facts(seeds@));
        r
    }
}

// ---------------------------------------------------------------------------
// Time zone normalization
// ---------------------------------------------------------------------------

/// Aligns the availability windows to a common time zone.
pub struct TimeZoneNormalizationAgent;

/// The common window, when there is availability to normalize.
pub open spec fn normalized_facts(signals: Seq<Fact>) -> Seq<FactView> {
    if any(signals, id_prefix("availability:"@)) {
        seq![
            fv(
                ContextKey::Signals,
                "normalized:common-window"@,
                "Common availability: Mon-Fri 10-16 UTC (all participants)"@,
            ),
        ]
    } else {
        seq![]
    }
}

impl Agent for TimeZoneNormalizationAgent {
    fn name(&self) -> (r: &'static str)
        ensures
            r@ == "TimeZoneNormalizationAgent"@,
    {
        "TimeZoneNormalizationAgent"
    }

    fn dependencies(&self) -> (r: Vec<ContextKey>)
        ensures
            r@ == seq![ContextKey::Signals],
    {
        vec![ContextKey::Signals]
    }

    /// Runs once: when availability exists and nothing is normalized yet.
    open spec fn runs_on(&self, ctx: Context) -> bool {
        (any(ctx.facts(ContextKey::Signals), id_prefix("availability:"@)) && !any(
            ctx.facts(ContextKey::Signals),
            id_prefix("normalized:"@),
        ))
    }

    fn accepts(&self, ctx: &Context) -> (r: bool) {
        let signals = ctx.get(ContextKey::Signals);
        exists_fact(signals, FactTest::IdPrefix, "availability:") && !exists_fact(
            signals,
            FactTest::IdPrefix,
            "normalized:",
        )
    }

    open spec fn proposes(&self, ctx: Context) -> Seq<FactView> {
        normalized_facts(ctx.facts(ContextKey::Signals))
    }

    fn execute(&self, ctx: &Context) -> (r: AgentEffect) {
        let signals = ctx.get(ContextKey::Signals);
        let mut facts: Vec<Fact> = Vec::new();
        if exists_fact(signals, FactTest::IdPrefix, "availability:") {
            push_fact(
                &mut facts,
                Fact::new(
                    ContextKey::Signals,
                    "normalized:common-window",
                    "Common availability: Mon-Fri 10-16 UTC (all participants)",
                ),
            );
        }
        let r = AgentEffect::with_facts(facts);
        assert(r@ =~= normalized_facts(signals@));
        r
    }
}

// ---------------------------------------------------------------------------
// Working hours
// ---------------------------------------------------------------------------

/// States the working-hours constraint.
pub struct WorkingHoursConstraintAgent;

/// The duration the `duration` seed states, or 60 minutes.
pub open spec fn seed_duration(seeds: Seq<Fact>) -> nat {
    match find(seeds, id_is("duration"@)) {
        Some(s) => match parse_u32(s.content@) {
            Some(v) => v,
            None => 60,
        },
        None => 60,
    }
}

/// The working-hours constraint: the normalized window when there is one.
pub open spec fn working_hours_facts(seeds: Seq<Fact>, signals: Seq<Fact>) -> Seq<FactView> {
    let d = seed_duration(seeds);
    match find(signals, id_prefix("normalized:"@)) {
        Some(norm) => seq![
            fv(
                ContextKey::Constraints,
                "working-hours:policy"@,
                "Working hours: "@ + norm.content@ + " | Minimum duration: "@ + dec(d)
                    + " minutes"@,
            ),
        ],
        None => seq![
            fv(
                ContextKey::Constraints,
                "working-hours:default"@,
                "Working hours: Mon-Fri 9-17 UTC | Duration: "@ + dec(d) + " minutes"@,
            ),
        ],
    }
}

impl Agent for WorkingHoursConstraintAgent {
    fn name(&self) -> (r: &'static str)
        ensures
            r@ == "WorkingHoursConstraintAgent"@,
    {
        "WorkingHoursConstraintAgent"
    }

    fn dependencies(&self) -> (r: Vec<ContextKey>)
        ensures
            r@ == seq![ContextKey::Signals, ContextKey::Seeds],
    {
        vec![ContextKey::Signals, ContextKey::Seeds]
    }

    /// Runs once: when times are normalized and no working-hours constraint
    /// exists.
    open spec fn runs_on(&self, ctx: Context) -> bool {
        (any(ctx.facts(ContextKey::Signals), id_prefix("normalized:"@)) && !any(
            ctx.facts(ContextKey::Constraints),
            id_prefix("working-hours:"@),
        ))
    }

    fn accepts(&self, ctx: &Context) -> (r: bool) {
        exists_fact(ctx.get(ContextKey::Signals), FactTest::IdPrefix, "normalized:")
            && !exists_fact(ctx.get(ContextKey::Constraints), FactTest::IdPrefix, "working-hours:")
    }

    open spec fn proposes(&self, ctx: Context) -> Seq<FactView> {
        working_hours_facts(
            ctx.facts(ContextKey::Seeds),
            ctx.facts(ContextKey::Signals),
        )
    }

    fn execute(&self, ctx: &Context) -> (r: AgentEffect) {
        let seeds = ctx.get(ContextKey::Seeds);
        let signals = ctx.get(ContextKey::Signals);
        let d: u32 = match position(seeds, FactTest::IdIs, "duration") {
            Some(k) => match parse_u32_str(seeds[k].content.as_str()) {
                Some(v) => v,
                None => 60,
            },
            None => 60,
        };
        let mut facts: Vec<Fact> = Vec::new();
        match position(signals, FactTest::IdPrefix, "normalized:") {
            Some(k) => {
                let mut c = String::from_str("Working hours: ");
                c.append(signals[k].content.as_str());
                c.append(" | Minimum duration: ");
                push_dec(&mut c, d as u128);
                c.append(" minutes");
                push_fact(
                    &mut facts,
                    Fact::from_strings(
                        ContextKey::Constraints,
                        String::from_str("working-hours:policy"),
                        c,
                    ),
                );
            },
            None => {
                let mut c = String::from_str("Working hours: Mon-Fri 9-17 UTC | Duration: ");
                push_dec(&mut c, d as u128);
                c.append(" minutes");
                push_fact(
                    &mut facts,
                    Fact::from_strings(
                        ContextKey::Constraints,
                        String::from_str("working-hours:default"),
                        c,
                    ),
                );
            },
        }
        let r = AgentEffect::with_facts(facts);
        assert(r@ =~= working_hours_facts(seeds@, signals@));
        r
    }
}

// ---------------------------------------------------------------------------
// Slot optimization
// ---------------------------------------------------------------------------

/// Proposes candidate time slots.
pub struct SlotOptimizationAgent;

/// The duration the working-hours constraint states after `Duration: `, or
/// 60 minutes.
pub open spec fn constraint_duration(constraints: Seq<Fact>) -> nat {
    match find(constraints, id_prefix("working-hours:"@)) {
        Some(c) => u32_or(and_first_word(after(c.content@, "Duration: "@)), 60),
        None => 60,
    }
}

/// The duration the working-hours constraint states, or 60 minutes.
fn read_constraint_duration(constraints: &Vec<Fact>) -> (r: u32)
    ensures
        r as nat == constraint_duration(constraints@),
{
    proof {
        reveal_strlit("Duration: ");
    }
    match position(constraints, FactTest::IdPrefix, "working-hours:") {
        Some(k) => u32_or_str(
            and_first_word_str(after_str(constraints[k].content.as_str(), "Duration: ")),
            60,
        ),
        None => 60,
    }
}

/// The candidate slot of rank `rank`.
pub open spec fn slot_fact(rank: nat, start: Seq<char>, end: Seq<char>, d: nat) -> FactView {
    fv(
        ContextKey::Strategies,
        "slot:"@ + dec(rank),
        "Candidate slot "@ + dec(rank) + ": "@ + start + " - "@ + end + " ("@ + dec(d) + " minutes)"@,
    )
}

/// Seven candidate slots: mornings Monday to Friday, then Monday and Tuesday
/// afternoons.
pub open spec fn slot_facts(constraints: Seq<Fact>) -> Seq<FactView> {
    let d = constraint_duration(constraints);
    seq![
        slot_fact(1, "Mon 10:00"@, "Mon 11:00"@, d),
        slot_fact(2, "Tue 10:00"@, "Tue 11:00"@, d),
        slot_fact(3, "Wed 10:00"@, "Wed 11:00"@, d),
        slot_fact(4, "Thu 10:00"@, "Thu 11:00"@, d),
        slot_fact(5, "Fri 10:00"@, "Fri 11:00"@, d),
        slot_fact(6, "Mon 14:00"@, "Mon 15:00"@, d),
        slot_fact(7, "Tue 14:00"@, "Tue 15:00"@, d),
    ]
}

impl Agent for SlotOptimizationAgent {
    fn name(&self) -> (r: &'static str)
        ensures
            r@ == "SlotOptimizationAgent"@,
    {
        "SlotOptimizationAgent"
    }

    fn dependencies(&self) -> (r: Vec<ContextKey>)
        ensures
            r@ == seq![ContextKey::Constraints, ContextKey::Signals],
    {
        vec![ContextKey::Constraints, ContextKey::Signals]
    }

    /// Runs once: when constraints exist and no strategy does.
    open spec fn runs_on(&self, ctx: Context) -> bool {
        (ctx.facts(ContextKey::Constraints).len() > 0 && ctx.facts(
            ContextKey::Strategies,
        ).len() == 0)
    }

    fn accepts(&self, ctx: &Context) -> (r: bool) {
        ctx.has(ContextKey::Constraints) && !ctx.has(ContextKey::Strategies)
    }

    open spec fn proposes(&self, ctx: Context) -> Seq<FactView> {
        slot_facts(ctx.facts(ContextKey::Constraints))
    }

    #[verifier::loop_isolation(false)]
    fn execute(&self, ctx: &Context) -> (r: AgentEffect) {
        let d = read_constraint_duration(ctx.get(ContextKey::Constraints));
        let starts: Vec<&'static str> = vec![
            "Mon 10:00",
            "Tue 10:00",
            "Wed 10:00",
            "Thu 10:00",
            "Fri 10:00",
            "Mon 14:00",
            "Tue 14:00",
        ];
        let ends: Vec<&'static str> = vec![
            "Mon 11:00",
            "Tue 11:00",
            "Wed 11:00",
            "Thu 11:00",
            "Fri 11:00",
            "Mon 15:00",
            "Tue 15:00",
        ];
        let ghost spec = slot_facts(ctx.facts(ContextKey::Constraints));
        let mut facts: Vec<Fact> = Vec::new();
        let mut i: usize = 0;
        while i < 7
            invariant
                starts@.len() == 7,
                ends@.len() == 7,
                spec.len() == 7,
                forall|j: int|
                    0 <= j < 7 ==> #[trigger] spec[j] == slot_fact(
                        (j + 1) as nat,
                        starts@[j]@,
                        ends@[j]@,
                        d as nat,
                    ),
                i <= 7,
                fact_views(facts@) == spec.take(i as int),
            decreases 7 - i,
        {
            let mut id = String::from_str("slot:");
            push_dec(&mut id, i as u128 + 1);
            let mut c = String::from_str("Candidate slot ");
            push_dec(&mut c, i as u128 + 1);
            c.append(": ");
            c.append(starts[i]);
            c.append(" - ");
            c.append(ends[i]);
            c.append(" (");
            push_dec(&mut c, d as u128);
            c.append(" minutes)");
            let f = Fact::from_strings(ContextKey::Strategies, id, c);
            proof {
                assert(f@ == spec[i as int]);
                lemma_take_push(spec, i as int);
            }
            push_fact(&mut facts, f);
            i = i + 1;
        }
        assert(spec.take(7) =~= spec);
        AgentEffect::with_facts(facts)
    }
}

// ---------------------------------------------------------------------------
// Conflict detection
// ---------------------------------------------------------------------------

/// Scores the candidate slots that respect the working hours.
pub struct ConflictDetectionAgent;

/// The score and rationale of a slot: early-week mornings first, afternoons
/// last.
pub open spec fn slot_score(content: Seq<char>) -> (nat, Seq<char>) {
    if contains(content, "Mon 10:00"@) || contains(content, "Tue 10:00"@) {
        (90, "Early week morning slot, minimal disruption"@)
    } else if contains(content, "Wed 10:00"@) || contains(content, "Thu 10:00"@) {
        (85, "Mid-week morning slot, good balance"@)
    } else if contains(content, "Fri 10:00"@) {
        (80, "Friday morning slot, end of week"@)
    } else if contains(content, "14:00"@) {
        (75, "Afternoon slot, acceptable but less preferred"@)
    } else {
        (70, "Valid slot within constraints"@)
    }
}

/// Scores a slot by what its content mentions.
fn evaluate_slot(slot: &Fact, _rank: usize) -> (r: (u32, &'static str))
    ensures
        r.0 as nat == slot_score(slot.content@).0,
        r.1@ == slot_score(slot.content@).1,
{
    let content = slot.content.as_str();
    if str_contains(content, "Mon 10:00") || str_contains(content, "Tue 10:00") {
        (90, "Early week morning slot, minimal disruption")
    } else if str_contains(content, "Wed 10:00") || str_contains(content, "Thu 10:00") {
        (85, "Mid-week morning slot, good balance")
    } else if str_contains(content, "Fri 10:00") {
        (80, "Friday morning slot, end of week")
    } else if str_contains(content, "14:00") {
        (75, "Afternoon slot, acceptable but less preferred")
    } else {
        (70, "Valid slot within constraints")
    }
}

/// Constraints that state working hours the slots fit in.
pub open spec fn working_window() -> spec_fn(Fact) -> bool {
    |f: Fact| contains(f.content@, "10-16"@) || contains(f.content@, "9-17"@)
}

fn is_working_window(f: &Fact) -> (r: bool)
    ensures
        r == working_window()(*f),
{
    str_contains(f.content.as_str(), "10-16") || str_contains(f.content.as_str(), "9-17")
}

/// The evaluation of the `i`-th slot.
pub open spec fn slot_evaluation(i: int, slot: Fact) -> FactView {
    let (score, rationale) = slot_score(slot.content@);
    fv(
        ContextKey::Evaluations,
        "eval:"@ + strip_prefix_or(slot.id@, "slot:"@, slot.id@),
        "Score: "@ + dec(score) + "/100 | "@ + rank_label(i) + " | Rationale: "@ + rationale,
    )
}

/// One evaluation per slot when the working hours fit, else a single
/// evaluation saying that no slot is valid.
pub open spec fn slot_evaluations(strategies: Seq<Fact>, constraints: Seq<Fact>) -> Seq<FactView> {
    if any(constraints, working_window()) && strategies.len() > 0 {
        strategies.map(|i: int, s: Fact| slot_evaluation(i, s))
    } else {
        seq![
            fv(
                ContextKey::Evaluations,
                "eval:no-slot"@,
                "Score: 0/100 | INFEASIBLE | Rationale: No valid slots found within constraints"@,
            ),
        ]
    }
}

impl Agent for ConflictDetectionAgent {
    fn name(&self) -> (r: &'static str)
        ensures
            r@ == "ConflictDetectionAgent"@,
    {
        "ConflictDetectionAgent"
    }

    fn dependencies(&self) -> (r: Vec<ContextKey>)
        ensures
            r@ == seq![ContextKey::Strategies, ContextKey::Constraints],
    {
        vec![ContextKey::Strategies, ContextKey::Constraints]
    }

    /// Runs once: when candidate slots exist and no evaluation does.
    open spec fn runs_on(&self, ctx: Context) -> bool {
        (ctx.facts(ContextKey::Strategies).len() > 0 && ctx.facts(
            ContextKey::Evaluations,
        ).len() == 0)
    }

    fn accepts(&self, ctx: &Context) -> (r: bool) {
        ctx.has(ContextKey::Strategies) && !ctx.has(ContextKey::Evaluations)
    }

    open spec fn proposes(&self, ctx: Context) -> Seq<FactView> {
        slot_evaluations(
            ctx.facts(ContextKey::Strategies),
            ctx.facts(ContextKey::Constraints),
        )
    }

    #[verifier::loop_isolation(false)]
    fn execute(&self, ctx: &Context) -> (r: AgentEffect) {
        let strategies = ctx.get(ContextKey::Strategies);
        let constraints = ctx.get(ContextKey::Constraints);
        let valid = position_by(constraints, is_working_window, Ghost(working_window())).is_some();
        let mut facts: Vec<Fact> = Vec::new();
        if valid {
            let ghost spec = strategies@.map(|i: int, s: Fact| slot_evaluation(i, s));
            let n = strategies.len();
            let mut i: usize = 0;
            while i < n
                invariant
                    n == strategies.len(),
                    spec == strategies@.map(|i: int, s: Fact| slot_evaluation(i, s)),
                    i <= n,
                    fact_views(facts@) == spec.take(i as int),
                decreases n - i,
            {
                let slot = &strategies[i];
                let (score, rationale) = evaluate_slot(slot, i);
                let key = strip_prefix_or_str(slot.id.as_str(), "slot:", slot.id.as_str());
                let mut id = String::from_str("eval:");
                id.append(key.as_str());
                let mut c = String::from_str("Score: ");
                push_dec(&mut c, score as u128);
                c.append("/100 | ");
                c.append(rank_label_str(i));
                c.append(" | Rationale: ");
                c.append(rationale);
                let f = Fact::from_strings(ContextKey::Evaluations, id, c);
                proof {
                    assert(f@ == spec[i as int]);
                    lemma_take_push(spec, i as int);
                }
                push_fact(&mut facts, f);
                i = i + 1;
            }
            assert(spec.take(n as int) =~= spec);
        }
        if facts.len() == 0 {
            push_fact(
                &mut facts,
                Fact::new(
                    ContextKey::Evaluations,
                    "eval:no-slot",
                    "Score: 0/100 | INFEASIBLE | Rationale: No valid slots found within constraints",
                ),
            );
        }
        let r = AgentEffect::with_facts(facts);
        assert(r@ =~= slot_evaluations(strategies@, constraints@));
        r
    }
}

// ---------------------------------------------------------------------------
// Invariants
// ---------------------------------------------------------------------------

/// Acceptance: at least one valid slot exists.
pub struct RequireValidSlot;

/// Scored evaluations that are not infeasible.
pub open spec fn valid_slot() -> spec_fn(Fact) -> bool {
    |f: Fact| !contains(f.content@, "INFEASIBLE"@) && contains(f.content@, "Score:"@)
}

fn is_valid_slot(f: &Fact) -> (r: bool)
    ensures
        r == valid_slot()(*f),
{
    !str_contains(f.content.as_str(), "INFEASIBLE") && str_contains(f.content.as_str(), "Score:")
}

pub open spec fn valid_slot_verdict(evaluations: Seq<Fact>) -> Verdict {
    if !any(evaluations, valid_slot()) {
        broken("no valid meeting slots found within constraints"@)
    } else {
        Verdict::Pass
    }
}

impl Invariant for RequireValidSlot {
    fn name(&self) -> (r: &'static str)
        ensures
            r@ == "require_valid_slot"@,
    {
        "require_valid_slot"
    }

    fn class(&self) -> (r: InvariantClass)
        ensures
            r == InvariantClass::Acceptance,
    {
        InvariantClass::Acceptance
    }

    open spec fn verdict(&self, ctx: Context) -> Verdict {
        valid_slot_verdict(ctx.facts(ContextKey::Evaluations))
    }

    fn check(&self, ctx: &Context) -> (r: InvariantResult) {
        if position_by(ctx.get(ContextKey::Evaluations), is_valid_slot, Ghost(valid_slot())).is_none() {
            return InvariantResult::violated(
                String::from_str("no valid meeting slots found within constraints"),
            );
        }
        InvariantResult::Holds
    }
}

/// Semantic: once slots are evaluated, availability is known and the
/// recommended slot is feasible.
pub struct RequireParticipantAvailability;

pub open spec fn availability_verdict(evaluations: Seq<Fact>, signals: Seq<Fact>) -> Verdict {
    if evaluations.len() == 0 {
        Verdict::Pass
    } else if !any(signals, id_prefix("availability:"@)) {
        broken("participant availability data not found"@)
    } else {
        match find(evaluations, crate::agent::content_has("RECOMMENDED"@)) {
            Some(rec) => if contains(rec.content@, "INFEASIBLE"@) {
                broken_at(
                    "recommended slot conflicts with participant availability"@,
                    rec.id@,
                )
            } else {
                Verdict::Pass
            },
            None => Verdict::Pass,
        }
    }
}

impl Invariant for RequireParticipantAvailability {
    fn name(&self) -> (r: &'static str)
        ensures
            r@ == "require_participant_availability"@,
    {
        "require_participant_availability"
    }

    fn class(&self) -> (r: InvariantClass)
        ensures
            r == InvariantClass::Semantic,
    {
        InvariantClass::Semantic
    }

    open spec fn verdict(&self, ctx: Context) -> Verdict {
        availability_verdict(
            ctx.facts(ContextKey::Evaluations),
            ctx.facts(ContextKey::Signals),
        )
    }

    fn check(&self, ctx: &Context) -> (r: InvariantResult) {
        let evaluations = ctx.get(ContextKey::Evaluations);
        if evaluations.len() == 0 {
            return InvariantResult::Holds;
        }
        if !exists_fact(ctx.get(ContextKey::Signals), FactTest::IdPrefix, "availability:") {
            return InvariantResult::violated(
                String::from_str("participant availability data not found"),
            );
        }
        match position(evaluations, FactTest::ContentHas, "RECOMMENDED") {
            Some(k) => {
                if str_contains(evaluations[k].content.as_str(), "INFEASIBLE") {
                    return InvariantResult::violated_at(
                        String::from_str("recommended slot conflicts with participant availability"),
                        evaluations[k].id.clone(),
                    );
                }
                InvariantResult::Holds
            },
            None => InvariantResult::Holds,
        }
    }
}

/// Structural: the meeting duration is positive.
pub struct RequirePositiveDuration;

/// The duration the seeds state, else the one the working-hours constraint
/// states after `Duration: `, if either is a number.
pub open spec fn stated_duration(seeds: Seq<Fact>, constraints: Seq<Fact>) -> Option<nat> {
    let from_seeds = match find(seeds, id_is("duration"@)) {
        Some(s) => parse_u32(s.content@),
        None => None,
    };
    let from_constraints = match find(constraints, id_prefix("working-hours:"@)) {
        Some(c) => match and_first_word(after(c.content@, "Duration: "@)) {
            Some(w) => parse_u32(w),
            None => None,
        },
        None => None,
    };
    match from_seeds {
        Some(d) => Some(d),
        None => from_constraints,
    }
}

pub open spec fn duration_verdict(seeds: Seq<Fact>, constraints: Seq<Fact>) -> Verdict {
    if stated_duration(seeds, constraints) == Some(0nat) {
        broken("meeting duration must be greater than zero"@)
    } else {
        Verdict::Pass
    }
}

impl Invariant for RequirePositiveDuration {
    fn name(&self) -> (r: &'static str)
        ensures
            r@ == "require_positive_duration"@,
    {
        "require_positive_duration"
    }

    fn class(&self) -> (r: InvariantClass)
        ensures
            r == InvariantClass::Structure,
    {
        InvariantClass::Structure
    }

    open spec fn verdict(&self, ctx: Context) -> Verdict {
        duration_verdict(ctx.facts(ContextKey::Seeds), ctx.facts(ContextKey::Constraints))
    }

    fn check(&self, ctx: &Context) -> (r: InvariantResult) {
        proof {
            reveal_strlit("Duration: ");
        }
        let seeds = ctx.get(ContextKey::Seeds);
        let constraints = ctx.get(ContextKey::Constraints);
        let from_seeds: Option<u32> = match position(seeds, FactTest::IdIs, "duration") {
            Some(k) => parse_u32_str(seeds[k].content.as_str()),
            None => None,
        };
        let from_constraints: Option<u32> = match position(
            constraints,
            FactTest::IdPrefix,
            "working-hours:",
        ) {
            Some(k) => match and_first_word_str(
                after_str(constraints[k].content.as_str(), "Duration: "),
            ) {
                Some(w) => parse_u32_str(w.as_str()),
                None => None,
            },
            None => None,
        };
        let duration = match from_seeds {
            Some(d) => Some(d),
            None => from_constraints,
        };
        match duration {
            Some(d) => {
                if d == 0 {
                    return InvariantResult::violated(
                        String::from_str("meeting duration must be greater than zero"),
                    );
                }
                InvariantResult::Holds
            },
            None => InvariantResult::Holds,
        }
    }
}

// ---------------------------------------------------------------------------
// Laws: each agent runs once
// ---------------------------------------------------------------------------

/// Law: the availability-retrieval agent runs once: once the signals it
/// proposes on a context it runs on are added, it does not run again.
pub proof fn lemma_availability_retrieval_runs_once(ctx: Context, next: Context)
    requires
        AvailabilityRetrievalAgent.runs_on(ctx),
        next.extends(ctx, AvailabilityRetrievalAgent.proposes(ctx)),
    ensures
        !AvailabilityRetrievalAgent.runs_on(next),
{
    lemma_added_fact(ctx, next, AvailabilityRetrievalAgent.proposes(ctx), 0);
}

/// Law: the time-zone normalization agent runs once.
pub proof fn lemma_time_zone_normalization_runs_once(ctx: Context, next: Context)
    requires
        TimeZoneNormalizationAgent.runs_on(ctx),
        next.extends(ctx, TimeZoneNormalizationAgent.proposes(ctx)),
    ensures
        !TimeZoneNormalizationAgent.runs_on(next),
{
    reveal_strlit("normalized:common-window");
    reveal_strlit("normalized:");
    assert("normalized:"@.is_prefix_of("normalized:common-window"@));
    lemma_added_prefixed(ctx, next, TimeZoneNormalizationAgent.proposes(ctx), 0, "normalized:"@);
}

/// Law: the working-hours agent runs once.
pub proof fn lemma_working_hours_runs_once(ctx: Context, next: Context)
    requires
        WorkingHoursConstraintAgent.runs_on(ctx),
        next.extends(ctx, WorkingHoursConstraintAgent.proposes(ctx)),
    ensures
        !WorkingHoursConstraintAgent.runs_on(next),
{
    reveal_strlit("working-hours:policy");
    reveal_strlit("working-hours:default");
    reveal_strlit("working-hours:");
    assert("working-hours:"@.is_prefix_of("working-hours:policy"@));
    assert("working-hours:"@.is_prefix_of("working-hours:default"@));
    lemma_added_prefixed(ctx, next, WorkingHoursConstraintAgent.proposes(ctx), 0, "working-hours:"@);
}

/// Law: the slot-optimization agent runs once.
pub proof fn lemma_slot_optimization_runs_once(ctx: Context, next: Context)
    requires
        SlotOptimizationAgent.runs_on(ctx),
        next.extends(ctx, SlotOptimizationAgent.proposes(ctx)),
    ensures
        !SlotOptimizationAgent.runs_on(next),
{
    lemma_added_fact(ctx, next, SlotOptimizationAgent.proposes(ctx), 0);
}

/// Law: the conflict-detection agent runs once.
pub proof fn lemma_conflict_detection_runs_once(ctx: Context, next: Context)
    requires
        ConflictDetectionAgent.runs_on(ctx),
        next.extends(ctx, ConflictDetectionAgent.proposes(ctx)),
    ensures
        !ConflictDetectionAgent.runs_on(next),
{
    lemma_added_fact(ctx, next, ConflictDetectionAgent.proposes(ctx), 0);
}

} // verus!
