//! Resource routing agents: task allocation with a greedy solver.
//!
//! ```text
//! Seeds (tasks, resources)
//!    │
//!    ▼
//! TaskRetrievalAgent → Signals (task definitions)
//! ResourceRetrievalAgent → Signals (resource definitions)
//!    │
//!    ▼
//! ConstraintValidationAgent → Constraints (capacity, objective)
//!    │
//!    ▼
//! SolverAgent → Strategies (candidate assignments)
//!    │
//!    ▼
//! FeasibilityAgent → Evaluations (valid assignments ranked)
//! ```
use crate::agent::{
    any, broken, broken_at, content_has, content_lacks, count, count_facts, exists_fact,
    filter_facts, find, id_is, id_prefix, is_first, lemma_find_none, lemma_first_unique,
    position, position_by, Agent, FactTest, Invariant, InvariantClass, InvariantResult, Verdict,
};
use crate::context::{
    fact_views, fv, lemma_rows_done, lemma_rows_step, lemma_take_push, push_fact, AgentEffect,
    Context, ContextKey, Fact, FactView,
};
use crate::text::{
    before, before_str, contains, dec, nth, parse_usize, parse_usize_str, push_dec, split,
    split_nth, split_trimmed, str_contains, str_eq, strip_prefix_or, strip_prefix_or_str, trim,
    trim_str, trimmed_pieces, views, word_nth, words,
};
use crate::agent::{lemma_added_fact, lemma_added_prefixed};
use crate::context::{keyed, lemma_flatten_all};
use crate::text::{
    is_ws, lacks, occurs_at, lemma_dec_lacks, lemma_prefix_of_concat, lemma_split_on_char, lemma_trim_padded,
    lemma_trimmed_pieces_nonempty,
};
use vstd::prelude::*;

verus! {


// ---------------------------------------------------------------------------
// Task retrieval
// ---------------------------------------------------------------------------

/// Extracts tasks from the seeds.
pub struct TaskRetrievalAgent;

/// The `i`-th task parsed from the seed.
pub open spec fn task_fact(i: int, task: Seq<char>) -> FactView {
    fv(
        ContextKey::Signals,
        "task:"@ + dec((i + 1) as nat),
        "Task "@ + dec((i + 1) as nat) + ": "@ + task + " | Priority: "@ + (if i == 0 {
            "High"@
        } else {
            "Medium"@
        }) + " | Duration: "@ + dec(((i + 1) * 30) as nat) + " min"@,
    )
}

/// The tasks listed by the `tasks` seed, or two default tasks.
pub open spec fn task_facts(seeds: Seq<Fact>) -> Seq<FactView> {
    match find(seeds, id_is("tasks"@)) {
        Some(seed) => trimmed_pieces(seed.content@, ","@).map(|i: int, t: Seq<char>| task_fact(i, t)),
        None => seq![
            fv(
                ContextKey::Signals,
                "task:1"@,
                "Task 1: Delivery A | Priority: High | Duration: 30 min"@,
            ),
            fv(
                ContextKey::Signals,
                "task:2"@,
                "Task 2: Delivery B | Priority: Medium | Duration: 60 min"@,
            ),
        ],
    }
}

impl Agent for TaskRetrievalAgent {
    fn name(&self) -> (r: &'static str)
        ensures
            r@ == "TaskRetrievalAgent"@,
    {
        "TaskRetrievalAgent"
    }

    fn dependencies(&self) -> (r: Vec<ContextKey>)
        ensures
            r@ == seq![ContextKey::Seeds],
    {
        vec![ContextKey::Seeds]
    }

    /// Runs once: when a seed mentions tasks and no task signal exists yet.
    open spec fn runs_on(&self, ctx: Context) -> bool {
        ((any(ctx.facts(ContextKey::Seeds), id_is("tasks"@)) || any(
            ctx.facts(ContextKey::Seeds),
            content_has("task"@),
        )) && !any(ctx.facts(ContextKey::Signals), id_prefix("task:"@)))
    }

    fn accepts(&self, ctx: &Context) -> (r: bool) {
        let seeds = ctx.get(ContextKey::Seeds);
        let has_seed = exists_fact(seeds, FactTest::IdIs, "tasks") || exists_fact(
            seeds,
            FactTest::ContentHas,
            "task",
        );
        has_seed && !exists_fact(ctx.get(ContextKey::Signals), FactTest::IdPrefix, "task:")
    }

    open spec fn proposes(&self, ctx: Context) -> Seq<FactView> {
        task_facts(ctx.facts(ContextKey::Seeds))
    }

    #[verifier::loop_isolation(false)]
    fn execute(&self, ctx: &Context) -> (r: AgentEffect) {
        let seeds = ctx.get(ContextKey::Seeds);
        let mut facts: Vec<Fact> = Vec::new();
        match position(seeds, FactTest::IdIs, "tasks") {
            Some(k) => {
                proof {
                    reveal_strlit(",");
                }
                let items = split_trimmed(seeds[k].content.as_str(), ",");
                let ghost spec = trimmed_pieces(seeds@[k as int].content@, ","@).map(
                    |i: int, t: Seq<char>| task_fact(i, t),
                );
                let n = items.len();
                let mut i: usize = 0;
                while i < n
                    invariant
                        n == items.len(),
                        i <= n,
                        spec.len() == n,
                        fact_views(facts@) == spec.take(i as int),
                    decreases n - i,
                {
                    let mut id = String::from_str("task:");
                    push_dec(&mut id, i as u128 + 1);
                    let mut c = String::from_str("Task ");
                    push_dec(&mut c, i as u128 + 1);
                    c.append(": ");
                    c.append(items[i].as_str());
                    c.append(" | Priority: ");
                    c.append(
                        if i == 0 {
                            "High"
                        } else {
                            "Medium"
                        },
                    );
                    c.append(" | Duration: ");
                    push_dec(&mut c, (i as u128 + 1) * 30);
                    c.append(" min");
                    let f = Fact::from_strings(ContextKey::Signals, id, c);
                    proof {
                        assert(views(items@)[i as int] == items@[i as int]@);
                        assert(f@ == spec[i as int]);
                        lemma_take_push(spec, i as int);
                    }
                    push_fact(&mut facts, f);
                    i = i + 1;
                }
                assert(spec.take(n as int) =~= spec);
            },
            None => {
                push_fact(
                    &mut facts,
                    Fact::new(
                        ContextKey::Signals,
                        "task:1",
                        "Task 1: Delivery A | Priority: High | Duration: 30 min",
                    ),
                );
                push_fact(
                    &mut facts,
                    Fact::new(
                        ContextKey::Signals,
                        "task:2",
                        "Task 2: Delivery B | Priority: Medium | Duration: 60 min",
                    ),
                );
                assert(fact_views(facts@) =~= task_facts(seeds@));
            },
        }
        AgentEffect::with_facts(facts)
    }
}

// ---------------------------------------------------------------------------
// Resource retrieval
// ---------------------------------------------------------------------------

/// Extracts resources from the seeds.
pub struct ResourceRetrievalAgent;

/// Seeds that describe resources.
pub open spec fn resource_seed() -> spec_fn(Fact) -> bool {
    |f: Fact|
        f.id@ == "resources"@ || contains(f.content@, "resource"@) || contains(
            f.content@,
            "vehicle"@,
        )
}

/// Whether a seed describes resources.
pub fn is_resource_seed(f: &Fact) -> (r: bool)
    ensures
        r == resource_seed()(*f),
{
    str_eq(f.id.as_str(), "resources") || str_contains(f.content.as_str(), "resource")
        || str_contains(f.content.as_str(), "vehicle")
}

/// The `i`-th resource parsed from the seed.
pub open spec fn resource_fact(i: int, resource: Seq<char>) -> FactView {
    fv(
        ContextKey::Signals,
        "resource:"@ + dec((i + 1) as nat),
        "Resource "@ + dec((i + 1) as nat) + ": "@ + resource + " | Capacity: "@ + (if i == 0 {
            "3"@
        } else {
            "2"@
        }) + " tasks | Status: Available"@,
    )
}

/// The resources listed by the first resource seed, or two default vehicles.
pub open spec fn resource_facts(seeds: Seq<Fact>) -> Seq<FactView> {
    match find(seeds, resource_seed()) {
        Some(seed) => trimmed_pieces(seed.content@, ","@).map(
            |i: int, t: Seq<char>| resource_fact(i, t),
        ),
        None => seq![
            fv(
                ContextKey::Signals,
                "resource:1"@,
                "Resource 1: Vehicle 1 | Capacity: 3 tasks | Status: Available"@,
            ),
            fv(
                ContextKey::Signals,
                "resource:2"@,
                "Resource 2: Vehicle 2 | Capacity: 2 tasks | Status: Available"@,
            ),
        ],
    }
}

impl Agent for ResourceRetrievalAgent {
    fn name(&self) -> (r: &'static str)
        ensures
            r@ == "ResourceRetrievalAgent"@,
    {
        "ResourceRetrievalAgent"
    }

    fn dependencies(&self) -> (r: Vec<ContextKey>)
        ensures
            r@ == seq![ContextKey::Seeds],
    {
        vec![ContextKey::Seeds]
    }

    /// Runs once: when a seed describes resources and no resource signal exists yet.
    open spec fn runs_on(&self, ctx: Context) -> bool {
        (any(ctx.facts(ContextKey::Seeds), resource_seed()) && !any(
            ctx.facts(ContextKey::Signals),
            id_prefix("resource:"@),
        ))
    }

    fn accepts(&self, ctx: &Context) -> (r: bool) {
        let has_seed = position_by(
            ctx.get(ContextKey::Seeds),
            is_resource_seed,
            Ghost(resource_seed()),
        ).is_some();
        has_seed && !exists_fact(ctx.get(ContextKey::Signals), FactTest::IdPrefix, "resource:")
    }

    open spec fn proposes(&self, ctx: Context) -> Seq<FactView> {
        resource_facts(ctx.facts(ContextKey::Seeds))
    }

    #[verifier::loop_isolation(false)]
    fn execute(&self, ctx: &Context) -> (r: AgentEffect) {
        let seeds = ctx.get(ContextKey::Seeds);
        let mut facts: Vec<Fact> = Vec::new();
        match position_by(seeds, is_resource_seed, Ghost(resource_seed())) {
            Some(k) => {
                proof {
                    reveal_strlit(",");
                }
                let items = split_trimmed(seeds[k].content.as_str(), ",");
                let ghost spec = trimmed_pieces(seeds@[k as int].content@, ","@).map(
                    |i: int, t: Seq<char>| resource_fact(i, t),
                );
                let n = items.len();
                let mut i: usize = 0;
                while i < n
                    invariant
                        n == items.len(),
                        i <= n,
                        spec.len() == n,
                        fact_views(facts@) == spec.take(i as int),
                    decreases n - i,
                {
                    let mut id = String::from_str("resource:");
                    push_dec(&mut id, i as u128 + 1);
                    let mut c = String::from_str("Resource ");
                    push_dec(&mut c, i as u128 + 1);
                    c.append(": ");
                    c.append(items[i].as_str());
                    c.append(" | Capacity: ");
                    c.append(
                        if i == 0 {
                            "3"
                        } else {
                            "2"
                        },
                    );
                    c.append(" tasks | Status: Available");
                    let f = Fact::from_strings(ContextKey::Signals, id, c);
                    proof {
                        assert(views(items@)[i as int] == items@[i as int]@);
                        assert(f@ == spec[i as int]);
                        lemma_take_push(spec, i as int);
                    }
                    push_fact(&mut facts, f);
                    i = i + 1;
                }
                assert(spec.take(n as int) =~= spec);
            },
            None => {
                push_fact(
                    &mut facts,
                    Fact::new(
                        ContextKey::Signals,
                        "resource:1",
                        "Resource 1: Vehicle 1 | Capacity: 3 tasks | Status: Available",
                    ),
                );
                push_fact(
                    &mut facts,
                    Fact::new(
                        ContextKey::Signals,
                        "resource:2",
                        "Resource 2: Vehicle 2 | Capacity: 2 tasks | Status: Available",
                    ),
                );
                assert(fact_views(facts@) =~= resource_facts(seeds@));
            },
        }
        AgentEffect::with_facts(facts)
    }
}

// ---------------------------------------------------------------------------
// Constraint validation
// ---------------------------------------------------------------------------

/// Derives capacity, objective and feasibility constraints.
pub struct ConstraintValidationAgent;

/// The constraints for the task and resource signals.
pub open spec fn routing_constraints(signals: Seq<Fact>) -> Seq<FactView> {
    seq![
        fv(
            ContextKey::Constraints,
            "constraint:capacity"@,
            "Capacity constraint: "@ + dec(count(signals, id_prefix("task:"@)))
                + " tasks must be assigned to "@ + dec(count(signals, id_prefix("resource:"@)))
                + " resources"@,
        ),
        fv(
            ContextKey::Constraints,
            "constraint:objective"@,
            "Objective: Minimize total delivery time"@,
        ),
        fv(
            ContextKey::Constraints,
            "constraint:feasibility"@,
            "All tasks must be assigned | No resource exceeds capacity"@,
        ),
    ]
}

impl Agent for ConstraintValidationAgent {
    fn name(&self) -> (r: &'static str)
        ensures
            r@ == "ConstraintValidationAgent"@,
    {
        "ConstraintValidationAgent"
    }

    fn dependencies(&self) -> (r: Vec<ContextKey>)
        ensures
            r@ == seq![ContextKey::Signals],
    {
        vec![ContextKey::Signals]
    }

    /// Runs once: when tasks and resources exist and no constraint does.
    open spec fn runs_on(&self, ctx: Context) -> bool {
        (any(ctx.facts(ContextKey::Signals), id_prefix("task:"@)) && any(
            ctx.facts(ContextKey::Signals),
            id_prefix("resource:"@),
        ) && ctx.facts(ContextKey::Constraints).len() == 0)
    }

    fn accepts(&self, ctx: &Context) -> (r: bool) {
        let signals = ctx.get(ContextKey::Signals);
        exists_fact(signals, FactTest::IdPrefix, "task:") && exists_fact(
            signals,
            FactTest::IdPrefix,
            "resource:",
        ) && !ctx.has(ContextKey::Constraints)
    }

    open spec fn proposes(&self, ctx: Context) -> Seq<FactView> {
        routing_constraints(ctx.facts(ContextKey::Signals))
    }

    fn execute(&self, ctx: &Context) -> (r: AgentEffect) {
        let signals = ctx.get(ContextKey::Signals);
        let tasks = count_facts(signals, FactTest::IdPrefix, "task:");
        let resources = count_facts(signals, FactTest::IdPrefix, "resource:");
        let mut c = String::from_str("Capacity constraint: ");
        push_dec(&mut c, tasks as u128);
        c.append(" tasks must be assigned to ");
        push_dec(&mut c, resources as u128);
        c.append(" resources");
        let mut facts: Vec<Fact> = Vec::new();
        push_fact(
            &mut facts,
            Fact::from_strings(ContextKey::Constraints, String::from_str("constraint:capacity"), c),
        );
        push_fact(
            &mut facts,
            Fact::new(
                ContextKey::Constraints,
                "constraint:objective",
                "Objective: Minimize total delivery time",
            ),
        );
        push_fact(
            &mut facts,
            Fact::new(
                ContextKey::Constraints,
                "constraint:feasibility",
                "All tasks must be assigned | No resource exceeds capacity",
            ),
        );
        let r = AgentEffect::with_facts(facts);
        assert(r@ =~= routing_constraints(signals@));
        r
    }
}

// ---------------------------------------------------------------------------
// Solver
// ---------------------------------------------------------------------------

/// Greedily assigns each task to the least-loaded resource with spare capacity.
pub struct SolverAgent;

/// The capacity a resource states after `Capacity: `, or `default`.
pub open spec fn capacity_of(content: Seq<char>, default: nat) -> nat {
    match nth(split(content, "Capacity: "@), 1) {
        Some(t) => match nth(words(t), 0) {
            Some(w) => match parse_usize(w) {
                Some(v) => v,
                None => default,
            },
            None => default,
        },
        None => default,
    }
}

/// The capacity a resource states after `Capacity: `, or `default`.
pub fn read_capacity(content: &str, default: usize) -> (r: usize)
    ensures
        r as nat == capacity_of(content@, default as nat),
{
    proof {
        reveal_strlit("Capacity: ");
    }
    match split_nth(content, "Capacity: ", 1) {
        Some(t) => match word_nth(t.as_str(), 0) {
            Some(w) => match parse_usize_str(w.as_str()) {
                Some(v) => v,
                None => default,
            },
            None => default,
        },
        None => default,
    }
}

/// Resource `r` has spare capacity.
pub open spec fn eligible(loads: Seq<nat>, caps: Seq<nat>, r: int) -> bool {
    0 <= r < loads.len() && r < caps.len() && loads[r] < caps[r]
}

/// `r` is the least-loaded resource with spare capacity, the first among equals.
pub open spec fn is_pick(loads: Seq<nat>, caps: Seq<nat>, r: int) -> bool {
    &&& eligible(loads, caps, r)
    &&& forall|q: int|
        eligible(loads, caps, q) ==> loads[r] < loads[q] || (loads[r] == loads[q] && r <= q)
}

/// The resource the next task goes to, if any has spare capacity.
pub open spec fn pick(loads: Seq<nat>, caps: Seq<nat>) -> Option<int> {
    if exists|r: int| is_pick(loads, caps, r) {
        Some(choose|r: int| is_pick(loads, caps, r))
    } else {
        None
    }
}

/// The task's number, after `task:`.
pub open spec fn task_key(t: Fact) -> Seq<char> {
    strip_prefix_or(t.id@, "task:"@, "unknown"@)
}

/// The resource's number, after `resource:`.
pub open spec fn resource_key(r: Fact) -> Seq<char> {
    strip_prefix_or(r.id@, "resource:"@, "unknown"@)
}

/// An assignment of a task to a resource.
pub open spec fn assignment_fact(
    n: nat,
    task: Seq<char>,
    resource: Seq<char>,
    load: nat,
    cap: nat,
) -> FactView {
    fv(
        ContextKey::Strategies,
        "assignment:"@ + dec(n),
        "Assignment "@ + dec(n) + ": "@ + task + " → "@ + resource + " | Load: "@ + dec(load)
            + "/"@ + dec(cap),
    )
}

/// The loads and assignments after the greedy pass over `tasks`.
pub open spec fn solver_run(tasks: Seq<Fact>, resources: Seq<Fact>) -> (Seq<nat>, Seq<FactView>)
    decreases tasks.len(),
{
    let caps = resources.map_values(|r: Fact| capacity_of(r.content@, 2));
    if tasks.len() == 0 {
        (Seq::new(resources.len(), |i: int| 0nat), seq![])
    } else {
        let (loads, out) = solver_run(tasks.drop_last(), resources);
        match pick(loads, caps) {
            Some(r) => {
                let l2 = loads.update(r, loads[r] + 1);
                (
                    l2,
                    out.push(
                        assignment_fact(
                            out.len() + 1,
                            task_key(tasks.last()),
                            resource_key(resources[r]),
                            l2[r],
                            caps[r],
                        ),
                    ),
                )
            },
            None => (loads, out),
        }
    }
}

/// The assignments proposed, or the infeasibility note when none was possible.
pub open spec fn solver_assignments(signals: Seq<Fact>) -> Seq<FactView> {
    let tasks = signals.filter(id_prefix("task:"@));
    let resources = signals.filter(id_prefix("resource:"@));
    let out = solver_run(tasks, resources).1;
    if out.len() == 0 {
        seq![
            fv(
                ContextKey::Strategies,
                "assignment:infeasible"@,
                "Assignment: INFEASIBLE | Reason: Insufficient capacity"@,
            ),
        ]
    } else {
        out
    }
}

pub proof fn lemma_solver_run_shape(tasks: Seq<Fact>, resources: Seq<Fact>)
    ensures
        solver_run(tasks, resources).0.len() == resources.len(),
        solver_run(tasks, resources).1.len() <= tasks.len(),
        forall|q: int|
            0 <= q < resources.len() ==> #[trigger] solver_run(tasks, resources).0[q]
                <= tasks.len(),
    decreases tasks.len(),
{
    if tasks.len() > 0 {
        lemma_solver_run_shape(tasks.drop_last(), resources);
        let caps = resources.map_values(|r: Fact| capacity_of(r.content@, 2));
        let (loads, out) = solver_run(tasks.drop_last(), resources);
        match pick(loads, caps) {
            Some(r) => {
                let k = choose|k: int| is_pick(loads, caps, k);
                assert(is_pick(loads, caps, k));
            },
            None => {},
        }
    }
}

impl Agent for SolverAgent {
    fn name(&self) -> (r: &'static str)
        ensures
            r@ == "SolverAgent"@,
    {
        "SolverAgent"
    }

    fn dependencies(&self) -> (r: Vec<ContextKey>)
        ensures
            r@ == seq![ContextKey::Constraints, ContextKey::Signals],
    {
        vec![ContextKey::Constraints, ContextKey::Signals]
    }

    /// Runs once: when constraints exist and no assignment does.
    open spec fn runs_on(&self, ctx: Context) -> bool {
        (ctx.facts(ContextKey::Constraints).len() > 0 && ctx.facts(
            ContextKey::Strategies,
        ).len() == 0)
    }

    fn accepts(&self, ctx: &Context) -> (r: bool) {
        ctx.has(ContextKey::Constraints) && !ctx.has(ContextKey::Strategies)
    }

    open spec fn proposes(&self, ctx: Context) -> Seq<FactView> {
        solver_assignments(ctx.facts(ContextKey::Signals))
    }

    #[verifier::loop_isolation(false)]
    fn execute(&self, ctx: &Context) -> (r: AgentEffect) {
        let signals = ctx.get(ContextKey::Signals);
        let tasks = filter_facts(signals, FactTest::IdPrefix, "task:");
        let resources = filter_facts(signals, FactTest::IdPrefix, "resource:");
        let ghost caps_spec = resources@.map_values(|r: Fact| capacity_of(r.content@, 2));
        let m = resources.len();
        // Capacities and loads, per resource.
        let mut caps: Vec<usize> = Vec::new();
        let mut loads: Vec<usize> = Vec::new();
        let mut q: usize = 0;
        while q < m
            invariant
                m == resources.len(),
                q <= m,
                caps@.len() == q,
                loads@.len() == q,
                forall|k: int| 0 <= k < q ==> caps@[k] as nat == caps_spec[k],
                forall|k: int| 0 <= k < q ==> loads@[k] == 0,
            decreases m - q,
        {
            caps.push(read_capacity(resources[q].content.as_str(), 2));
            loads.push(0);
            q = q + 1;
        }
        let ghost nat_loads = |v: Seq<usize>| v.map_values(|x: usize| x as nat);
        assert(nat_loads(loads@) =~= solver_run(tasks@.take(0), resources@).0);
        let n = tasks.len();
        let mut facts: Vec<Fact> = Vec::new();
        let mut j: usize = 0;
        while j < n
            invariant
                n == tasks.len(),
                m == resources.len(),
                j <= n,
                caps@.len() == m,
                loads@.len() == m,
                forall|k: int| 0 <= k < m ==> caps@[k] as nat == caps_spec[k],
                nat_loads(loads@) == solver_run(tasks@.take(j as int), resources@).0,
                fact_views(facts@) == solver_run(tasks@.take(j as int), resources@).1,
                forall|k: int| 0 <= k < m ==> loads@[k] <= j,
            decreases n - j,
        {
            let ghost before = solver_run(tasks@.take(j as int), resources@);
            proof {
                lemma_solver_run_shape(tasks@.take(j as int), resources@);
                assert(tasks@.take(j + 1).drop_last() =~= tasks@.take(j as int));
                assert(tasks@.take(j + 1).last() == tasks@[j as int]);
            }
            // Find the least-loaded resource with spare capacity.
            let mut best: Option<usize> = None;
            let mut best_load: usize = usize::MAX;
            let mut r: usize = 0;
            while r < m
                invariant
                    m == resources.len(),
                    r <= m,
                    caps@.len() == m,
                    loads@.len() == m,
                    forall|k: int| 0 <= k < m ==> loads@[k] <= j,
                    j < n,
                    match best {
                        Some(b) => {
                            &&& b < r
                            &&& eligible(before.0, caps_spec, b as int)
                            &&& best_load == loads@[b as int]
                            &&& forall|k: int|
                                0 <= k < r && eligible(before.0, caps_spec, k) ==> before.0[b as int]
                                    < before.0[k] || (before.0[b as int] == before.0[k] && b <= k)
                        },
                        None => best_load == usize::MAX && forall|k: int|
                            0 <= k < r ==> !eligible(before.0, caps_spec, k),
                    },
                decreases m - r,
            {
                proof {
                    assert(before.0[r as int] == loads@[r as int] as nat);
                }
                if loads[r] < caps[r] && loads[r] < best_load {
                    best_load = loads[r];
                    best = Some(r);
                }
                r = r + 1;
            }
            match best {
                Some(b) => {
                    proof {
                        assert(is_pick(before.0, caps_spec, b as int));
                        let k = choose|k: int| is_pick(before.0, caps_spec, k);
                        assert(is_pick(before.0, caps_spec, k));
                        assert(k == b);
                    }
                    let nl = loads[b] + 1;
                    loads.set(b, nl);
                    let mut id = String::from_str("assignment:");
                    push_dec(&mut id, facts.len() as u128 + 1);
                    let task_id = strip_prefix_or_str(tasks[j].id.as_str(), "task:", "unknown");
                    let res_id = strip_prefix_or_str(
                        resources[b].id.as_str(),
                        "resource:",
                        "unknown",
                    );
                    let mut c = String::from_str("Assignment ");
                    push_dec(&mut c, facts.len() as u128 + 1);
                    c.append(": ");
                    c.append(task_id.as_str());
                    c.append(" → ");
                    c.append(res_id.as_str());
                    c.append(" | Load: ");
                    push_dec(&mut c, nl as u128);
                    c.append("/");
                    push_dec(&mut c, caps[b] as u128);
                    let f = Fact::from_strings(ContextKey::Strategies, id, c);
                    proof {
                        assert(fact_views(facts@).len() == facts@.len());
                    }
                    push_fact(&mut facts, f);
                    proof {
                        assert(nat_loads(loads@) =~= before.0.update(b as int, before.0[b as int] + 1));
                    }
                },
                None => {
                    proof {
                        assert(pick(before.0, caps_spec) is None) by {
                            if exists|k: int| is_pick(before.0, caps_spec, k) {
                                let k = choose|k: int| is_pick(before.0, caps_spec, k);
                                assert(eligible(before.0, caps_spec, k));
                            }
                        }
                    }
                },
            }
            j = j + 1;
        }
        assert(tasks@.take(n as int) =~= tasks@);
        if facts.len() == 0 {
            push_fact(
                &mut facts,
                Fact::new(
                    ContextKey::Strategies,
                    "assignment:infeasible",
                    "Assignment: INFEASIBLE | Reason: Insufficient capacity",
                ),
            );
        }
        let r = AgentEffect::with_facts(facts);
        assert(r@ =~= solver_assignments(signals@));
        r
    }
}

// ---------------------------------------------------------------------------
// Feasibility
// ---------------------------------------------------------------------------

/// Checks feasibility and ranks the assignments.
pub struct FeasibilityAgent;

/// The score and rationale of an assignment.
pub open spec fn assignment_score(content: Seq<char>, all_assigned: bool) -> (nat, Seq<char>) {
    if !all_assigned {
        (50, "Partial assignment, not all tasks assigned"@)
    } else if contains(content, "Load: 1/"@) || contains(content, "Load: 2/"@) {
        (95, "Optimal assignment with balanced resource utilization"@)
    } else if contains(content, "Load: 3/"@) {
        (85, "Good assignment, resource fully utilized"@)
    } else {
        (75, "Valid assignment within capacity constraints"@)
    }
}

/// Scores an assignment by its load.
pub fn evaluate_assignment(content: &str, all_assigned: bool) -> (r: (u64, &'static str))
    ensures
        r.0 as nat == assignment_score(content@, all_assigned).0,
        r.1@ == assignment_score(content@, all_assigned).1,
{
    if !all_assigned {
        (50, "Partial assignment, not all tasks assigned")
    } else if str_contains(content, "Load: 1/") || str_contains(content, "Load: 2/") {
        (95, "Optimal assignment with balanced resource utilization")
    } else if str_contains(content, "Load: 3/") {
        (85, "Good assignment, resource fully utilized")
    } else {
        (75, "Valid assignment within capacity constraints")
    }
}

/// The evaluation of the `i`-th strategy, when it is a feasible assignment.
pub open spec fn assignment_row(i: int, a: Fact, all_assigned: bool) -> Seq<FactView> {
    if contains(a.content@, "INFEASIBLE"@) {
        seq![]
    } else {
        let (score, rationale) = assignment_score(a.content@, all_assigned);
        seq![
            fv(
                ContextKey::Evaluations,
                "eval:"@ + strip_prefix_or(a.id@, "assignment:"@, a.id@),
                "Score: "@ + dec(score) + "/100 | "@ + (if i == 0 && all_assigned {
                    "FEASIBLE"@
                } else {
                    "PARTIAL"@
                }) + " | Rationale: "@ + rationale,
            ),
        ]
    }
}

/// The evaluations of the assignments against the tasks.
pub open spec fn feasibility_evaluations(strategies: Seq<Fact>, signals: Seq<Fact>) -> Seq<FactView> {
    let tasks = count(signals, id_prefix("task:"@));
    let assigned = count(strategies, content_lacks("INFEASIBLE"@));
    if assigned < tasks {
        seq![
            fv(
                ContextKey::Evaluations,
                "eval:infeasible"@,
                "Score: 0/100 | INFEASIBLE | Rationale: Only "@ + dec(assigned) + "/"@ + dec(tasks)
                    + " tasks assigned"@,
            ),
        ]
    } else {
        let rows = strategies.map(|i: int, a: Fact| assignment_row(i, a, assigned == tasks));
        if rows.flatten().len() == 0 {
            seq![
                fv(
                    ContextKey::Evaluations,
                    "eval:unknown"@,
                    "Score: 0/100 | UNKNOWN | Rationale: Unable to evaluate assignments"@,
                ),
            ]
        } else {
            rows.flatten()
        }
    }
}

impl Agent for FeasibilityAgent {
    fn name(&self) -> (r: &'static str)
        ensures
            r@ == "FeasibilityAgent"@,
    {
        "FeasibilityAgent"
    }

    fn dependencies(&self) -> (r: Vec<ContextKey>)
        ensures
            r@ == seq![ContextKey::Strategies, ContextKey::Constraints],
    {
        vec![ContextKey::Strategies, ContextKey::Constraints]
    }

    /// Runs once: when assignments exist and no evaluation does.
    open spec fn runs_on(&self, ctx: Context) -> bool {
        (ctx.facts(ContextKey::Strategies).len() > 0 && ctx.facts(
            ContextKey::Evaluations,
        ).len() == 0)
    }

    fn accepts(&self, ctx: &Context) -> (r: bool) {
        ctx.has(ContextKey::Strategies) && !ctx.has(ContextKey::Evaluations)
    }

    open spec fn proposes(&self, ctx: Context) -> Seq<FactView> {
        feasibility_evaluations(
            ctx.facts(ContextKey::Strategies),
            ctx.facts(ContextKey::Signals),
        )
    }

    #[verifier::loop_isolation(false)]
    fn execute(&self, ctx: &Context) -> (r: AgentEffect) {
        let strategies = ctx.get(ContextKey::Strategies);
        let signals = ctx.get(ContextKey::Signals);
        let tasks = count_facts(signals, FactTest::IdPrefix, "task:");
        let assigned = count_facts(strategies, FactTest::ContentLacks, "INFEASIBLE");
        let mut facts: Vec<Fact> = Vec::new();
        if assigned < tasks {
            let mut c = String::from_str("Score: 0/100 | INFEASIBLE | Rationale: Only ");
            push_dec(&mut c, assigned as u128);
            c.append("/");
            push_dec(&mut c, tasks as u128);
            c.append(" tasks assigned");
            push_fact(
                &mut facts,
                Fact::from_strings(ContextKey::Evaluations, String::from_str("eval:infeasible"), c),
            );
            let r = AgentEffect::with_facts(facts);
            assert(r@ =~= feasibility_evaluations(strategies@, signals@));
            return r;
        }
        let all = assigned == tasks;
        let ghost rows = strategies@.map(|i: int, a: Fact| assignment_row(i, a, all));
        let n = strategies.len();
        let mut i: usize = 0;
        while i < n
            invariant
                n == strategies.len(),
                i <= n,
                rows.len() == n,
                fact_views(facts@) == rows.take(i as int).flatten(),
            decreases n - i,
        {
            let a = &strategies[i];
            proof {
                lemma_rows_step(rows, i as int);
            }
            if !str_contains(a.content.as_str(), "INFEASIBLE") {
                let (score, rationale) = evaluate_assignment(a.content.as_str(), all);
                let mut id = String::from_str("eval:");
                let key = strip_prefix_or_str(a.id.as_str(), "assignment:", a.id.as_str());
                id.append(key.as_str());
                let mut c = String::from_str("Score: ");
                push_dec(&mut c, score as u128);
                c.append("/100 | ");
                c.append(
                    if i == 0 && all {
                        "FEASIBLE"
                    } else {
                        "PARTIAL"
                    },
                );
                c.append(" | Rationale: ");
                c.append(rationale);
                let f = Fact::from_strings(ContextKey::Evaluations, id, c);
                push_fact(&mut facts, f);
                proof {
                    assert(rows[i as int] == seq![f@]);
                    assert(fact_views(facts@) =~= rows.take(i as int).flatten() + rows[i as int]);
                }
            } else {
                proof {
                    assert(rows[i as int] =~= Seq::<FactView>::empty());
                    assert(fact_views(facts@) =~= rows.take(i as int).flatten() + rows[i as int]);
                }
            }
            i = i + 1;
        }
        proof {
            lemma_rows_done(rows, n as int);
        }
        if facts.len() == 0 {
            push_fact(
                &mut facts,
                Fact::new(
                    ContextKey::Evaluations,
                    "eval:unknown",
                    "Score: 0/100 | UNKNOWN | Rationale: Unable to evaluate assignments",
                ),
            );
        }
        let r = AgentEffect::with_facts(facts);
        assert(r@ =~= feasibility_evaluations(strategies@, signals@));
        r
    }
}

// ---------------------------------------------------------------------------
// Invariants
// ---------------------------------------------------------------------------

/// Acceptance: every task is assigned.
pub struct RequireAllTasksAssigned;

pub open spec fn all_tasks_assigned_verdict(signals: Seq<Fact>, strategies: Seq<Fact>) -> Verdict {
    let tasks = count(signals, id_prefix("task:"@));
    let assigned = count(strategies, content_lacks("INFEASIBLE"@));
    if assigned < tasks {
        broken("only "@ + dec(assigned) + "/"@ + dec(tasks) + " tasks assigned"@)
    } else {
        Verdict::Pass
    }
}

impl Invariant for RequireAllTasksAssigned {
    fn name(&self) -> (r: &'static str)
        ensures
            r@ == "require_all_tasks_assigned"@,
    {
        "require_all_tasks_assigned"
    }

    fn class(&self) -> (r: InvariantClass)
        ensures
            r == InvariantClass::Acceptance,
    {
        InvariantClass::Acceptance
    }

    open spec fn verdict(&self, ctx: Context) -> Verdict {
        all_tasks_assigned_verdict(
            ctx.facts(ContextKey::Signals),
            ctx.facts(ContextKey::Strategies),
        )
    }

    fn check(&self, ctx: &Context) -> (r: InvariantResult) {
        let tasks = count_facts(ctx.get(ContextKey::Signals), FactTest::IdPrefix, "task:");
        let assigned = count_facts(
            ctx.get(ContextKey::Strategies),
            FactTest::ContentLacks,
            "INFEASIBLE",
        );
        if assigned < tasks {
            let mut c = String::from_str("only ");
            push_dec(&mut c, assigned as u128);
            c.append("/");
            push_dec(&mut c, tasks as u128);
            c.append(" tasks assigned");
            return InvariantResult::violated(c);
        }
        InvariantResult::Holds
    }
}

/// Semantic: no resource carries more assignments than its capacity.
pub struct RequireCapacityRespected;

/// The resource an assignment names: the text after `→`, up to `|`, trimmed.
pub open spec fn assigned_resource(content: Seq<char>) -> Option<Seq<char>> {
    match nth(split(content, "→"@), 1) {
        Some(part) => Some(trim(before(part, "|"@))),
        None => None,
    }
}

/// The resource an assignment names.
pub fn read_assigned_resource(content: &str) -> (r: Option<String>)
    ensures
        match r {
            Some(t) => assigned_resource(content@) == Some(t@),
            None => assigned_resource(content@) is None,
        },
{
    proof {
        reveal_strlit("→");
        reveal_strlit("|");
    }
    match split_nth(content, "→", 1) {
        Some(part) => {
            let b = before_str(part.as_str(), "|");
            Some(trim_str(b.as_str()))
        },
        None => None,
    }
}

/// Feasible assignments that name resource `id`.
pub open spec fn assigned_to(id: Seq<char>) -> spec_fn(Fact) -> bool {
    |f: Fact| !contains(f.content@, "INFEASIBLE"@) && assigned_resource(f.content@) == Some(id)
}

/// The first resource whose assignments exceed its capacity, if any.
pub open spec fn capacity_verdict(resources: Seq<Fact>, strategies: Seq<Fact>) -> Verdict
    decreases resources.len(),
{
    if resources.len() == 0 {
        Verdict::Pass
    } else {
        let r = resources[0];
        let key = resource_key(r);
        let cap = capacity_of(r.content@, 0);
        let load = count(strategies, assigned_to(key));
        if load > cap {
            broken_at(
                "resource "@ + key + " exceeds capacity: "@ + dec(load) + "/"@ + dec(cap),
                r.id@,
            )
        } else {
            capacity_verdict(resources.drop_first(), strategies)
        }
    }
}

/// The number of feasible assignments naming resource `id`.
fn load_of(strategies: &Vec<Fact>, id: &str) -> (r: usize)
    ensures
        r == count(strategies@, assigned_to(id@)),
{
    let ghost pred = assigned_to(id@);
    let n = strategies.len();
    let mut i: usize = 0;
    let mut c: usize = 0;
    while i < n
        invariant
            n == strategies.len(),
            i <= n,
            c <= i,
            pred == assigned_to(id@),
            c == strategies@.take(i as int).filter(pred).len(),
        decreases n - i,
    {
        let s = &strategies[i];
        let b = if str_contains(s.content.as_str(), "INFEASIBLE") {
            false
        } else {
            match read_assigned_resource(s.content.as_str()) {
                Some(t) => str_eq(t.as_str(), id),
                None => false,
            }
        };
        proof {
            assert(b == pred(strategies@[i as int]));
            assert(strategies@.take(i + 1) =~= strategies@.take(i as int).push(strategies@[i as int]));
            strategies@.take(i as int).lemma_filter_push(strategies@[i as int], pred);
            strategies@.take(i as int).lemma_filter_len(pred);
        }
        if b {
            c = c + 1;
        }
        i = i + 1;
    }
    assert(strategies@.take(n as int) =~= strategies@);
    c
}

impl Invariant for RequireCapacityRespected {
    fn name(&self) -> (r: &'static str)
        ensures
            r@ == "require_capacity_respected"@,
    {
        "require_capacity_respected"
    }

    fn class(&self) -> (r: InvariantClass)
        ensures
            r == InvariantClass::Semantic,
    {
        InvariantClass::Semantic
    }

    open spec fn verdict(&self, ctx: Context) -> Verdict {
        capacity_verdict(
            ctx.facts(ContextKey::Signals).filter(id_prefix("resource:"@)),
            ctx.facts(ContextKey::Strategies),
        )
    }

    #[verifier::loop_isolation(false)]
    fn check(&self, ctx: &Context) -> (r: InvariantResult) {
        let resources = filter_facts(ctx.get(ContextKey::Signals), FactTest::IdPrefix, "resource:");
        let strategies = ctx.get(ContextKey::Strategies);
        let n = resources.len();
        let mut i: usize = 0;
        assert(resources@.skip(0) =~= resources@);
        while i < n
            invariant
                n == resources.len(),
                i <= n,
                capacity_verdict(resources@, strategies@) == capacity_verdict(
                    resources@.skip(i as int),
                    strategies@,
                ),
            decreases n - i,
        {
            let res = &resources[i];
            proof {
                assert(resources@.skip(i as int)[0] == *res);
            }
            let key = strip_prefix_or_str(res.id.as_str(), "resource:", "unknown");
            let cap = read_capacity(res.content.as_str(), 0);
            let load = load_of(strategies, key.as_str());
            if load > cap {
                let mut c = String::from_str("resource ");
                c.append(key.as_str());
                c.append(" exceeds capacity: ");
                push_dec(&mut c, load as u128);
                c.append("/");
                push_dec(&mut c, cap as u128);
                return InvariantResult::violated_at(c, res.id.clone());
            }
            proof {
                assert(resources@.skip(i as int).drop_first() =~= resources@.skip(i + 1));
            }
            i = i + 1;
        }
        assert(resources@.skip(n as int) =~= Seq::<Fact>::empty());
        InvariantResult::Holds
    }
}

/// Structural: once tasks or resources are defined, both are.
///
/// Given tasks and resources are defined, the definitions are valid: a
/// context that defines neither has nothing to judge yet.
pub struct RequireValidDefinitions;

pub open spec fn definitions_verdict(signals: Seq<Fact>) -> Verdict {
    if count(signals, id_prefix("task:"@)) == 0 && count(signals, id_prefix("resource:"@)) == 0 {
        Verdict::Pass
    } else if count(signals, id_prefix("task:"@)) == 0 {
        broken("no tasks defined"@)
    } else if count(signals, id_prefix("resource:"@)) == 0 {
        broken("no resources defined"@)
    } else {
        Verdict::Pass
    }
}

impl Invariant for RequireValidDefinitions {
    fn name(&self) -> (r: &'static str)
        ensures
            r@ == "require_valid_definitions"@,
    {
        "require_valid_definitions"
    }

    fn class(&self) -> (r: InvariantClass)
        ensures
            r == InvariantClass::Structure,
    {
        InvariantClass::Structure
    }

    open spec fn verdict(&self, ctx: Context) -> Verdict {
        definitions_verdict(ctx.facts(ContextKey::Signals))
    }

    fn check(&self, ctx: &Context) -> (r: InvariantResult) {
        let signals = ctx.get(ContextKey::Signals);
        let tasks = count_facts(signals, FactTest::IdPrefix, "task:");
        let resources = count_facts(signals, FactTest::IdPrefix, "resource:");
        if tasks == 0 && resources == 0 {
            return InvariantResult::Holds;
        }
        if tasks == 0 {
            return InvariantResult::violated(String::from_str("no tasks defined"));
        }
        if resources == 0 {
            return InvariantResult::violated(String::from_str("no resources defined"));
        }
        InvariantResult::Holds
    }
}

// ---------------------------------------------------------------------------
// Laws: the solver
// ---------------------------------------------------------------------------

/// The capacities of the resources (2 when unstated).
pub open spec fn resource_caps(resources: Seq<Fact>) -> Seq<nat> {
    resources.map_values(|r: Fact| capacity_of(r.content@, 2))
}

/// Law: the solver never gives a resource more tasks than its capacity, and
/// a task goes unassigned only when every resource is at capacity.
pub proof fn lemma_solver_respects_capacity(tasks: Seq<Fact>, resources: Seq<Fact>)
    ensures
        forall|q: int|
            0 <= q < resources.len() ==> #[trigger] solver_run(tasks, resources).0[q]
                <= resource_caps(resources)[q],
        solver_run(tasks, resources).1.len() < tasks.len() ==> forall|q: int|
            0 <= q < resources.len() ==> #[trigger] solver_run(tasks, resources).0[q]
                == resource_caps(resources)[q],
        solver_run(tasks, resources).1.len() <= tasks.len(),
    decreases tasks.len(),
{
    let caps = resource_caps(resources);
    lemma_solver_run_shape(tasks, resources);
    if tasks.len() > 0 {
        let prev = tasks.drop_last();
        lemma_solver_respects_capacity(prev, resources);
        lemma_solver_run_shape(prev, resources);
        let (loads, out) = solver_run(prev, resources);
        assert(caps == resources.map_values(|r: Fact| capacity_of(r.content@, 2)));
        match pick(loads, caps) {
            Some(r) => {
                let k = choose|k: int| is_pick(loads, caps, k);
                assert(is_pick(loads, caps, k));
                assert(eligible(loads, caps, r));
                if out.len() < prev.len() {
                    assert(loads[r] == caps[r]);
                }
            },
            None => {
                assert forall|q: int| 0 <= q < resources.len() implies loads[q] == caps[q] by {
                    if loads[q] < caps[q] {
                        lemma_some_pick(loads, caps, q);
                    }
                }
            },
        }
    } else {
        assert(solver_run(tasks, resources).0 =~= Seq::new(resources.len(), |i: int| 0nat));
    }
}

/// When some resource has spare capacity, one is picked.
proof fn lemma_some_pick(loads: Seq<nat>, caps: Seq<nat>, q: int)
    requires
        eligible(loads, caps, q),
    ensures
        pick(loads, caps) is Some,
{
    lemma_some_pick_from(loads, caps, q, loads[q] as int, q);
}

/// Descending from an eligible resource to one with a smaller load, or an
/// equal load and a smaller index, ends at the pick.
proof fn lemma_some_pick_from(loads: Seq<nat>, caps: Seq<nat>, q: int, l: int, i: int)
    requires
        eligible(loads, caps, q),
        loads[q] == l,
        q == i,
    ensures
        pick(loads, caps) is Some,
    decreases l, i,
{
    if exists|q2: int| eligible(loads, caps, q2) && (loads[q2] < loads[q] || (loads[q2]
        == loads[q] && q2 < q)) {
        let q2 = choose|q2: int|
            eligible(loads, caps, q2) && (loads[q2] < loads[q] || (loads[q2] == loads[q] && q2
                < q));
        lemma_some_pick_from(loads, caps, q2, loads[q2] as int, q2);
    } else {
        assert(is_pick(loads, caps, q));
    }
}

// ---------------------------------------------------------------------------
// Laws: each agent runs once
// ---------------------------------------------------------------------------

/// The seeds always list at least one task.
pub proof fn lemma_task_facts_nonempty(seeds: Seq<Fact>)
    ensures
        task_facts(seeds).len() > 0,
        "task:"@.is_prefix_of(task_facts(seeds)[0].id),
{
    reveal_strlit("task:");
    reveal_strlit("task:1");
    match find(seeds, id_is("tasks"@)) {
        Some(seed) => {
            reveal_strlit(",");
            lemma_trimmed_pieces_nonempty(seed.content@, ","@);
            lemma_prefix_of_concat("task:"@, dec(1));
        },
        None => {
            assert("task:"@.is_prefix_of("task:1"@));
        },
    }
}

/// The seeds always list at least one resource.
pub proof fn lemma_resource_facts_nonempty(seeds: Seq<Fact>)
    ensures
        resource_facts(seeds).len() > 0,
        "resource:"@.is_prefix_of(resource_facts(seeds)[0].id),
{
    reveal_strlit("resource:");
    reveal_strlit("resource:1");
    match find(seeds, resource_seed()) {
        Some(seed) => {
            reveal_strlit(",");
            lemma_trimmed_pieces_nonempty(seed.content@, ","@);
            lemma_prefix_of_concat("resource:"@, dec(1));
        },
        None => {
            assert("resource:"@.is_prefix_of("resource:1"@));
        },
    }
}

/// The solver's assignments are all strategies.
pub proof fn lemma_solver_run_keys(tasks: Seq<Fact>, resources: Seq<Fact>)
    ensures
        forall|m: int|
            0 <= m < solver_run(tasks, resources).1.len() ==> (#[trigger] solver_run(
                tasks,
                resources,
            ).1[m]).key == ContextKey::Strategies,
    decreases tasks.len(),
{
    if tasks.len() > 0 {
        lemma_solver_run_keys(tasks.drop_last(), resources);
    }
}

/// Law: the task-retrieval agent runs once: once the signals it proposes on a
/// context it runs on are added, it does not run again.
pub proof fn lemma_task_retrieval_runs_once(ctx: Context, next: Context)
    requires
        TaskRetrievalAgent.runs_on(ctx),
        next.extends(ctx, TaskRetrievalAgent.proposes(ctx)),
    ensures
        !TaskRetrievalAgent.runs_on(next),
{
    lemma_task_facts_nonempty(ctx.facts(ContextKey::Seeds));
    lemma_added_prefixed(ctx, next, TaskRetrievalAgent.proposes(ctx), 0, "task:"@);
}

/// Law: the resource-retrieval agent runs once.
pub proof fn lemma_resource_retrieval_runs_once(ctx: Context, next: Context)
    requires
        ResourceRetrievalAgent.runs_on(ctx),
        next.extends(ctx, ResourceRetrievalAgent.proposes(ctx)),
    ensures
        !ResourceRetrievalAgent.runs_on(next),
{
    lemma_resource_facts_nonempty(ctx.facts(ContextKey::Seeds));
    lemma_added_prefixed(ctx, next, ResourceRetrievalAgent.proposes(ctx), 0, "resource:"@);
}

/// Law: the constraint-validation agent runs once.
pub proof fn lemma_constraint_validation_runs_once(ctx: Context, next: Context)
    requires
        ConstraintValidationAgent.runs_on(ctx),
        next.extends(ctx, ConstraintValidationAgent.proposes(ctx)),
    ensures
        !ConstraintValidationAgent.runs_on(next),
{
    lemma_added_fact(ctx, next, ConstraintValidationAgent.proposes(ctx), 0);
}

/// Law: the solver agent runs once.
pub proof fn lemma_solver_runs_once(ctx: Context, next: Context)
    requires
        SolverAgent.runs_on(ctx),
        next.extends(ctx, SolverAgent.proposes(ctx)),
    ensures
        !SolverAgent.runs_on(next),
{
    let signals = ctx.facts(ContextKey::Signals);
    lemma_solver_run_keys(
        signals.filter(id_prefix("task:"@)),
        signals.filter(id_prefix("resource:"@)),
    );
    lemma_added_fact(ctx, next, SolverAgent.proposes(ctx), 0);
}

/// Law: the feasibility agent runs once.
pub proof fn lemma_feasibility_runs_once(ctx: Context, next: Context)
    requires
        FeasibilityAgent.runs_on(ctx),
        next.extends(ctx, FeasibilityAgent.proposes(ctx)),
    ensures
        !FeasibilityAgent.runs_on(next),
{
    let strategies = ctx.facts(ContextKey::Strategies);
    let signals = ctx.facts(ContextKey::Signals);
    let tasks = count(signals, id_prefix("task:"@));
    let assigned = count(strategies, content_lacks("INFEASIBLE"@));
    let rows = strategies.map(|i: int, a: Fact| assignment_row(i, a, assigned == tasks));
    lemma_flatten_all(rows, keyed(ContextKey::Evaluations));
    lemma_added_fact(ctx, next, FeasibilityAgent.proposes(ctx), 0);
}

// ---------------------------------------------------------------------------
// Laws: assignments pass the capacity check
// ---------------------------------------------------------------------------

/// A resource key that an assignment names back: free of `→` and `|`, and
/// neither starting nor ending with whitespace.
pub open spec fn plain_key(k: Seq<char>) -> bool {
    &&& lacks(k, '→')
    &&& lacks(k, '|')
    &&& k.len() > 0 ==> !is_ws(k[0]) && !is_ws(k[k.len() - 1])
}

proof fn lemma_lacks_concat(x: Seq<char>, y: Seq<char>, c: char)
    requires
        lacks(x, c),
        lacks(y, c),
    ensures
        lacks(x + y, c),
{
    assert forall|j: int| 0 <= j < (x + y).len() implies #[trigger] (x + y)[j] != c by {
        if j < x.len() {
            assert((x + y)[j] == x[j]);
        } else {
            assert((x + y)[j] == y[j - x.len()]);
        }
    }
}

/// An assignment names back the resource it assigns the task to.
pub proof fn lemma_assignment_names_resource(
    n: nat,
    task: Seq<char>,
    res: Seq<char>,
    load: nat,
    cap: nat,
)
    requires
        lacks(task, '→'),
        plain_key(res),
    ensures
        assigned_resource(assignment_fact(n, task, res, load, cap).content) == Some(res),
{
    reveal_strlit("Assignment ");
    reveal_strlit(": ");
    reveal_strlit(" → ");
    reveal_strlit(" | Load: ");
    reveal_strlit("/");
    reveal_strlit("→");
    reveal_strlit("|");
    let c = assignment_fact(n, task, res, load, cap).content;
    lemma_dec_lacks(n, '→');
    lemma_dec_lacks(load, '→');
    lemma_dec_lacks(cap, '→');
    let lit1 = "Assignment "@;
    let lit2 = ": "@;
    assert(lacks(lit1, '→'));
    assert(lacks(lit2, '→'));
    assert(lacks(seq![' '], '→'));
    lemma_lacks_concat(lit1, dec(n), '→');
    lemma_lacks_concat(lit1 + dec(n), lit2, '→');
    lemma_lacks_concat(lit1 + dec(n) + lit2, task, '→');
    let a = lit1 + dec(n) + lit2 + task + seq![' '];
    lemma_lacks_concat(lit1 + dec(n) + lit2 + task, seq![' '], '→');
    let inner = seq![' '] + res + seq![' '];
    let lit3 = " Load: "@;
    reveal_strlit(" Load: ");
    let tail = lit3 + dec(load) + "/"@ + dec(cap);
    assert(lacks(lit3, '→'));
    assert(lacks("/"@, '→'));
    lemma_lacks_concat(lit3, dec(load), '→');
    lemma_lacks_concat(lit3 + dec(load), "/"@, '→');
    lemma_lacks_concat(lit3 + dec(load) + "/"@, dec(cap), '→');
    lemma_lacks_concat(seq![' '], res, '→');
    lemma_lacks_concat(seq![' '] + res, seq![' '], '→');
    assert(lacks(seq!['|'], '→'));
    lemma_lacks_concat(inner, seq!['|'], '→');
    lemma_lacks_concat(inner + seq!['|'], tail, '→');
    let b = inner + seq!['|'] + tail;
    assert(c =~= a + seq!['→'] + b);
    lemma_split_on_char(a, '→', b);
    assert("→"@ =~= seq!['→']);
    assert(split(c, "→"@) == seq![a, b]);
    lemma_lacks_concat(seq![' '], res, '|');
    lemma_lacks_concat(seq![' '] + res, seq![' '], '|');
    lemma_split_on_char(inner, '|', tail);
    assert("|"@ =~= seq!['|']);
    assert(b == inner + seq!['|'] + tail);
    assert(before(b, "|"@) == inner);
    lemma_trim_padded(res);
}

/// Assignments, as fact values, that name resource `id` and are feasible.
pub open spec fn names(id: Seq<char>) -> spec_fn(FactView) -> bool {
    |v: FactView| !contains(v.content, "INFEASIBLE"@) && assigned_resource(v.content) == Some(id)
}

/// No assignment names a resource more often than the solver loaded it.
proof fn lemma_solver_run_names(tasks: Seq<Fact>, resources: Seq<Fact>, q: int)
    requires
        0 <= q < resources.len(),
        forall|r: int| 0 <= r < resources.len() ==> plain_key(#[trigger] resource_key(resources[r])),
        forall|r1: int, r2: int|
            0 <= r1 < resources.len() && 0 <= r2 < resources.len() && r1 != r2 ==> resource_key(
                #[trigger] resources[r1],
            ) != resource_key(#[trigger] resources[r2]),
        forall|t: int| 0 <= t < tasks.len() ==> lacks(#[trigger] task_key(tasks[t]), '→'),
    ensures
        solver_run(tasks, resources).1.filter(names(resource_key(resources[q]))).len()
            <= solver_run(tasks, resources).0[q],
    decreases tasks.len(),
{
    lemma_solver_run_shape(tasks, resources);
    let pred = names(resource_key(resources[q]));
    if tasks.len() > 0 {
        let prev = tasks.drop_last();
        assert forall|t: int| 0 <= t < prev.len() implies lacks(#[trigger] task_key(prev[t]), '→') by {
            assert(prev[t] == tasks[t]);
        }
        lemma_solver_run_names(prev, resources, q);
        lemma_solver_run_shape(prev, resources);
        let caps = resources.map_values(|r: Fact| capacity_of(r.content@, 2));
        let (loads, out) = solver_run(prev, resources);
        match pick(loads, caps) {
            Some(r) => {
                let k = choose|k: int| is_pick(loads, caps, k);
                assert(is_pick(loads, caps, k));
                let l2 = loads.update(r, loads[r] + 1);
                let f = assignment_fact(
                    out.len() + 1,
                    task_key(tasks.last()),
                    resource_key(resources[r]),
                    l2[r],
                    caps[r],
                );
                assert(lacks(task_key(tasks[tasks.len() - 1]), '→'));
                assert(plain_key(resource_key(resources[r])));
                lemma_assignment_names_resource(
                    out.len() + 1,
                    task_key(tasks.last()),
                    resource_key(resources[r]),
                    l2[r],
                    caps[r],
                );
                out.lemma_filter_push(f, pred);
                if pred(f) {
                    assert(r == q);
                }
                assert(solver_run(tasks, resources).1 == out.push(f));
                assert(solver_run(tasks, resources).0 == l2);
            },
            None => {},
        }
    } else {
        assert(solver_run(tasks, resources).1.filter(pred) =~= Seq::<FactView>::empty());
    }
}

/// Counting facts by a test on their values counts their values.
proof fn lemma_count_views(fs: Seq<Fact>, p: spec_fn(Fact) -> bool, pv: spec_fn(FactView) -> bool)
    requires
        forall|f: Fact| #[trigger] p(f) == pv(f@),
    ensures
        fs.filter(p).len() == fact_views(fs).filter(pv).len(),
    decreases fs.len(),
{
    if fs.len() > 0 {
        let rest = fs.drop_last();
        lemma_count_views(rest, p, pv);
        assert(fs =~= rest.push(fs.last()));
        rest.lemma_filter_push(fs.last(), p);
        assert(fact_views(fs) =~= fact_views(rest).push(fs.last()@));
        fact_views(rest).lemma_filter_push(fs.last()@, pv);
    } else {
        assert(fs.filter(p) =~= Seq::<Fact>::empty());
        assert(fact_views(fs).filter(pv) =~= Seq::<FactView>::empty());
    }
}

/// The capacity check passes when no resource is loaded beyond what it
/// states.
proof fn lemma_capacity_pass(resources: Seq<Fact>, strategies: Seq<Fact>)
    requires
        forall|j: int|
            0 <= j < resources.len() ==> count(strategies, assigned_to(resource_key(#[trigger] resources[j])))
                <= capacity_of(resources[j].content@, 0),
    ensures
        capacity_verdict(resources, strategies) == Verdict::Pass,
    decreases resources.len(),
{
    if resources.len() > 0 {
        let rest = resources.drop_first();
        assert forall|j: int| 0 <= j < rest.len() implies count(
            strategies,
            assigned_to(resource_key(#[trigger] rest[j])),
        ) <= capacity_of(rest[j].content@, 0) by {
            assert(rest[j] == resources[j + 1]);
        }
        lemma_capacity_pass(rest, strategies);
        assert(count(strategies, assigned_to(resource_key(resources[0]))) <= capacity_of(
            resources[0].content@,
            0,
        ));
    }
}

/// A resource that states its capacity after `Capacity: `.
pub open spec fn states_capacity(content: Seq<char>) -> bool {
    match nth(split(content, "Capacity: "@), 1) {
        Some(t) => match nth(words(t), 0) {
            Some(w) => parse_usize(w) is Some,
            None => false,
        },
        None => false,
    }
}

/// Tasks and resources whose assignments read back: every resource states
/// its capacity, resources have distinct keys free of `→` and `|` that
/// neither start nor end with whitespace, and no task key holds `→` (as with
/// the ids `task:1` and `resource:1` that the retrieval agents give).
pub open spec fn assignable(signals: Seq<Fact>) -> bool {
    let tasks = signals.filter(id_prefix("task:"@));
    let resources = signals.filter(id_prefix("resource:"@));
    &&& forall|t: int| 0 <= t < tasks.len() ==> lacks(#[trigger] task_key(tasks[t]), '→')
    &&& forall|r: int|
        0 <= r < resources.len() ==> plain_key(#[trigger] resource_key(resources[r]))
            && states_capacity(resources[r].content@)
    &&& forall|r1: int, r2: int|
        0 <= r1 < resources.len() && 0 <= r2 < resources.len() && r1 != r2 ==> resource_key(
            #[trigger] resources[r1],
        ) != resource_key(#[trigger] resources[r2])
}

/// Law: once the solver's assignments are added to the context it ran on,
/// `RequireCapacityRespected` holds: no resource gets more tasks than it
/// states it can take.
///
/// The signals are those the solver read (adding its assignments leaves them
/// as they were). Where two resources share a key, a resource key holds `→`
/// or `|` or starts or ends with whitespace, or a task key holds `→`,
/// assignments do not read back to their resource and the check can count
/// them against another.
pub proof fn lemma_solver_passes_capacity_check(ctx: Context, next: Context)
    requires
        SolverAgent.runs_on(ctx),
        next.extends(ctx, SolverAgent.proposes(ctx)),
        next.facts(ContextKey::Signals) == ctx.facts(ContextKey::Signals),
        assignable(ctx.facts(ContextKey::Signals)),
    ensures
        RequireCapacityRespected.verdict(next) == Verdict::Pass,
{
    let signals = ctx.facts(ContextKey::Signals);
    let tasks = signals.filter(id_prefix("task:"@));
    let resources = signals.filter(id_prefix("resource:"@));
    let added = solver_assignments(signals);
    let strategies = next.facts(ContextKey::Strategies);
    let out = solver_run(tasks, resources).1;
    lemma_solver_run_keys(tasks, resources);
    lemma_solver_respects_capacity(tasks, resources);
    lemma_solver_run_shape(tasks, resources);
    reveal_strlit("Assignment: INFEASIBLE | Reason: Insufficient capacity");
    reveal_strlit("INFEASIBLE");
    let inf = "Assignment: INFEASIBLE | Reason: Insufficient capacity"@;
    assert(inf.subrange(12, 22) =~= "INFEASIBLE"@);
    assert(occurs_at(inf, "INFEASIBLE"@, 12));
    assert forall|j: int| 0 <= j < added.len() implies #[trigger] added[j].key
        == ContextKey::Strategies by {
        if out.len() > 0 {
            assert(added[j] == out[j]);
        }
    }
    crate::context::lemma_filter_all(added, keyed(ContextKey::Strategies));
    assert(fact_views(strategies) =~= added);
    assert forall|j: int|
        0 <= j < resources.len() implies count(
            strategies,
            assigned_to(resource_key(#[trigger] resources[j])),
        ) <= capacity_of(resources[j].content@, 0) by {
        let key = resource_key(resources[j]);
        lemma_count_views(strategies, assigned_to(key), names(key));
        lemma_solver_run_names(tasks, resources, j);
        if out.len() == 0 {
            assert(added =~= seq![fv(ContextKey::Strategies, "assignment:infeasible"@, inf)]);
            assert(!names(key)(added[0]));
            assert(added =~= seq![added[0]]);
            Seq::<FactView>::empty().lemma_filter_push(added[0], names(key));
            assert(added =~= Seq::<FactView>::empty().push(added[0]));
        }
        assert(resource_caps(resources)[j] == capacity_of(resources[j].content@, 2));
    }
    lemma_capacity_pass(resources, strategies);
}

} // verus!
