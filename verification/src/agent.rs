//! Agents, invariants, and the queries they make over facts.
use crate::context::{fact_views, keyed, AgentEffect, Context, ContextKey, Fact, FactView};
use crate::text::{contains, str_contains, str_eq, str_starts_with};
use vstd::prelude::*;

verus! {

/// An agent reads the context and proposes facts.
///
/// `accepts` tells whether the agent wants to run on a context, and `execute`
/// computes what it proposes. Each agent states both exactly, as `runs_on`
/// and `proposes`.
pub trait Agent {
    /// Whether the agent runs on `ctx`.
    spec fn runs_on(&self, ctx: Context) -> bool;

    /// The facts the agent proposes on `ctx`, in order.
    spec fn proposes(&self, ctx: Context) -> Seq<FactView>;

    fn name(&self) -> &'static str;

    fn dependencies(&self) -> Vec<ContextKey>;

    fn accepts(&self, ctx: &Context) -> (r: bool)
        ensures
            r == self.runs_on(*ctx),
    ;

    fn execute(&self, ctx: &Context) -> (r: AgentEffect)
        ensures
            r@ == self.proposes(*ctx),
    ;
}

/// When an invariant is checked.
#[derive(Clone, Copy, PartialEq, Eq, Structural, Debug)]
pub enum InvariantClass {
    /// Checked after every merge.
    Structure,
    /// Checked at the end of each cycle.
    Semantic,
    /// Checked when the context has converged.
    Acceptance,
}

/// Why an invariant does not hold, and the facts involved.
#[derive(Clone, Debug, PartialEq, Eq)]
pub struct Violation {
    pub reason: String,
    pub fact_ids: Vec<String>,
}

impl Violation {
    /// A violation that names no fact.
    pub fn new(reason: String) -> (r: Violation)
        ensures
            r.reason@ == reason@,
            r.fact_ids@.len() == 0,
    {
        Violation { reason, fact_ids: Vec::new() }
    }

    /// A violation that names one fact.
    pub fn with_fact(reason: String, id: String) -> (r: Violation)
        ensures
            r.reason@ == reason@,
            r.fact_ids@.len() == 1,
            r.fact_ids@[0]@ == id@,
    {
        let mut ids: Vec<String> = Vec::new();
        ids.push(id);
        Violation { reason, fact_ids: ids }
    }
}

/// The outcome of checking an invariant.
#[derive(Clone, Debug, PartialEq, Eq)]
pub enum InvariantResult {
    Holds,
    Violated(Violation),
}

/// The mathematical value of an invariant outcome: the reason and the ids of
/// the facts a violation names.
pub enum Verdict {
    Pass,
    Fail(Seq<char>, Seq<Seq<char>>),
}

/// A violation naming no fact.
pub open spec fn broken(reason: Seq<char>) -> Verdict {
    Verdict::Fail(reason, seq![])
}

/// A violation naming one fact.
pub open spec fn broken_at(reason: Seq<char>, id: Seq<char>) -> Verdict {
    Verdict::Fail(reason, seq![id])
}

impl View for InvariantResult {
    type V = Verdict;

    open spec fn view(&self) -> Verdict {
        match self {
            InvariantResult::Holds => Verdict::Pass,
            InvariantResult::Violated(v) => Verdict::Fail(
                v.reason@,
                v.fact_ids@.map_values(|s: String| s@),
            ),
        }
    }
}

impl InvariantResult {
    /// A violation naming no fact.
    pub fn violated(reason: String) -> (r: InvariantResult)
        ensures
            r@ == broken(reason@),
    {
        let v = Violation::new(reason);
        let r = InvariantResult::Violated(v);
        assert(v.fact_ids@.map_values(|s: String| s@) =~= Seq::<Seq<char>>::empty());
        r
    }

    /// A violation naming one fact.
    pub fn violated_at(reason: String, id: String) -> (r: InvariantResult)
        ensures
            r@ == broken_at(reason@, id@),
    {
        let ghost idv = id@;
        let v = Violation::with_fact(reason, id);
        let r = InvariantResult::Violated(v);
        assert(v.fact_ids@.map_values(|s: String| s@) =~= seq![idv]);
        r
    }

    /// Whether the invariant holds.
    pub fn is_ok(&self) -> (r: bool)
        ensures
            r == (self@ == Verdict::Pass),
    {
        match self {
            InvariantResult::Holds => true,
            InvariantResult::Violated(_) => false,
        }
    }
}

/// A property of the context that must hold at the checkpoint of its class.
pub trait Invariant {
    /// What checking `ctx` finds.
    spec fn verdict(&self, ctx: Context) -> Verdict;

    fn name(&self) -> &'static str;

    fn class(&self) -> InvariantClass;

    fn check(&self, ctx: &Context) -> (r: InvariantResult)
        ensures
            r@ == self.verdict(*ctx),
    ;
}

// ---------------------------------------------------------------------------
// Queries over facts
// ---------------------------------------------------------------------------

/// Facts whose id starts with `p`.
pub open spec fn id_prefix(p: Seq<char>) -> spec_fn(Fact) -> bool {
    |f: Fact| p.is_prefix_of(f.id@)
}

/// Facts whose id is `id`.
pub open spec fn id_is(id: Seq<char>) -> spec_fn(Fact) -> bool {
    |f: Fact| f.id@ == id
}

/// Facts whose id contains `p`.
pub open spec fn id_has(p: Seq<char>) -> spec_fn(Fact) -> bool {
    |f: Fact| contains(f.id@, p)
}

/// Facts whose content contains `p`.
pub open spec fn content_has(p: Seq<char>) -> spec_fn(Fact) -> bool {
    |f: Fact| contains(f.content@, p)
}

/// Facts whose content does not contain `p`.
pub open spec fn content_lacks(p: Seq<char>) -> spec_fn(Fact) -> bool {
    |f: Fact| !contains(f.content@, p)
}

/// Some fact satisfies `pred`.
pub open spec fn any(fs: Seq<Fact>, pred: spec_fn(Fact) -> bool) -> bool {
    exists|i: int| 0 <= i < fs.len() && pred(#[trigger] fs[i])
}

/// `i` is the first index whose fact satisfies `pred`.
pub open spec fn is_first(fs: Seq<Fact>, pred: spec_fn(Fact) -> bool, i: int) -> bool {
    0 <= i < fs.len() && pred(fs[i]) && forall|j: int| 0 <= j < i ==> !pred(#[trigger] fs[j])
}

/// The first fact satisfying `pred`, as `Iterator::find`.
pub open spec fn find(fs: Seq<Fact>, pred: spec_fn(Fact) -> bool) -> Option<Fact> {
    if exists|i: int| is_first(fs, pred, i) {
        Some(fs[choose|i: int| is_first(fs, pred, i)])
    } else {
        None
    }
}

/// The number of facts satisfying `pred`.
pub open spec fn count(fs: Seq<Fact>, pred: spec_fn(Fact) -> bool) -> nat {
    fs.filter(pred).len()
}

pub proof fn lemma_first_unique(fs: Seq<Fact>, pred: spec_fn(Fact) -> bool, i: int, k: int)
    requires
        is_first(fs, pred, i),
        is_first(fs, pred, k),
    ensures
        i == k,
{
    if i < k {
        assert(!pred(fs[i]));
    } else if k < i {
        assert(!pred(fs[k]));
    }
}

pub proof fn lemma_find_none(fs: Seq<Fact>, pred: spec_fn(Fact) -> bool)
    requires
        !any(fs, pred),
    ensures
        find(fs, pred) is None,
{
    if exists|i: int| is_first(fs, pred, i) {
        let i = choose|i: int| is_first(fs, pred, i);
        assert(pred(fs[i]));
    }
}

/// Some fact satisfying `pred` at or before index `i` comes first.
proof fn lemma_first_exists(fs: Seq<Fact>, pred: spec_fn(Fact) -> bool, i: int)
    requires
        0 <= i < fs.len(),
        pred(fs[i]),
    ensures
        exists|k: int| is_first(fs, pred, k),
    decreases i,
{
    if exists|j: int| 0 <= j < i && pred(#[trigger] fs[j]) {
        let j = choose|j: int| 0 <= j < i && pred(#[trigger] fs[j]);
        lemma_first_exists(fs, pred, j);
    } else {
        assert(is_first(fs, pred, i));
    }
}

/// When some fact satisfies `pred`, `find` gives one that does.
pub proof fn lemma_find_some(fs: Seq<Fact>, pred: spec_fn(Fact) -> bool)
    requires
        any(fs, pred),
    ensures
        find(fs, pred) is Some,
        pred(find(fs, pred)->0),
{
    let i = choose|i: int| 0 <= i < fs.len() && pred(#[trigger] fs[i]);
    lemma_first_exists(fs, pred, i);
    let k = choose|k: int| is_first(fs, pred, k);
    assert(is_first(fs, pred, k));
}

/// A fact added to a context is then stored under its key.
pub proof fn lemma_added_fact(before: Context, after: Context, added: Seq<FactView>, i: int)
    requires
        after.extends(before, added),
        0 <= i < added.len(),
    ensures
        exists|m: int|
            0 <= m < after.facts(added[i].key).len() && (#[trigger] after.facts(
                added[i].key,
            )[m])@ == added[i],
{
    let k = added[i].key;
    added.lemma_filter_contains(keyed(k), i);
    let f = added.filter(keyed(k));
    let j = choose|j: int| 0 <= j < f.len() && f[j] == added[i];
    let b = fact_views(before.facts(k));
    assert(fact_views(after.facts(k)) == b + f);
    let m = b.len() + j;
    assert(fact_views(after.facts(k))[m] == added[i]);
    assert(after.facts(k)[m]@ == added[i]);
}

/// A fact added to a context with an id that starts with `p` makes a fact
/// under its key with such an id exist.
pub proof fn lemma_added_prefixed(
    before: Context,
    after: Context,
    added: Seq<FactView>,
    i: int,
    p: Seq<char>,
)
    requires
        after.extends(before, added),
        0 <= i < added.len(),
        p.is_prefix_of(added[i].id),
    ensures
        any(after.facts(added[i].key), id_prefix(p)),
        after.facts(added[i].key).len() > 0,
{
    lemma_added_fact(before, after, added, i);
    let k = added[i].key;
    let m = choose|m: int| 0 <= m < after.facts(k).len() && (#[trigger] after.facts(k)[m])@ == added[i];
    assert(id_prefix(p)(after.facts(k)[m]));
}

/// When some fact satisfies `pred`, filtering by `pred` keeps one, first.
pub proof fn lemma_any_filter(fs: Seq<Fact>, pred: spec_fn(Fact) -> bool)
    requires
        any(fs, pred),
    ensures
        fs.filter(pred).len() > 0,
        pred(fs.filter(pred)[0]),
{
    let i = choose|i: int| 0 <= i < fs.len() && pred(#[trigger] fs[i]);
    fs.lemma_filter_contains(pred, i);
    fs.lemma_filter_pred(pred, 0);
}

/// A test on a fact against a text pattern.
#[derive(Clone, Copy, PartialEq, Eq, Structural, Debug)]
pub enum FactTest {
    /// The id starts with the pattern.
    IdPrefix,
    /// The id is the pattern.
    IdIs,
    /// The id contains the pattern.
    IdHas,
    /// The content contains the pattern.
    ContentHas,
    /// The content does not contain the pattern.
    ContentLacks,
}

/// The facts that pass `t` against `p`.
pub open spec fn test_pred(t: FactTest, p: Seq<char>) -> spec_fn(Fact) -> bool {
    match t {
        FactTest::IdPrefix => id_prefix(p),
        FactTest::IdIs => id_is(p),
        FactTest::IdHas => id_has(p),
        FactTest::ContentHas => content_has(p),
        FactTest::ContentLacks => content_lacks(p),
    }
}

/// Whether `f` passes `t` against `p`.
pub fn passes(f: &Fact, t: FactTest, p: &str) -> (r: bool)
    ensures
        r == test_pred(t, p@)(*f),
{
    match t {
        FactTest::IdPrefix => str_starts_with(f.id.as_str(), p),
        FactTest::IdIs => str_eq(f.id.as_str(), p),
        FactTest::IdHas => str_contains(f.id.as_str(), p),
        FactTest::ContentHas => str_contains(f.content.as_str(), p),
        FactTest::ContentLacks => !str_contains(f.content.as_str(), p),
    }
}

/// The index of the first fact that passes `t` against `p`.
pub fn position(fs: &Vec<Fact>, t: FactTest, p: &str) -> (r: Option<usize>)
    ensures
        match r {
            Some(i) => is_first(fs@, test_pred(t, p@), i as int) && find(fs@, test_pred(t, p@))
                == Some(fs@[i as int]),
            None => !any(fs@, test_pred(t, p@)) && find(fs@, test_pred(t, p@)) is None,
        },
{
    let ghost pred = test_pred(t, p@);
    let n = fs.len();
    let mut i: usize = 0;
    while i < n
        invariant
            n == fs.len(),
            i <= n,
            pred == test_pred(t, p@),
            forall|j: int| 0 <= j < i ==> !pred(#[trigger] fs@[j]),
        decreases n - i,
    {
        if passes(&fs[i], t, p) {
            proof {
                assert(is_first(fs@, pred, i as int));
                let k = choose|k: int| is_first(fs@, pred, k);
                lemma_first_unique(fs@, pred, i as int, k);
            }
            return Some(i);
        }
        i = i + 1;
    }
    proof {
        lemma_find_none(fs@, pred);
    }
    None
}

/// Whether some fact passes `t` against `p`.
pub fn exists_fact(fs: &Vec<Fact>, t: FactTest, p: &str) -> (r: bool)
    ensures
        r == any(fs@, test_pred(t, p@)),
{
    position(fs, t, p).is_some()
}

/// The number of facts that pass `t` against `p`.
pub fn count_facts(fs: &Vec<Fact>, t: FactTest, p: &str) -> (r: usize)
    ensures
        r == count(fs@, test_pred(t, p@)),
{
    let ghost pred = test_pred(t, p@);
    let n = fs.len();
    let mut i: usize = 0;
    let mut c: usize = 0;
    while i < n
        invariant
            n == fs.len(),
            i <= n,
            c <= i,
            pred == test_pred(t, p@),
            c == fs@.take(i as int).filter(pred).len(),
        decreases n - i,
    {
        let b = passes(&fs[i], t, p);
        proof {
            assert(fs@.take(i + 1) =~= fs@.take(i as int).push(fs@[i as int]));
            fs@.take(i as int).lemma_filter_push(fs@[i as int], pred);
            fs@.take(i as int).lemma_filter_len(pred);
        }
        if b {
            c = c + 1;
        }
        i = i + 1;
    }
    assert(fs@.take(n as int) =~= fs@);
    c
}

/// The facts that pass `t` against `p`, in order.
pub fn filter_facts(fs: &Vec<Fact>, t: FactTest, p: &str) -> (r: Vec<Fact>)
    ensures
        r@ == fs@.filter(test_pred(t, p@)),
{
    let ghost pred = test_pred(t, p@);
    let n = fs.len();
    let mut out: Vec<Fact> = Vec::new();
    let mut i: usize = 0;
    while i < n
        invariant
            n == fs.len(),
            i <= n,
            pred == test_pred(t, p@),
            out@ == fs@.take(i as int).filter(pred),
        decreases n - i,
    {
        let b = passes(&fs[i], t, p);
        proof {
            assert(fs@.take(i + 1) =~= fs@.take(i as int).push(fs@[i as int]));
            fs@.take(i as int).lemma_filter_push(fs@[i as int], pred);
        }
        if b {
            out.push(fs[i].duplicate());
        }
        i = i + 1;
    }
    assert(fs@.take(n as int) =~= fs@);
    out
}

/// Facts that pass both tests.
pub open spec fn both(t1: FactTest, p1: Seq<char>, t2: FactTest, p2: Seq<char>) -> spec_fn(
    Fact,
) -> bool {
    |f: Fact| test_pred(t1, p1)(f) && test_pred(t2, p2)(f)
}

/// The index of the first fact that passes both tests.
pub fn position_both(fs: &Vec<Fact>, t1: FactTest, p1: &str, t2: FactTest, p2: &str) -> (r: Option<
    usize,
>)
    ensures
        match r {
            Some(i) => is_first(fs@, both(t1, p1@, t2, p2@), i as int) && find(
                fs@,
                both(t1, p1@, t2, p2@),
            ) == Some(fs@[i as int]),
            None => !any(fs@, both(t1, p1@, t2, p2@)) && find(fs@, both(t1, p1@, t2, p2@)) is None,
        },
{
    let ghost pred = both(t1, p1@, t2, p2@);
    let n = fs.len();
    let mut i: usize = 0;
    while i < n
        invariant
            n == fs.len(),
            i <= n,
            pred == both(t1, p1@, t2, p2@),
            forall|j: int| 0 <= j < i ==> !pred(#[trigger] fs@[j]),
        decreases n - i,
    {
        if passes(&fs[i], t1, p1) && passes(&fs[i], t2, p2) {
            proof {
                assert(is_first(fs@, pred, i as int));
                let k = choose|k: int| is_first(fs@, pred, k);
                lemma_first_unique(fs@, pred, i as int, k);
            }
            return Some(i);
        }
        i = i + 1;
    }
    proof {
        lemma_find_none(fs@, pred);
    }
    None
}

/// The index of the first fact that `f` accepts, where `f` decides `pred`.
pub(crate) fn position_by<F: Fn(&Fact) -> bool>(
    fs: &Vec<Fact>,
    f: F,
    Ghost(pred): Ghost<spec_fn(Fact) -> bool>,
) -> (r: Option<usize>)
    requires
        forall|x: &Fact| #[trigger] f.requires((x,)),
        forall|x: &Fact, b: bool| f.ensures((x,), b) ==> b == pred(*x),
    ensures
        match r {
            Some(i) => is_first(fs@, pred, i as int) && find(fs@, pred) == Some(fs@[i as int]),
            None => !any(fs@, pred) && find(fs@, pred) is None,
        },
{
    let n = fs.len();
    let mut i: usize = 0;
    while i < n
        invariant
            n == fs.len(),
            i <= n,
            forall|x: &Fact| #[trigger] f.requires((x,)),
            forall|x: &Fact, b: bool| f.ensures((x,), b) ==> b == pred(*x),
            forall|j: int| 0 <= j < i ==> !pred(#[trigger] fs@[j]),
        decreases n - i,
    {
        if f(&fs[i]) {
            proof {
                assert(is_first(fs@, pred, i as int));
                let k = choose|k: int| is_first(fs@, pred, k);
                lemma_first_unique(fs@, pred, i as int, k);
            }
            return Some(i);
        }
        i = i + 1;
    }
    proof {
        lemma_find_none(fs@, pred);
    }
    None
}

/// The number of facts that `f` accepts, where `f` decides `pred`.
pub(crate) fn count_by<F: Fn(&Fact) -> bool>(
    fs: &Vec<Fact>,
    f: F,
    Ghost(pred): Ghost<spec_fn(Fact) -> bool>,
) -> (r: usize)
    requires
        forall|x: &Fact| #[trigger] f.requires((x,)),
        forall|x: &Fact, b: bool| f.ensures((x,), b) ==> b == pred(*x),
    ensures
        r == count(fs@, pred),
{
    let n = fs.len();
    let mut i: usize = 0;
    let mut c: usize = 0;
    while i < n
        invariant
            n == fs.len(),
            i <= n,
            c <= i,
            forall|x: &Fact| #[trigger] f.requires((x,)),
            forall|x: &Fact, b: bool| f.ensures((x,), b) ==> b == pred(*x),
            c == fs@.take(i as int).filter(pred).len(),
        decreases n - i,
    {
        let b = f(&fs[i]);
        proof {
            assert(fs@.take(i + 1) =~= fs@.take(i as int).push(fs@[i as int]));
            fs@.take(i as int).lemma_filter_push(fs@[i as int], pred);
            fs@.take(i as int).lemma_filter_len(pred);
        }
        if b {
            c = c + 1;
        }
        i = i + 1;
    }
    assert(fs@.take(n as int) =~= fs@);
    c
}

} // verus!
