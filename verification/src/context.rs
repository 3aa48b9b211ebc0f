//! The shared context agents read from and the effects they emit.
//!
//! Facts live under typed keys. Agents never talk to each other: each reads
//! the facts under some keys and proposes new facts.
use vstd::prelude::*;

verus! {

/// The typed keys under which facts are stored.
#[derive(Clone, Copy, PartialEq, Eq, Structural, Debug, Hash)]
pub enum ContextKey {
    Seeds,
    Hypotheses,
    Strategies,
    Constraints,
    Signals,
    Competitors,
    Evaluations,
    Proposals,
    Diagnostic,
}

/// A fact: a piece of content under a key, identified by an id.
#[derive(Clone, Debug, PartialEq, Eq)]
pub struct Fact {
    pub key: ContextKey,
    pub id: String,
    pub content: String,
}

/// The mathematical value of a fact.
pub struct FactView {
    pub key: ContextKey,
    pub id: Seq<char>,
    pub content: Seq<char>,
}

/// The fact with the given key, id and content.
pub open spec fn fv(key: ContextKey, id: Seq<char>, content: Seq<char>) -> FactView {
    FactView { key, id, content }
}

impl View for Fact {
    type V = FactView;

    open spec fn view(&self) -> FactView {
        FactView { key: self.key, id: self.id@, content: self.content@ }
    }
}

/// The views of a sequence of facts.
pub open spec fn fact_views(s: Seq<Fact>) -> Seq<FactView> {
    s.map_values(|f: Fact| f@)
}

impl Fact {
    /// A fact with the given key, id and content.
    pub fn new(key: ContextKey, id: &str, content: &str) -> (r: Fact)
        ensures
            r@ == fv(key, id@, content@),
    {
        Fact { key, id: String::from_str(id), content: String::from_str(content) }
    }

    /// A copy of this fact.
    pub fn duplicate(&self) -> (r: Fact)
        ensures
            r == *self,
    {
        Fact { key: self.key, id: self.id.clone(), content: self.content.clone() }
    }

    /// A fact built from owned strings.
    pub fn from_strings(key: ContextKey, id: String, content: String) -> (r: Fact)
        ensures
            r@ == fv(key, id@, content@),
    {
        Fact { key, id, content }
    }
}

/// Appends a fact to a list under construction.
pub fn push_fact(out: &mut Vec<Fact>, f: Fact)
    ensures
        final(out)@ == old(out)@.push(f),
        fact_views(final(out)@) == fact_views(old(out)@).push(f@),
{
    let ghost prev = out@;
    out.push(f);
    assert(fact_views(out@) =~= fact_views(prev).push(f@));
}

/// The facts of each row, in row order.
pub proof fn lemma_rows_step(rows: Seq<Seq<FactView>>, i: int)
    requires
        0 <= i < rows.len(),
    ensures
        rows.take(i + 1).flatten() == rows.take(i).flatten() + rows[i],
{
    assert(rows.take(i + 1) =~= rows.take(i).push(rows[i]));
    rows.take(i).lemma_flatten_push(rows[i]);
}

pub proof fn lemma_rows_done(rows: Seq<Seq<FactView>>, n: int)
    requires
        n == rows.len(),
    ensures
        rows.take(n).flatten() == rows.flatten(),
{
    assert(rows.take(n) =~= rows);
}

pub proof fn lemma_take_push<A>(s: Seq<A>, i: int)
    requires
        0 <= i < s.len(),
    ensures
        s.take(i + 1) == s.take(i).push(s[i]),
{
    assert(s.take(i + 1) =~= s.take(i).push(s[i]));
}

/// What an agent proposes to add to the context.
#[derive(Clone, Debug)]
pub struct AgentEffect {
    pub facts: Vec<Fact>,
}

impl View for AgentEffect {
    type V = Seq<FactView>;

    open spec fn view(&self) -> Seq<FactView> {
        fact_views(self.facts@)
    }
}

impl AgentEffect {
    /// An effect that adds the given facts, in order.
    pub fn with_facts(facts: Vec<Fact>) -> (r: AgentEffect)
        ensures
            r.facts@ == facts@,
    {
        AgentEffect { facts }
    }

    /// An effect that adds nothing.
    pub fn empty() -> (r: AgentEffect)
        ensures
            r.facts@ == Seq::<Fact>::empty(),
    {
        AgentEffect { facts: Vec::new() }
    }
}

/// The shared context: for each key, the facts stored under it, in the order
/// they were added.
#[derive(Clone, Debug)]
pub struct Context {
    seeds: Vec<Fact>,
    hypotheses: Vec<Fact>,
    strategies: Vec<Fact>,
    constraints: Vec<Fact>,
    signals: Vec<Fact>,
    competitors: Vec<Fact>,
    evaluations: Vec<Fact>,
    proposals: Vec<Fact>,
    diagnostic: Vec<Fact>,
}

impl Context {
    /// The facts stored under `key`, in insertion order.
    pub closed spec fn facts(&self, key: ContextKey) -> Seq<Fact> {
        match key {
            ContextKey::Seeds => self.seeds@,
            ContextKey::Hypotheses => self.hypotheses@,
            ContextKey::Strategies => self.strategies@,
            ContextKey::Constraints => self.constraints@,
            ContextKey::Signals => self.signals@,
            ContextKey::Competitors => self.competitors@,
            ContextKey::Evaluations => self.evaluations@,
            ContextKey::Proposals => self.proposals@,
            ContextKey::Diagnostic => self.diagnostic@,
        }
    }

    /// Every fact is stored under its own key.
    pub open spec fn wf(&self) -> bool {
        forall|k: ContextKey, i: int|
            0 <= i < self.facts(k).len() ==> (#[trigger] self.facts(k)[i]).key == k
    }

    /// The empty context.
    pub fn new() -> (r: Context)
        ensures
            r.wf(),
            forall|k: ContextKey| #[trigger] r.facts(k) == Seq::<Fact>::empty(),
    {
        Context {
            seeds: Vec::new(),
            hypotheses: Vec::new(),
            strategies: Vec::new(),
            constraints: Vec::new(),
            signals: Vec::new(),
            competitors: Vec::new(),
            evaluations: Vec::new(),
            proposals: Vec::new(),
            diagnostic: Vec::new(),
        }
    }

    /// The facts stored under `key`.
    pub fn get(&self, key: ContextKey) -> (r: &Vec<Fact>)
        ensures
            r@ == self.facts(key),
    {
        match key {
            ContextKey::Seeds => &self.seeds,
            ContextKey::Hypotheses => &self.hypotheses,
            ContextKey::Strategies => &self.strategies,
            ContextKey::Constraints => &self.constraints,
            ContextKey::Signals => &self.signals,
            ContextKey::Competitors => &self.competitors,
            ContextKey::Evaluations => &self.evaluations,
            ContextKey::Proposals => &self.proposals,
            ContextKey::Diagnostic => &self.diagnostic,
        }
    }

    /// Whether any fact is stored under `key`.
    pub fn has(&self, key: ContextKey) -> (r: bool)
        ensures
            r == (self.facts(key).len() > 0),
    {
        self.get(key).len() > 0
    }

    /// Adds a fact under its own key, after the facts already there.
    pub fn add_fact(&mut self, fact: Fact)
        ensures
            final(self).facts(fact.key) == old(self).facts(fact.key).push(fact),
            forall|k: ContextKey| k != fact.key ==> #[trigger] final(self).facts(k) == old(self).facts(k),
            old(self).wf() ==> final(self).wf(),
    {
        let ghost k0 = fact.key;
        let ghost f0 = fact;
        match fact.key {
            ContextKey::Seeds => self.seeds.push(fact),
            ContextKey::Hypotheses => self.hypotheses.push(fact),
            ContextKey::Strategies => self.strategies.push(fact),
            ContextKey::Constraints => self.constraints.push(fact),
            ContextKey::Signals => self.signals.push(fact),
            ContextKey::Competitors => self.competitors.push(fact),
            ContextKey::Evaluations => self.evaluations.push(fact),
            ContextKey::Proposals => self.proposals.push(fact),
            ContextKey::Diagnostic => self.diagnostic.push(fact),
        }
        proof {
            if old(self).wf() {
                assert forall|k: ContextKey, i: int|
                    0 <= i < self.facts(k).len() implies (#[trigger] self.facts(k)[i]).key == k by {
                    if k == k0 && i == old(self).facts(k).len() {
                        assert(self.facts(k)[i] == f0);
                    } else {
                        assert(self.facts(k)[i] == old(self).facts(k)[i]);
                    }
                }
            }
        }
    }

    /// `self` is `before` with each fact of `added` stored under its key,
    /// after the facts already there.
    pub open spec fn extends(&self, before: Context, added: Seq<FactView>) -> bool {
        forall|k: ContextKey|
            #[trigger] fact_views(self.facts(k)) == fact_views(before.facts(k)) + added.filter(
                keyed(k),
            )
    }

    /// Adds every fact of an effect, in order.
    pub fn apply(&mut self, effect: AgentEffect)
        ensures
            old(self).wf() ==> final(self).wf(),
            forall|k: ContextKey|
                #[trigger] final(self).facts(k) == old(self).facts(k) + effect.facts@.filter(
                    |f: Fact| f.key == k,
                ),
            final(self).extends(*old(self), effect@),
    {
        let facts = effect.facts;
        let n = facts.len();
        let mut i: usize = 0;
        while i < n
            invariant
                n == facts.len(),
                i <= n,
                old(self).wf() ==> self.wf(),
                forall|k: ContextKey|
                    #[trigger] self.facts(k) == old(self).facts(k) + facts@.take(i as int).filter(
                        |f: Fact| f.key == k,
                    ),
            decreases n - i,
        {
            let f = facts[i].duplicate();
            let ghost before = *self;
            assert(f == facts@[i as int]);
            self.add_fact(f);
            proof {
                assert forall|k: ContextKey|
                    #[trigger] self.facts(k) == old(self).facts(k) + facts@.take(i + 1).filter(
                        |f: Fact| f.key == k,
                    ) by {
                    let p = |f: Fact| f.key == k;
                    assert(facts@.take(i + 1) =~= facts@.take(i as int).push(facts@[i as int]));
                    facts@.take(i as int).lemma_filter_push(facts@[i as int], p);
                }
            }
            i = i + 1;
        }
        assert(facts@.take(n as int) =~= facts@);
        proof {
            assert forall|k: ContextKey|
                #[trigger] fact_views(self.facts(k)) == fact_views(old(self).facts(k)) + fact_views(
                    facts@,
                ).filter(keyed(k)) by {
                let p = |f: Fact| f.key == k;
                lemma_views_filter(facts@, k);
                assert(fact_views(old(self).facts(k) + facts@.filter(p)) =~= fact_views(
                    old(self).facts(k),
                ) + fact_views(facts@.filter(p)));
            }
        }
    }
}

/// Facts stored under `k`.
pub open spec fn keyed(k: ContextKey) -> spec_fn(FactView) -> bool {
    |v: FactView| v.key == k
}

/// Filtering facts by key commutes with taking their views.
pub proof fn lemma_views_filter(fs: Seq<Fact>, k: ContextKey)
    ensures
        fact_views(fs.filter(|f: Fact| f.key == k)) == fact_views(fs).filter(keyed(k)),
    decreases fs.len(),
{
    let p = |f: Fact| f.key == k;
    if fs.len() > 0 {
        let rest = fs.drop_last();
        lemma_views_filter(rest, k);
        assert(fs =~= rest.push(fs.last()));
        rest.lemma_filter_push(fs.last(), p);
        fact_views(rest).lemma_filter_push(fs.last()@, keyed(k));
        assert(fact_views(fs) =~= fact_views(rest).push(fs.last()@));
        if p(fs.last()) {
            assert(fact_views(rest.filter(p).push(fs.last())) =~= fact_views(rest.filter(p)).push(
                fs.last()@,
            ));
        }
    } else {
        assert(fs.filter(p) =~= Seq::<Fact>::empty());
        assert(fact_views(fs).filter(keyed(k)) =~= Seq::<FactView>::empty());
    }
}

/// Filtering keeps everything when everything passes.
pub proof fn lemma_filter_all<A>(s: Seq<A>, pred: spec_fn(A) -> bool)
    requires
        forall|i: int| 0 <= i < s.len() ==> pred(#[trigger] s[i]),
    ensures
        s.filter(pred) == s,
    decreases s.len(),
{
    if s.len() > 0 {
        let rest = s.drop_last();
        assert forall|i: int| 0 <= i < rest.len() implies pred(#[trigger] rest[i]) by {
            assert(rest[i] == s[i]);
        }
        lemma_filter_all(rest, pred);
        assert(s =~= rest.push(s.last()));
        rest.lemma_filter_push(s.last(), pred);
    } else {
        assert(s.filter(pred) =~= s);
    }
}

/// What every fact of every row satisfies, every fact of the flattened rows
/// satisfies.
pub proof fn lemma_flatten_all(rows: Seq<Seq<FactView>>, pred: spec_fn(FactView) -> bool)
    requires
        forall|i: int, j: int|
            0 <= i < rows.len() && 0 <= j < rows[i].len() ==> pred(#[trigger] rows[i][j]),
    ensures
        forall|m: int| 0 <= m < rows.flatten().len() ==> pred(#[trigger] rows.flatten()[m]),
    decreases rows.len(),
{
    if rows.len() > 0 {
        let rest = rows.drop_first();
        assert forall|i: int, j: int| 0 <= i < rest.len() && 0 <= j < rest[i].len() implies pred(
            #[trigger] rest[i][j],
        ) by {
            assert(rest[i] == rows[i + 1]);
        }
        lemma_flatten_all(rest, pred);
        let f = rows.flatten();
        assert(f == rows[0] + rest.flatten());
        assert forall|m: int| 0 <= m < f.len() implies pred(#[trigger] f[m]) by {
            if m < rows[0].len() {
                assert(f[m] == rows[0][m]);
            } else {
                assert(f[m] == rest.flatten()[m - rows[0].len()]);
            }
        }
    }
}

/// Rows with a fact flatten to facts.
pub proof fn lemma_flatten_nonempty<A>(rows: Seq<Seq<A>>, i: int)
    requires
        0 <= i < rows.len(),
        rows[i].len() > 0,
    ensures
        rows.flatten().len() > 0,
    decreases rows.len(),
{
    if i > 0 {
        let rest = rows.drop_first();
        assert(rest[i - 1] == rows[i]);
        lemma_flatten_nonempty(rest, i - 1);
    }
}

/// Rows that all hold `w` items flatten to `w` items per row, the `j`-th
/// item of row `i` standing at `i * w + j`.
pub proof fn lemma_flatten_grid<A>(rows: Seq<Seq<A>>, w: int, i: int, j: int)
    requires
        forall|r: int| 0 <= r < rows.len() ==> (#[trigger] rows[r]).len() == w,
        0 <= i < rows.len(),
        0 <= j < w,
    ensures
        rows.flatten().len() == rows.len() * w,
        0 <= i * w + j < rows.flatten().len(),
        rows.flatten()[i * w + j] == rows[i][j],
    decreases rows.len(),
{
    let rest = rows.drop_first();
    assert forall|r: int| 0 <= r < rest.len() implies (#[trigger] rest[r]).len() == w by {
        assert(rest[r] == rows[r + 1]);
    }
    assert(rows.flatten() == rows[0] + rest.flatten());
    assert(rows.len() * w == w + rest.len() * w) by (nonlinear_arith)
        requires
            rest.len() == rows.len() - 1,
    ;
    if i == 0 {
        if rest.len() > 0 {
            lemma_flatten_grid(rest, w, 0, j);
        } else {
            assert(rest.flatten() =~= Seq::<A>::empty());
        }
        assert(rows.flatten()[j] == rows[0][j]);
    } else {
        lemma_flatten_grid(rest, w, i - 1, j);
        assert(rest[i - 1] == rows[i]);
        assert(i * w + j == w + ((i - 1) * w + j)) by (nonlinear_arith);
        assert(0 <= i * w + j < rows.len() * w) by (nonlinear_arith)
            requires
                0 <= i < rows.len(),
                0 <= j < w,
        ;
    }
}

/// Every item of every row occurs in the flattened rows.
pub proof fn lemma_flatten_member<A>(rows: Seq<Seq<A>>, i: int, j: int)
    requires
        0 <= i < rows.len(),
        0 <= j < rows[i].len(),
    ensures
        exists|m: int| 0 <= m < rows.flatten().len() && #[trigger] rows.flatten()[m] == rows[i][j],
    decreases rows.len(),
{
    let rest = rows.drop_first();
    let f = rows.flatten();
    assert(f == rows[0] + rest.flatten());
    if i == 0 {
        assert(f[j] == rows[0][j]);
    } else {
        assert(rest[i - 1] == rows[i]);
        lemma_flatten_member(rest, i - 1, j);
        let m = choose|m: int|
            0 <= m < rest.flatten().len() && #[trigger] rest.flatten()[m] == rest[i - 1][j];
        assert(f[rows[0].len() + m] == rest.flatten()[m]);
    }
}

} // verus!
