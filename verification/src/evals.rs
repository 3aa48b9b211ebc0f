//! Domain-level evals: formal definitions of acceptable outcomes.
//!
//! An eval tests whether a converged context satisfies an intent-level
//! property, and reports an outcome, a score between 0 and 1, a rationale and
//! the facts it looked at. Scores are exact ratios of counts.
use crate::agent::{any, count, count_by, find, lemma_added_fact, position_by};
use crate::context::{Context, ContextKey, Fact, FactView};
use crate::text::{
    after, after_str, before, before_str, contains, dec, last, nth, parse_u32, parse_u32_str, push_dec,
    str_contains, str_ends_with, word_last, word_nth, words,
};
use vstd::prelude::*;

verus! {

/// The verdict of an eval.
#[derive(Clone, Copy, PartialEq, Eq, Structural, Debug)]
pub enum EvalOutcome {
    Pass,
    Fail,
    /// There was nothing to judge.
    Indeterminate,
}

/// A score between 0 and 1, as the ratio `num / den`.
#[derive(Clone, Copy, PartialEq, Eq, Structural, Debug)]
pub struct Score {
    pub num: u64,
    pub den: u64,
}

/// The result of running an eval.
#[derive(Clone, Debug)]
pub struct EvalResult {
    pub eval_name: String,
    pub outcome: EvalOutcome,
    pub score: Score,
    pub rationale: String,
    /// The ids of the facts the eval looked at.
    pub fact_ids: Vec<String>,
}

/// The mathematical value of an eval result.
pub struct EvalView {
    pub name: Seq<char>,
    pub outcome: EvalOutcome,
    pub num: nat,
    pub den: nat,
    pub rationale: Seq<char>,
    pub ids: Seq<Seq<char>>,
}

impl View for EvalResult {
    type V = EvalView;

    open spec fn view(&self) -> EvalView {
        EvalView {
            name: self.eval_name@,
            outcome: self.outcome,
            num: self.score.num as nat,
            den: self.score.den as nat,
            rationale: self.rationale@,
            ids: self.fact_ids@.map_values(|s: String| s@),
        }
    }
}

/// The result with the given parts.
pub open spec fn eval_view(
    name: Seq<char>,
    outcome: EvalOutcome,
    num: nat,
    den: nat,
    rationale: Seq<char>,
    ids: Seq<Seq<char>>,
) -> EvalView {
    EvalView { name, outcome, num, den, rationale, ids }
}

/// The ids of the facts, in order.
pub open spec fn ids_of(fs: Seq<Fact>) -> Seq<Seq<char>> {
    fs.map_values(|f: Fact| f.id@)
}

/// The ids of the facts, in order.
pub fn read_ids(fs: &Vec<Fact>) -> (r: Vec<String>)
    ensures
        r@.map_values(|s: String| s@) == ids_of(fs@),
{
    let n = fs.len();
    let mut out: Vec<String> = Vec::new();
    let mut i: usize = 0;
    while i < n
        invariant
            n == fs.len(),
            i <= n,
            out@.map_values(|s: String| s@) == ids_of(fs@).take(i as int),
        decreases n - i,
    {
        let ghost prev = out@;
        out.push(fs[i].id.clone());
        proof {
            assert(out@.map_values(|s: String| s@) =~= prev.map_values(|s: String| s@).push(
                fs@[i as int].id@,
            ));
            assert(ids_of(fs@).take(i + 1) =~= ids_of(fs@).take(i as int).push(fs@[i as int].id@));
        }
        i = i + 1;
    }
    assert(ids_of(fs@).take(n as int) =~= ids_of(fs@));
    out
}

// ---------------------------------------------------------------------------
// Strategy diversity
// ---------------------------------------------------------------------------

/// At least three strategies across at least three channels, no two of them
/// targeting the same primary channel.
pub struct StrategyDiversityEval;

/// The channel a strategy targets: the first of email, social, content and
/// paid that its content mentions.
pub open spec fn channel(content: Seq<char>) -> Option<Seq<char>> {
    if contains(content, "email"@) {
        Some("email"@)
    } else if contains(content, "social"@) {
        Some("social"@)
    } else if contains(content, "content"@) {
        Some("content"@)
    } else if contains(content, "paid"@) {
        Some("paid"@)
    } else {
        None
    }
}

/// Strategies that target channel `c`.
pub open spec fn targets(c: Seq<char>) -> spec_fn(Fact) -> bool {
    |f: Fact| channel(f.content@) == Some(c)
}

/// The number of distinct channels the strategies target.
pub open spec fn unique_channels(strategies: Seq<Fact>) -> nat {
    (if any(strategies, targets("email"@)) {
        1nat
    } else {
        0nat
    }) + (if any(strategies, targets("social"@)) {
        1nat
    } else {
        0nat
    }) + (if any(strategies, targets("content"@)) {
        1nat
    } else {
        0nat
    }) + (if any(strategies, targets("paid"@)) {
        1nat
    } else {
        0nat
    })
}

/// The number of strategies that target channel `c`.
pub open spec fn channel_count(strategies: Seq<Fact>, c: Seq<char>) -> nat {
    count(strategies, targets(c))
}

/// The first of email, social, content and paid that two or more strategies
/// target, if any.
pub open spec fn shared_channel(strategies: Seq<Fact>) -> Option<Seq<char>> {
    if channel_count(strategies, "email"@) > 1 {
        Some("email"@)
    } else if channel_count(strategies, "social"@) > 1 {
        Some("social"@)
    } else if channel_count(strategies, "content"@) > 1 {
        Some("content"@)
    } else if channel_count(strategies, "paid"@) > 1 {
        Some("paid"@)
    } else {
        None
    }
}

/// The diversity verdict. It passes when there are at least three strategies
/// on at least three channels and each channel has at most one strategy.
pub open spec fn diversity_result(strategies: Seq<Fact>) -> EvalView {
    let n = strategies.len();
    let u = unique_channels(strategies);
    if n < 3 {
        eval_view(
            "strategy_diversity"@,
            EvalOutcome::Fail,
            n,
            3,
            "Only "@ + dec(n) + " strategies found, need at least 3"@,
            ids_of(strategies),
        )
    } else if u < 3 {
        eval_view(
            "strategy_diversity"@,
            EvalOutcome::Fail,
            u,
            3,
            "Only "@ + dec(u) + " unique channels found across "@ + dec(n)
                + " strategies, need at least 3"@,
            ids_of(strategies),
        )
    } else if shared_channel(strategies) is Some {
        let c = shared_channel(strategies)->0;
        eval_view(
            "strategy_diversity"@,
            EvalOutcome::Fail,
            u,
            n,
            "Channel "@ + c + " is targeted by "@ + dec(channel_count(strategies, c))
                + " strategies, need no two on the same primary channel"@,
            ids_of(strategies),
        )
    } else {
        eval_view(
            "strategy_diversity"@,
            EvalOutcome::Pass,
            1,
            1,
            "Found "@ + dec(n) + " distinct strategies across "@ + dec(u) + " unique channels"@,
            ids_of(strategies),
        )
    }
}

fn targets_channel(f: &Fact, c: &str) -> (r: bool)
    ensures
        r == targets(c@)(*f),
{
    proof {
        reveal_strlit("email");
        reveal_strlit("social");
        reveal_strlit("content");
        reveal_strlit("paid");
    }
    let content = f.content.as_str();
    let found: Option<&'static str> = if str_contains(content, "email") {
        Some("email")
    } else if str_contains(content, "social") {
        Some("social")
    } else if str_contains(content, "content") {
        Some("content")
    } else if str_contains(content, "paid") {
        Some("paid")
    } else {
        None
    };
    match found {
        Some(x) => crate::text::str_eq(x, c),
        None => false,
    }
}

/// Whether some strategy targets channel `c`.
fn any_targets(strategies: &Vec<Fact>, c: &str) -> (r: bool)
    ensures
        r == any(strategies@, targets(c@)),
{
    let n = strategies.len();
    let mut i: usize = 0;
    while i < n
        invariant
            n == strategies.len(),
            i <= n,
            forall|j: int| 0 <= j < i ==> !targets(c@)(#[trigger] strategies@[j]),
        decreases n - i,
    {
        if targets_channel(&strategies[i], c) {
            return true;
        }
        i = i + 1;
    }
    false
}

/// The number of strategies that target channel `c`.
fn count_targets(strategies: &Vec<Fact>, c: &str) -> (r: usize)
    ensures
        r == channel_count(strategies@, c@),
{
    let ghost pred = targets(c@);
    let n = strategies.len();
    let mut i: usize = 0;
    let mut k: usize = 0;
    while i < n
        invariant
            n == strategies.len(),
            i <= n,
            k <= i,
            pred == targets(c@),
            k == strategies@.take(i as int).filter(pred).len(),
        decreases n - i,
    {
        let b = targets_channel(&strategies[i], c);
        proof {
            assert(strategies@.take(i + 1) =~= strategies@.take(i as int).push(strategies@[i as int]));
            strategies@.take(i as int).lemma_filter_push(strategies@[i as int], pred);
        }
        if b {
            k = k + 1;
        }
        i = i + 1;
    }
    assert(strategies@.take(n as int) =~= strategies@);
    k
}

impl StrategyDiversityEval {
    pub fn name(&self) -> (r: &'static str)
        ensures
            r@ == "strategy_diversity"@,
    {
        "strategy_diversity"
    }

    pub fn description(&self) -> (r: &'static str)
        ensures
            r@
                == "Ensures at least 3 distinct strategies exist with no two targeting the same primary channel"@,
    {
        "Ensures at least 3 distinct strategies exist with no two targeting the same primary channel"
    }

    pub fn dependencies(&self) -> (r: Vec<ContextKey>)
        ensures
            r@ == seq![ContextKey::Strategies],
    {
        vec![ContextKey::Strategies]
    }

    pub fn evaluate(&self, ctx: &Context) -> (r: EvalResult)
        ensures
            r@ == diversity_result(ctx.facts(ContextKey::Strategies)),
    {
        let strategies = ctx.get(ContextKey::Strategies);
        let n = strategies.len();
        let ids = read_ids(strategies);
        if n < 3 {
            let mut why = String::from_str("Only ");
            push_dec(&mut why, n as u128);
            why.append(" strategies found, need at least 3");
            return EvalResult {
                eval_name: String::from_str("strategy_diversity"),
                outcome: EvalOutcome::Fail,
                score: Score { num: n as u64, den: 3 },
                rationale: why,
                fact_ids: ids,
            };
        }
        let mut u: u64 = 0;
        if any_targets(strategies, "email") {
            u = u + 1;
        }
        if any_targets(strategies, "social") {
            u = u + 1;
        }
        if any_targets(strategies, "content") {
            u = u + 1;
        }
        if any_targets(strategies, "paid") {
            u = u + 1;
        }
        assert(u as nat == unique_channels(strategies@));
        if u < 3 {
            let mut why = String::from_str("Only ");
            push_dec(&mut why, u as u128);
            why.append(" unique channels found across ");
            push_dec(&mut why, n as u128);
            why.append(" strategies, need at least 3");
            EvalResult {
                eval_name: String::from_str("strategy_diversity"),
                outcome: EvalOutcome::Fail,
                score: Score { num: u, den: 3 },
                rationale: why,
                fact_ids: ids,
            }
        } else {
            let email = count_targets(strategies, "email");
            let social = count_targets(strategies, "social");
            let content = count_targets(strategies, "content");
            let paid = count_targets(strategies, "paid");
            let shared: Option<(&str, usize)> = if email > 1 {
                Some(("email", email))
            } else if social > 1 {
                Some(("social", social))
            } else if content > 1 {
                Some(("content", content))
            } else if paid > 1 {
                Some(("paid", paid))
            } else {
                None
            };
            proof {
                reveal_strlit("email");
                reveal_strlit("social");
                reveal_strlit("content");
                reveal_strlit("paid");
            }
            if let Some((c, m)) = shared {
                assert(shared_channel(strategies@) == Some(c@));
                let mut why = String::from_str("Channel ");
                why.append(c);
                why.append(" is targeted by ");
                push_dec(&mut why, m as u128);
                why.append(" strategies, need no two on the same primary channel");
                return EvalResult {
                    eval_name: String::from_str("strategy_diversity"),
                    outcome: EvalOutcome::Fail,
                    score: Score { num: u, den: n as u64 },
                    rationale: why,
                    fact_ids: ids,
                };
            }
            let mut why = String::from_str("Found ");
            push_dec(&mut why, n as u128);
            why.append(" distinct strategies across ");
            push_dec(&mut why, u as u128);
            why.append(" unique channels");
            EvalResult {
                eval_name: String::from_str("strategy_diversity"),
                outcome: EvalOutcome::Pass,
                score: Score { num: 1, den: 1 },
                rationale: why,
                fact_ids: ids,
            }
        }
    }
}

// ---------------------------------------------------------------------------
// Lead qualification quality
// ---------------------------------------------------------------------------

/// At least 80% of leads have an ICP match, a rationale and a next action.
///
/// The rationale shows the share of qualified leads as a percentage with one
/// decimal, which the caller renders from [`LeadQualificationQualityEval::counts`].
pub struct LeadQualificationQualityEval;

/// Leads whose content mentions an ICP match, a rationale and a next action.
pub open spec fn qualified_lead() -> spec_fn(Fact) -> bool {
    |f: Fact|
        (contains(f.content@, "ICP"@) || contains(f.content@, "fit"@)) && (contains(
            f.content@,
            "because"@,
        ) || contains(f.content@, "rationale"@)) && (contains(f.content@, "next"@) || contains(
            f.content@,
            "action"@,
        ))
}

fn is_qualified_lead(f: &Fact) -> (r: bool)
    ensures
        r == qualified_lead()(*f),
{
    let c = f.content.as_str();
    (str_contains(c, "ICP") || str_contains(c, "fit")) && (str_contains(c, "because")
        || str_contains(c, "rationale")) && (str_contains(c, "next") || str_contains(c, "action"))
}

/// The lead quality verdict, given the percentage of qualified leads as
/// shown.
pub open spec fn lead_quality_result(strategies: Seq<Fact>, percent: Seq<char>) -> EvalView {
    let n = strategies.len();
    let q = count(strategies, qualified_lead());
    if n == 0 {
        eval_view(
            "lead_qualification_quality"@,
            EvalOutcome::Indeterminate,
            0,
            1,
            "No leads found to evaluate"@,
            seq![],
        )
    } else if 5 * q >= 4 * n {
        eval_view(
            "lead_qualification_quality"@,
            EvalOutcome::Pass,
            q,
            n,
            dec(q) + "/"@ + dec(n) + " leads ("@ + percent + "%) meet quality criteria"@,
            ids_of(strategies),
        )
    } else {
        eval_view(
            "lead_qualification_quality"@,
            EvalOutcome::Fail,
            q,
            n,
            "Only "@ + dec(q) + "/"@ + dec(n) + " leads ("@ + percent
                + "%) meet quality criteria, need 80%"@,
            ids_of(strategies),
        )
    }
}

impl LeadQualificationQualityEval {
    pub fn name(&self) -> (r: &'static str)
        ensures
            r@ == "lead_qualification_quality"@,
    {
        "lead_qualification_quality"
    }

    pub fn description(&self) -> (r: &'static str)
        ensures
            r@ == "Ensures at least 80% of leads have ICP match, rationale, and next action"@,
    {
        "Ensures at least 80% of leads have ICP match, rationale, and next action"
    }

    pub fn dependencies(&self) -> (r: Vec<ContextKey>)
        ensures
            r@ == seq![ContextKey::Strategies, ContextKey::Evaluations],
    {
        vec![ContextKey::Strategies, ContextKey::Evaluations]
    }

    /// The number of qualified leads and of leads.
    pub fn counts(&self, ctx: &Context) -> (r: (usize, usize))
        ensures
            r.0 == count(ctx.facts(ContextKey::Strategies), qualified_lead()),
            r.1 == ctx.facts(ContextKey::Strategies).len(),
    {
        let strategies = ctx.get(ContextKey::Strategies);
        (count_by(strategies, is_qualified_lead, Ghost(qualified_lead())), strategies.len())
    }

    /// The verdict, given the share of qualified leads as a percentage with
    /// one decimal.
    pub fn evaluate(&self, ctx: &Context, percent: &str) -> (r: EvalResult)
        ensures
            r@ == lead_quality_result(ctx.facts(ContextKey::Strategies), percent@),
    {
        let strategies = ctx.get(ContextKey::Strategies);
        let n = strategies.len();
        if n == 0 {
            let r = EvalResult {
                eval_name: String::from_str("lead_qualification_quality"),
                outcome: EvalOutcome::Indeterminate,
                score: Score { num: 0, den: 1 },
                rationale: String::from_str("No leads found to evaluate"),
                fact_ids: Vec::new(),
            };
            assert(r@.ids =~= Seq::<Seq<char>>::empty());
            return r;
        }
        let q = count_by(strategies, is_qualified_lead, Ghost(qualified_lead()));
        proof {
            strategies@.lemma_filter_len(qualified_lead());
        }
        let ids = read_ids(strategies);
        if 5 * (q as u128) >= 4 * (n as u128) {
            let mut why = String::new();
            push_dec(&mut why, q as u128);
            why.append("/");
            push_dec(&mut why, n as u128);
            why.append(" leads (");
            why.append(percent);
            why.append("%) meet quality criteria");
            EvalResult {
                eval_name: String::from_str("lead_qualification_quality"),
                outcome: EvalOutcome::Pass,
                score: Score { num: q as u64, den: n as u64 },
                rationale: why,
                fact_ids: ids,
            }
        } else {
            let mut why = String::from_str("Only ");
            push_dec(&mut why, q as u128);
            why.append("/");
            push_dec(&mut why, n as u128);
            why.append(" leads (");
            why.append(percent);
            why.append("%) meet quality criteria, need 80%");
            EvalResult {
                eval_name: String::from_str("lead_qualification_quality"),
                outcome: EvalOutcome::Fail,
                score: Score { num: q as u64, den: n as u64 },
                rationale: why,
                fact_ids: ids,
            }
        }
    }
}

// ---------------------------------------------------------------------------
// Meeting schedule feasibility
// ---------------------------------------------------------------------------

/// Every scheduled meeting respects the working hours.
///
/// The working hours are those of the first constraint that states 10-16 or
/// 9-17 (10-16 when it states both). A meeting reads `Day HH:MM - Day HH:MM`:
/// it respects the hours when it starts no earlier than they open, ends no
/// later than they close, and does not end before it starts. A meeting whose
/// times do not read does not respect them.
pub struct MeetingScheduleFeasibilityEval;

/// Facts that mention the working hours 10-16 or 9-17.
pub open spec fn within_hours() -> spec_fn(Fact) -> bool {
    |f: Fact| contains(f.content@, "10-16"@) || contains(f.content@, "9-17"@)
}

fn is_within_hours(f: &Fact) -> (r: bool)
    ensures
        r == within_hours()(*f),
{
    str_contains(f.content.as_str(), "10-16") || str_contains(f.content.as_str(), "9-17")
}

/// The working hours, as minutes since midnight when they open and close.
pub open spec fn working_window(constraints: Seq<Fact>) -> Option<(nat, nat)> {
    match find(constraints, within_hours()) {
        Some(c) => if contains(c.content@, "10-16"@) {
            Some((600nat, 960nat))
        } else {
            Some((540nat, 1020nat))
        },
        None => None,
    }
}

/// The minutes since midnight of a clock time `HH:MM`, when both parts read
/// as numbers.
pub open spec fn clock_minutes(t: Seq<char>) -> Option<nat> {
    match parse_u32(before(t, ":"@)) {
        Some(h) => match after(t, ":"@) {
            Some(mt) => match parse_u32(mt) {
                Some(m) => Some(h * 60 + m),
                None => None,
            },
            None => None,
        },
        None => None,
    }
}

/// The start and end of a meeting `Day HH:MM - Day HH:MM ...`: the last word
/// before ` - ` and the second word after it, as clock times.
pub open spec fn meeting_span(content: Seq<char>) -> Option<(nat, nat)> {
    match last(words(before(content, " - "@))) {
        Some(sw) => match clock_minutes(sw) {
            Some(start) => match after(content, " - "@) {
                Some(rest) => match nth(words(rest), 1) {
                    Some(ew) => match clock_minutes(ew) {
                        Some(end) => Some((start, end)),
                        None => None,
                    },
                    None => None,
                },
                None => None,
            },
            None => None,
        },
        None => None,
    }
}

/// Meetings that lie within the hours from `open` to `close`.
pub open spec fn respects(open: nat, close: nat) -> spec_fn(Fact) -> bool {
    |f: Fact|
        match meeting_span(f.content@) {
            Some((start, end)) => open <= start && start <= end && end <= close,
            None => false,
        }
}

/// The feasibility verdict.
pub open spec fn feasibility_result(strategies: Seq<Fact>, constraints: Seq<Fact>) -> EvalView {
    let n = strategies.len();
    match working_window(constraints) {
        None => if n == 0 {
            eval_view(
                "meeting_schedule_feasibility"@,
                EvalOutcome::Indeterminate,
                0,
                1,
                "No meetings found to evaluate"@,
                seq![],
            )
        } else {
            eval_view(
                "meeting_schedule_feasibility"@,
                EvalOutcome::Indeterminate,
                0,
                1,
                "Working hours constraint not found"@,
                seq![],
            )
        },
        Some((open, close)) => {
            let v = count(strategies, respects(open, close));
            if n == 0 {
                eval_view(
                    "meeting_schedule_feasibility"@,
                    EvalOutcome::Indeterminate,
                    0,
                    1,
                    "No meetings found to evaluate"@,
                    seq![],
                )
            } else if v == n {
                eval_view(
                    "meeting_schedule_feasibility"@,
                    EvalOutcome::Pass,
                    1,
                    1,
                    "All "@ + dec(n) + " meetings respect working hours"@,
                    ids_of(strategies),
                )
            } else {
                eval_view(
                    "meeting_schedule_feasibility"@,
                    EvalOutcome::Fail,
                    v,
                    n,
                    "Only "@ + dec(v) + "/"@ + dec(n) + " meetings respect working hours"@,
                    ids_of(strategies),
                )
            }
        },
    }
}

/// The minutes since midnight of a clock time.
fn read_clock(t: &str) -> (r: Option<u64>)
    ensures
        match r {
            Some(v) => clock_minutes(t@) == Some(v as nat),
            None => clock_minutes(t@) is None,
        },
{
    proof {
        reveal_strlit(":");
    }
    let hs = before_str(t, ":");
    match parse_u32_str(hs.as_str()) {
        Some(h) => match after_str(t, ":") {
            Some(mt) => match parse_u32_str(mt.as_str()) {
                Some(m) => Some(h as u64 * 60 + m as u64),
                None => None,
            },
            None => None,
        },
        None => None,
    }
}

/// The start and end of a meeting.
fn read_span(content: &str) -> (r: Option<(u64, u64)>)
    ensures
        match r {
            Some((s, e)) => meeting_span(content@) == Some((s as nat, e as nat)),
            None => meeting_span(content@) is None,
        },
{
    proof {
        reveal_strlit(" - ");
    }
    let head = before_str(content, " - ");
    let sw = match word_last(head.as_str()) {
        Some(w) => w,
        None => return None,
    };
    let start = match read_clock(sw.as_str()) {
        Some(v) => v,
        None => return None,
    };
    let rest = match after_str(content, " - ") {
        Some(x) => x,
        None => return None,
    };
    let ew = match word_nth(rest.as_str(), 1) {
        Some(w) => w,
        None => return None,
    };
    match read_clock(ew.as_str()) {
        Some(end) => Some((start, end)),
        None => None,
    }
}

/// Whether a meeting lies within the hours from `open` to `close`.
fn meeting_respects(f: &Fact, open: u64, close: u64) -> (r: bool)
    ensures
        r == respects(open as nat, close as nat)(*f),
{
    match read_span(f.content.as_str()) {
        Some((s, e)) => open <= s && s <= e && e <= close,
        None => false,
    }
}

/// The number of meetings within the hours from `open` to `close`.
fn count_respecting(strategies: &Vec<Fact>, open: u64, close: u64) -> (r: usize)
    ensures
        r == count(strategies@, respects(open as nat, close as nat)),
{
    let ghost pred = respects(open as nat, close as nat);
    let n = strategies.len();
    let mut i: usize = 0;
    let mut k: usize = 0;
    while i < n
        invariant
            n == strategies.len(),
            i <= n,
            k <= i,
            pred == respects(open as nat, close as nat),
            k == strategies@.take(i as int).filter(pred).len(),
        decreases n - i,
    {
        let b = meeting_respects(&strategies[i], open, close);
        proof {
            assert(strategies@.take(i + 1) =~= strategies@.take(i as int).push(strategies@[i as int]));
            strategies@.take(i as int).lemma_filter_push(strategies@[i as int], pred);
        }
        if b {
            k = k + 1;
        }
        i = i + 1;
    }
    assert(strategies@.take(n as int) =~= strategies@);
    k
}

/// The working hours the constraints state.
fn read_window(constraints: &Vec<Fact>) -> (r: Option<(u64, u64)>)
    ensures
        match r {
            Some((o, c)) => working_window(constraints@) == Some((o as nat, c as nat)),
            None => working_window(constraints@) is None,
        },
{
    match position_by(constraints, is_within_hours, Ghost(within_hours())) {
        Some(k) => if str_contains(constraints[k].content.as_str(), "10-16") {
            Some((600, 960))
        } else {
            Some((540, 1020))
        },
        None => None,
    }
}

impl MeetingScheduleFeasibilityEval {
    pub fn name(&self) -> (r: &'static str)
        ensures
            r@ == "meeting_schedule_feasibility"@,
    {
        "meeting_schedule_feasibility"
    }

    pub fn description(&self) -> (r: &'static str)
        ensures
            r@ == "Ensures all scheduled meetings respect working hours"@,
    {
        "Ensures all scheduled meetings respect working hours"
    }

    pub fn dependencies(&self) -> (r: Vec<ContextKey>)
        ensures
            r@ == seq![ContextKey::Strategies, ContextKey::Constraints],
    {
        vec![ContextKey::Strategies, ContextKey::Constraints]
    }

    pub fn evaluate(&self, ctx: &Context) -> (r: EvalResult)
        ensures
            r@ == feasibility_result(
                ctx.facts(ContextKey::Strategies),
                ctx.facts(ContextKey::Constraints),
            ),
    {
        let strategies = ctx.get(ContextKey::Strategies);
        let n = strategies.len();
        let window = read_window(ctx.get(ContextKey::Constraints));
        if n == 0 {
            let r = EvalResult {
                eval_name: String::from_str("meeting_schedule_feasibility"),
                outcome: EvalOutcome::Indeterminate,
                score: Score { num: 0, den: 1 },
                rationale: String::from_str("No meetings found to evaluate"),
                fact_ids: Vec::new(),
            };
            assert(r@.ids =~= Seq::<Seq<char>>::empty());
            return r;
        }
        let (open, close) = match window {
            Some(w) => w,
            None => {
                let r = EvalResult {
                    eval_name: String::from_str("meeting_schedule_feasibility"),
                    outcome: EvalOutcome::Indeterminate,
                    score: Score { num: 0, den: 1 },
                    rationale: String::from_str("Working hours constraint not found"),
                    fact_ids: Vec::new(),
                };
                assert(r@.ids =~= Seq::<Seq<char>>::empty());
                return r;
            },
        };
        let v = count_respecting(strategies, open, close);
        let ids = read_ids(strategies);
        if v == n {
            let mut why = String::from_str("All ");
            push_dec(&mut why, n as u128);
            why.append(" meetings respect working hours");
            EvalResult {
                eval_name: String::from_str("meeting_schedule_feasibility"),
                outcome: EvalOutcome::Pass,
                score: Score { num: 1, den: 1 },
                rationale: why,
                fact_ids: ids,
            }
        } else {
            let mut why = String::from_str("Only ");
            push_dec(&mut why, v as u128);
            why.append("/");
            push_dec(&mut why, n as u128);
            why.append(" meetings respect working hours");
            EvalResult {
                eval_name: String::from_str("meeting_schedule_feasibility"),
                outcome: EvalOutcome::Fail,
                score: Score { num: v as u64, den: n as u64 },
                rationale: why,
                fact_ids: ids,
            }
        }
    }
}

// ---------------------------------------------------------------------------
// Running evals as an agent
// ---------------------------------------------------------------------------

/// Evaluations that an eval-running agent named `name` produced: their id
/// ends with `:name`.
pub open spec fn produced_by(name: Seq<char>) -> spec_fn(Fact) -> bool {
    |f: Fact| (":"@ + name).is_suffix_of(f.id@)
}

/// Whether an eval-running agent named `name` runs: when strategies,
/// constraints or signals exist and no evaluation id ends with `:name`.
pub open spec fn eval_agent_accepts(
    strategies: Seq<Fact>,
    constraints: Seq<Fact>,
    signals: Seq<Fact>,
    evaluations: Seq<Fact>,
    name: Seq<char>,
) -> bool {
    (strategies.len() > 0 || constraints.len() > 0 || signals.len() > 0) && !any(
        evaluations,
        produced_by(name),
    )
}

/// Whether an eval-running agent named `name` runs on `ctx`: it runs once per
/// context, when there is something to evaluate.
#[verifier::loop_isolation(false)]
pub fn eval_agent_should_run(ctx: &Context, name: &str) -> (r: bool)
    ensures
        r == eval_agent_accepts(
            ctx.facts(ContextKey::Strategies),
            ctx.facts(ContextKey::Constraints),
            ctx.facts(ContextKey::Signals),
            ctx.facts(ContextKey::Evaluations),
            name@,
        ),
{
    let has_inputs = ctx.has(ContextKey::Strategies) || ctx.has(ContextKey::Constraints) || ctx.has(
        ContextKey::Signals,
    );
    if !has_inputs {
        return false;
    }
    let mut suffix = String::from_str(":");
    suffix.append(name);
    let evaluations = ctx.get(ContextKey::Evaluations);
    let ghost pred = produced_by(name@);
    let n = evaluations.len();
    let mut i: usize = 0;
    while i < n
        invariant
            n == evaluations.len(),
            i <= n,
            suffix@ == ":"@ + name@,
            pred == produced_by(name@),
            forall|j: int| 0 <= j < i ==> !pred(#[trigger] evaluations@[j]),
        decreases n - i,
    {
        if str_ends_with(evaluations[i].id.as_str(), suffix.as_str()) {
            assert(pred(evaluations@[i as int]));
            return false;
        }
        i = i + 1;
    }
    true
}

/// An eval-running agent runs once: when the facts added to a context include
/// an evaluation whose id ends with `:name`, an agent named `name` no longer
/// runs on the resulting context.
pub proof fn lemma_eval_agent_runs_once(
    before: Context,
    after: Context,
    added: Seq<FactView>,
    i: int,
    name: Seq<char>,
)
    requires
        after.extends(before, added),
        0 <= i < added.len(),
        added[i].key == ContextKey::Evaluations,
        (":"@ + name).is_suffix_of(added[i].id),
    ensures
        !eval_agent_accepts(
            after.facts(ContextKey::Strategies),
            after.facts(ContextKey::Constraints),
            after.facts(ContextKey::Signals),
            after.facts(ContextKey::Evaluations),
            name,
        ),
{
    lemma_added_fact(before, after, added, i);
    let m = choose|m: int|
        0 <= m < after.facts(added[i].key).len() && (#[trigger] after.facts(added[i].key)[m])@
            == added[i];
    assert(produced_by(name)(after.facts(ContextKey::Evaluations)[m]));
}

/// The keys whose facts the evals depend on and that hold facts, in the order
/// strategies, constraints, signals.
pub open spec fn dirty_keys(strategies: Seq<Fact>, constraints: Seq<Fact>, signals: Seq<Fact>) -> Seq<
    ContextKey,
> {
    (if strategies.len() > 0 {
        seq![ContextKey::Strategies]
    } else {
        seq![]
    }) + (if constraints.len() > 0 {
        seq![ContextKey::Constraints]
    } else {
        seq![]
    }) + (if signals.len() > 0 {
        seq![ContextKey::Signals]
    } else {
        seq![]
    })
}

/// The keys an eval-running agent treats as changed.
pub fn eval_dirty_keys(ctx: &Context) -> (r: Vec<ContextKey>)
    ensures
        r@ == dirty_keys(
            ctx.facts(ContextKey::Strategies),
            ctx.facts(ContextKey::Constraints),
            ctx.facts(ContextKey::Signals),
        ),
{
    let mut keys: Vec<ContextKey> = Vec::new();
    if ctx.has(ContextKey::Strategies) {
        keys.push(ContextKey::Strategies);
    }
    if ctx.has(ContextKey::Constraints) {
        keys.push(ContextKey::Constraints);
    }
    if ctx.has(ContextKey::Signals) {
        keys.push(ContextKey::Signals);
    }
    assert(keys@ =~= dirty_keys(
        ctx.facts(ContextKey::Strategies),
        ctx.facts(ContextKey::Constraints),
        ctx.facts(ContextKey::Signals),
    ));
    keys
}

} // verus!
