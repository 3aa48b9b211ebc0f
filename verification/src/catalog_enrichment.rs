//! Catalog update and enrichment agents for product data.
//!
//! ```text
//! Seeds (product feeds)
//!    │
//!    ├─► FeedIngestionAgent → Signals (raw product data)
//!    ├─► DeduplicationAgent → Signals (deduplicated products)
//!    ├─► AttributeNormalizationAgent → Signals (normalized attributes)
//!    ├─► CategoryInferenceAgent → Signals (category assignments)
//!    ├─► PricingValidationAgent → Signals (validated prices)
//!    └─► SchemaInvariantAgent → Constraints (schema rules)
//!    │
//!    ▼
//! ProductReadyAgent → Evaluations (products ready for publication)
//! ```
use crate::agent::{
    any, broken_at, content_has, exists_fact, filter_facts, find, id_is, id_prefix, is_first,
    lemma_find_none, lemma_first_unique, position, position_by, Agent, FactTest, Invariant,
    InvariantClass, InvariantResult, Verdict,
};
use crate::context::{
    fact_views, fv, lemma_rows_done, lemma_rows_step, lemma_take_push, push_fact, AgentEffect,
    Context, ContextKey, Fact, FactView,
};
use crate::text::{
    before, before_str, contains, dec, join, join_strings, lowercase, nth, push_dec, slice_string,
    split, split_nth, split_str, split_trimmed, str_contains, str_eq, str_starts_with,
    strip_prefix_or, strip_prefix_or_str, to_lowercase, to_uppercase, trim, trim_str,
    trimmed_pieces, uppercase, views, words, words_str,
};
use crate::agent::{lemma_added_fact, lemma_added_prefixed, lemma_any_filter};
use crate::context::{keyed, lemma_flatten_all, lemma_flatten_nonempty};
use crate::text::{lemma_prefix_of_concat, lemma_trimmed_pieces_nonempty};
use vstd::prelude::*;
use vstd::string::*;

verus! {

/// The trimmed text after the first `marker`, up to the next `|`; or the
/// trimmed `default` when `marker` does not occur.
pub open spec fn field_after(c: Seq<char>, marker: Seq<char>, default: Seq<char>) -> Seq<char> {
    trim(
        match nth(split(c, marker), 1) {
            Some(t) => before(t, "|"@),
            None => default,
        },
    )
}

/// The trimmed text after the first `marker`, up to the next `|`.
pub fn read_field(c: &str, marker: &str, default: &str) -> (r: String)
    requires
        marker@.len() > 0,
    ensures
        r@ == field_after(c@, marker@, default@),
{
    proof {
        reveal_strlit("|");
    }
    match split_nth(c, marker, 1) {
        Some(t) => {
            let b = before_str(t.as_str(), "|");
            trim_str(b.as_str())
        },
        None => trim_str(default),
    }
}

// ---------------------------------------------------------------------------
// Feed ingestion
// ---------------------------------------------------------------------------

/// Ingests product feeds.
pub struct FeedIngestionAgent;

/// Seeds that carry a product feed.
pub open spec fn feed_seed() -> spec_fn(Fact) -> bool {
    |f: Fact| f.id@ == "feeds"@ || contains(f.id@, "product"@)
}

pub fn is_feed_seed(f: &Fact) -> (r: bool)
    ensures
        r == feed_seed()(*f),
{
    str_eq(f.id.as_str(), "feeds") || str_contains(f.id.as_str(), "product")
}

/// The product entries of the first feed seed, or three default products.
pub open spec fn feed_items(seeds: Seq<Fact>) -> Seq<Seq<char>> {
    match find(seeds, feed_seed()) {
        Some(s) => trimmed_pieces(s.content@, "|"@),
        None => seq!["ProductA:Widget:99.99"@, "ProductB:Gadget:149.99"@, "ProductC:Widget:89.99"@],
    }
}

/// The `i`-th feed entry as a product signal.
pub open spec fn product_fact(i: int, item: Seq<char>) -> FactView {
    let parts = split(item, ":"@);
    let name = match nth(parts, 0) {
        Some(x) => x,
        None => "Unknown"@,
    };
    let category = match nth(parts, 1) {
        Some(x) => x,
        None => "Uncategorized"@,
    };
    let price = match nth(parts, 2) {
        Some(x) => x,
        None => "0.00"@,
    };
    fv(
        ContextKey::Signals,
        "product:"@ + dec((i + 1) as nat),
        "Product "@ + dec((i + 1) as nat) + ": "@ + name + " | Category: "@ + category
            + " | Price: $"@ + price + " | Source: Feed"@ + dec(((i % 3) + 1) as nat),
    )
}

/// One product signal per feed entry.
pub open spec fn feed_products(seeds: Seq<Fact>) -> Seq<FactView> {
    feed_items(seeds).map(|i: int, item: Seq<char>| product_fact(i, item))
}

fn nth_or(parts: &Vec<String>, k: usize, default: &str) -> (r: String)
    ensures
        r@ == match nth(views(parts@), k as int) {
            Some(x) => x,
            None => default@,
        },
{
    if k < parts.len() {
        parts[k].clone()
    } else {
        String::from_str(default)
    }
}

impl Agent for FeedIngestionAgent {
    fn name(&self) -> (r: &'static str)
        ensures
            r@ == "FeedIngestionAgent"@,
    {
        "FeedIngestionAgent"
    }

    fn dependencies(&self) -> (r: Vec<ContextKey>)
        ensures
            r@ == seq![ContextKey::Seeds],
    {
        vec![ContextKey::Seeds]
    }

    /// Runs once: when seeds exist and no product signal does.
    open spec fn runs_on(&self, ctx: Context) -> bool {
        (ctx.facts(ContextKey::Seeds).len() > 0 && !any(
            ctx.facts(ContextKey::Signals),
            id_prefix("product:"@),
        ))
    }

    fn accepts(&self, ctx: &Context) -> (r: bool) {
        ctx.has(ContextKey::Seeds) && !exists_fact(
            ctx.get(ContextKey::Signals),
            FactTest::IdPrefix,
            "product:",
        )
    }

    open spec fn proposes(&self, ctx: Context) -> Seq<FactView> {
        feed_products(ctx.facts(ContextKey::Seeds))
    }

    #[verifier::loop_isolation(false)]
    fn execute(&self, ctx: &Context) -> (r: AgentEffect) {
        let seeds = ctx.get(ContextKey::Seeds);
        proof {
            reveal_strlit("|");
            reveal_strlit(":");
        }
        let items: Vec<String> = match position_by(seeds, is_feed_seed, Ghost(feed_seed())) {
            Some(k) => split_trimmed(seeds[k].content.as_str(), "|"),
            None => {
                let v = vec![
                    String::from_str("ProductA:Widget:99.99"),
                    String::from_str("ProductB:Gadget:149.99"),
                    String::from_str("ProductC:Widget:89.99"),
                ];
                assert(views(v@) =~= feed_items(seeds@));
                v
            },
        };
        let ghost spec = feed_products(seeds@);
        let n = items.len();
        let mut facts: Vec<Fact> = Vec::new();
        let mut i: usize = 0;
        while i < n
            invariant
                n == items.len(),
                i <= n,
                views(items@) == feed_items(seeds@),
                spec.len() == n,
                fact_views(facts@) == spec.take(i as int),
            decreases n - i,
        {
            let parts = split_str(items[i].as_str(), ":");
            let name = nth_or(&parts, 0, "Unknown");
            let category = nth_or(&parts, 1, "Uncategorized");
            let price = nth_or(&parts, 2, "0.00");
            let mut id = String::from_str("product:");
            push_dec(&mut id, i as u128 + 1);
            let mut c = String::from_str("Product ");
            push_dec(&mut c, i as u128 + 1);
            c.append(": ");
            c.append(name.as_str());
            c.append(" | Category: ");
            c.append(category.as_str());
            c.append(" | Price: $");
            c.append(price.as_str());
            c.append(" | Source: Feed");
            push_dec(&mut c, (i as u128 % 3) + 1);
            let f = Fact::from_strings(ContextKey::Signals, id, c);
            proof {
                assert(views(items@)[i as int] == items@[i as int]@);
                assert(f@ == spec[i as int]);
                lemma_take_push(spec, i as int);
            }
            push_fact(&mut facts, f);
            i = i + 1;
        }
        assert(spec.take(n as int) =~= spec);
        AgentEffect::with_facts(facts)
    }
}

// ---------------------------------------------------------------------------
// Deduplication
// ---------------------------------------------------------------------------

/// Marks products whose name repeats an earlier product's name.
pub struct DeduplicationAgent;

/// A product's name: the text after the first `:`, up to `|`.
pub open spec fn product_name(c: Seq<char>) -> Seq<char> {
    field_after(c, ":"@, "unknown"@)
}

/// `nm` is one of the `seen` names.
pub open spec fn in_seen(seen: Seq<String>, nm: Seq<char>) -> bool {
    exists|j: int| 0 <= j < seen.len() && seen[j]@ == nm
}

/// One of the first `k` products is named `nm`.
pub open spec fn named_before(ps: Seq<Fact>, k: int, nm: Seq<char>) -> bool {
    exists|j: int| 0 <= j < k && product_name(ps[j].content@) == nm
}

/// Product `k` has the name of an earlier product.
pub open spec fn is_duplicate(ps: Seq<Fact>, k: int) -> bool {
    exists|j: int| 0 <= j < k && product_name(ps[j].content@) == product_name(ps[k].content@)
}

/// The number of duplicates among the first `k` products.
pub open spec fn duplicates(ps: Seq<Fact>, k: int) -> nat
    decreases k,
{
    if k <= 0 {
        0
    } else {
        duplicates(ps, k - 1) + if is_duplicate(ps, k - 1) {
            1nat
        } else {
            0nat
        }
    }
}

/// The deduplication verdict on product `k`.
pub open spec fn dedup_fact(ps: Seq<Fact>, k: int) -> FactView {
    let p = ps[k];
    fv(
        ContextKey::Signals,
        "dedup:"@ + strip_prefix_or(p.id@, "product:"@, "unknown"@),
        "Deduplicated: "@ + product_name(p.content@) + " | Original: "@ + p.id@ + (if is_duplicate(
            ps,
            k,
        ) {
            " | Status: Duplicate (removed)"@
        } else {
            " | Status: Unique"@
        }),
    )
}

/// One verdict per product, and a summary when duplicates were found.
pub open spec fn dedup_facts(signals: Seq<Fact>) -> Seq<FactView> {
    let ps = signals.filter(id_prefix("product:"@));
    let verdicts = Seq::new(ps.len(), |k: int| dedup_fact(ps, k));
    let d = duplicates(ps, ps.len() as int);
    if d > 0 {
        verdicts.push(
            fv(
                ContextKey::Signals,
                "dedup:summary"@,
                "Deduplication: "@ + dec(d) + " duplicates removed | "@ + dec(
                    (ps.len() - d) as nat,
                ) + " unique products"@,
            ),
        )
    } else {
        verdicts
    }
}

proof fn lemma_duplicates_le(ps: Seq<Fact>, k: int)
    requires
        0 <= k,
    ensures
        duplicates(ps, k) <= k,
    decreases k,
{
    if k > 0 {
        lemma_duplicates_le(ps, k - 1);
    }
}

impl Agent for DeduplicationAgent {
    fn name(&self) -> (r: &'static str)
        ensures
            r@ == "DeduplicationAgent"@,
    {
        "DeduplicationAgent"
    }

    fn dependencies(&self) -> (r: Vec<ContextKey>)
        ensures
            r@ == seq![ContextKey::Signals],
    {
        vec![ContextKey::Signals]
    }

    /// Runs once: when products exist and no deduplication verdict does.
    open spec fn runs_on(&self, ctx: Context) -> bool {
        (any(ctx.facts(ContextKey::Signals), id_prefix("product:"@)) && !any(
            ctx.facts(ContextKey::Signals),
            id_prefix("dedup:"@),
        ))
    }

    fn accepts(&self, ctx: &Context) -> (r: bool) {
        let signals = ctx.get(ContextKey::Signals);
        exists_fact(signals, FactTest::IdPrefix, "product:") && !exists_fact(
            signals,
            FactTest::IdPrefix,
            "dedup:",
        )
    }

    open spec fn proposes(&self, ctx: Context) -> Seq<FactView> {
        dedup_facts(ctx.facts(ContextKey::Signals))
    }

    #[verifier::loop_isolation(false)]
    fn execute(&self, ctx: &Context) -> (r: AgentEffect) {
        let signals = ctx.get(ContextKey::Signals);
        let ps = filter_facts(signals, FactTest::IdPrefix, "product:");
        let ghost verdicts = Seq::new(ps@.len(), |k: int| dedup_fact(ps@, k));
        let n = ps.len();
        let mut seen: Vec<String> = Vec::new();
        let mut dups: usize = 0;
        let mut facts: Vec<Fact> = Vec::new();
        let mut k: usize = 0;
        proof {
            reveal_strlit(":");
        }
        while k < n
            invariant
                n == ps.len(),
                k <= n,
                dups == duplicates(ps@, k as int),
                dups <= k,
                seen@.len() == k - dups,
                forall|nm: Seq<char>|
                    #![trigger in_seen(seen@, nm)]
                    #![trigger named_before(ps@, k as int, nm)]
                    in_seen(seen@, nm) == named_before(ps@, k as int, nm),
                fact_views(facts@) == verdicts.take(k as int),
            decreases n - k,
        {
            let p = &ps[k];
            let name = read_field(p.content.as_str(), ":", "unknown");
            // Is the name among those seen?
            let mut found = false;
            let mut j: usize = 0;
            while j < seen.len()
                invariant
                    j <= seen@.len(),
                    found == exists|t: int| 0 <= t < j && seen@[t]@ == name@,
                decreases seen@.len() - j,
            {
                if str_eq(seen[j].as_str(), name.as_str()) {
                    found = true;
                }
                j = j + 1;
            }
            proof {
                assert(found == in_seen(seen@, name@));
                assert(in_seen(seen@, name@) == named_before(ps@, k as int, name@));
                assert(found == is_duplicate(ps@, k as int));
            }
            let mut id = String::from_str("dedup:");
            let key = strip_prefix_or_str(p.id.as_str(), "product:", "unknown");
            id.append(key.as_str());
            let mut c = String::from_str("Deduplicated: ");
            c.append(name.as_str());
            c.append(" | Original: ");
            c.append(p.id.as_str());
            if found {
                c.append(" | Status: Duplicate (removed)");
                dups = dups + 1;
            } else {
                c.append(" | Status: Unique");
                let ghost old_seen = seen@;
                seen.push(name);
                proof {
                    assert forall|nm: Seq<char>|
                        #![trigger in_seen(seen@, nm)]
                        #![trigger named_before(ps@, k + 1, nm)]
                        in_seen(seen@, nm) == named_before(ps@, k + 1, nm) by {
                        if in_seen(seen@, nm) {
                            let j = choose|j: int| 0 <= j < seen@.len() && seen@[j]@ == nm;
                            if j < old_seen.len() {
                                assert(old_seen[j]@ == nm);
                                assert(in_seen(old_seen, nm));
                                assert(named_before(ps@, k as int, nm));
                            }
                        }
                        if named_before(ps@, k + 1, nm) {
                            let j = choose|j: int|
                                0 <= j < k + 1 && product_name(ps@[j].content@) == nm;
                            if j < k {
                                assert(named_before(ps@, k as int, nm));
                                assert(in_seen(old_seen, nm));
                                let t = choose|t: int|
                                    0 <= t < old_seen.len() && old_seen[t]@ == nm;
                                assert(seen@[t]@ == nm);
                            } else {
                                assert(seen@[old_seen.len() as int]@ == nm);
                            }
                        }
                    }
                }
            }
            proof {
                if found {
                    assert forall|nm: Seq<char>|
                        #![trigger in_seen(seen@, nm)]
                        #![trigger named_before(ps@, k + 1, nm)]
                        in_seen(seen@, nm) == named_before(ps@, k + 1, nm) by {
                        assert(in_seen(seen@, nm) == named_before(ps@, k as int, nm));
                        if named_before(ps@, k + 1, nm) {
                            let j = choose|j: int|
                                0 <= j < k + 1 && product_name(ps@[j].content@) == nm;
                            if j == k {
                                assert(named_before(ps@, k as int, name@));
                                let jj = choose|jj: int|
                                    0 <= jj < k && product_name(ps@[jj].content@) == name@;
                                assert(named_before(ps@, k as int, nm));
                            }
                        }
                    }
                }
            }
            let f = Fact::from_strings(ContextKey::Signals, id, c);
            proof {
                assert(f@ == verdicts[k as int]);
                lemma_take_push(verdicts, k as int);
            }
            push_fact(&mut facts, f);
            k = k + 1;
        }
        assert(verdicts.take(n as int) =~= verdicts);
        if dups > 0 {
            let mut c = String::from_str("Deduplication: ");
            push_dec(&mut c, dups as u128);
            c.append(" duplicates removed | ");
            push_dec(&mut c, seen.len() as u128);
            c.append(" unique products");
            push_fact(
                &mut facts,
                Fact::from_strings(ContextKey::Signals, String::from_str("dedup:summary"), c),
            );
        }
        let r = AgentEffect::with_facts(facts);
        assert(r@ =~= dedup_facts(signals@));
        r
    }
}

// ---------------------------------------------------------------------------
// Attribute normalization
// ---------------------------------------------------------------------------

/// Normalizes the attributes of unique products.
pub struct AttributeNormalizationAgent;

/// A word with its first character upper-cased and the rest lower-cased.
pub open spec fn title_word(w: Seq<char>) -> Seq<char> {
    if w.len() == 0 {
        w
    } else {
        uppercase(w.subrange(0, 1)) + lowercase(w.subrange(1, w.len() as int))
    }
}

/// Each word of `s` title-cased, joined by single spaces.
pub open spec fn title_case(s: Seq<char>) -> Seq<char> {
    join(words(s).map_values(|w: Seq<char>| title_word(w)), " "@)
}

/// Each word of `s` title-cased, joined by single spaces.
pub fn title_case_str(s: &str) -> (r: String)
    ensures
        r@ == title_case(s@),
{
    let ws = words_str(s);
    let n = ws.len();
    let mut out: Vec<String> = Vec::new();
    let mut i: usize = 0;
    while i < n
        invariant
            n == ws.len(),
            i <= n,
            views(ws@) == words(s@),
            views(out@) == words(s@).map_values(|w: Seq<char>| title_word(w)).take(i as int),
        decreases n - i,
    {
        let w = ws[i].as_str();
        let len = w.unicode_len();
        let mut t = String::new();
        if len >= 1 {
            let first = w.substring_char(0, 1);
            let rest = w.substring_char(1, len);
            t = to_uppercase(first);
            let lower = to_lowercase(rest);
            t.append(lower.as_str());
        } else {
            proof {
                assert(t@ =~= w@);
            }
        }
        let ghost prev = out@;
        out.push(t);
        proof {
            assert(views(ws@)[i as int] == ws@[i as int]@);
            assert(views(out@) =~= views(prev).push(t@));
            assert(words(s@).map_values(|w: Seq<char>| title_word(w)).take(i + 1) =~= words(
                s@,
            ).map_values(|w: Seq<char>| title_word(w)).take(i as int).push(title_word(ws@[i as int]@)));
        }
        i = i + 1;
    }
    assert(words(s@).map_values(|w: Seq<char>| title_word(w)).take(n as int) =~= words(
        s@,
    ).map_values(|w: Seq<char>| title_word(w)));
    join_strings(&out, " ")
}

/// The text of a normalized product, given its name already upper-cased and
/// its category already title-cased.
pub open spec fn normalized_text(
    pid: Seq<char>,
    upper_name: Seq<char>,
    titled_category: Seq<char>,
    price: Seq<char>,
) -> Seq<char> {
    "Normalized: "@ + pid + " | Name: "@ + upper_name + " | Category: "@ + titled_category
        + " | Price: $"@ + price
}

/// The text of a normalized product, given its name already upper-cased and
/// its category already title-cased.
pub fn normalized_content(pid: &str, upper_name: &str, titled_category: &str, price: &str) -> (r:
    String)
    ensures
        r@ == normalized_text(pid@, upper_name@, titled_category@, price@),
{
    let mut c = String::from_str("Normalized: ");
    c.append(pid);
    c.append(" | Name: ");
    c.append(upper_name);
    c.append(" | Category: ");
    c.append(titled_category);
    c.append(" | Price: $");
    c.append(price);
    c
}

/// The normalized attributes of product `pid`, read from its ingested signal.
pub open spec fn normalized_fact(pid: Seq<char>, orig: Fact) -> FactView {
    let name = field_after(orig.content@, ":"@, "unknown"@);
    let category = field_after(orig.content@, "Category: "@, "Uncategorized"@);
    let price = field_after(orig.content@, "Price: $"@, "0.00"@);
    fv(
        ContextKey::Signals,
        "normalized:"@ + pid,
        normalized_text(pid, uppercase(name), title_case(category), price),
    )
}

/// A unique deduplication verdict leads to the normalized attributes of its
/// product, when that product's signal is present.
pub open spec fn normalization_row(signals: Seq<Fact>, s: Fact) -> Seq<FactView> {
    if "dedup:"@.is_prefix_of(s.id@) && contains(s.content@, "Unique"@) {
        let pid = strip_prefix_or(s.id@, "dedup:"@, "unknown"@);
        match find(signals, id_is("product:"@ + pid)) {
            Some(orig) => seq![normalized_fact(pid, orig)],
            None => seq![],
        }
    } else {
        seq![]
    }
}

pub open spec fn normalized_products(signals: Seq<Fact>) -> Seq<FactView> {
    signals.map_values(|s: Fact| normalization_row(signals, s)).flatten()
}

impl Agent for AttributeNormalizationAgent {
    fn name(&self) -> (r: &'static str)
        ensures
            r@ == "AttributeNormalizationAgent"@,
    {
        "AttributeNormalizationAgent"
    }

    fn dependencies(&self) -> (r: Vec<ContextKey>)
        ensures
            r@ == seq![ContextKey::Signals],
    {
        vec![ContextKey::Signals]
    }

    /// Runs once: when deduplication verdicts exist and no normalized product does.
    open spec fn runs_on(&self, ctx: Context) -> bool {
        (any(ctx.facts(ContextKey::Signals), id_prefix("dedup:"@)) && !any(
            ctx.facts(ContextKey::Signals),
            id_prefix("normalized:"@),
        ))
    }

    fn accepts(&self, ctx: &Context) -> (r: bool) {
        let signals = ctx.get(ContextKey::Signals);
        exists_fact(signals, FactTest::IdPrefix, "dedup:") && !exists_fact(
            signals,
            FactTest::IdPrefix,
            "normalized:",
        )
    }

    open spec fn proposes(&self, ctx: Context) -> Seq<FactView> {
        normalized_products(ctx.facts(ContextKey::Signals))
    }

    #[verifier::loop_isolation(false)]
    fn execute(&self, ctx: &Context) -> (r: AgentEffect) {
        let signals = ctx.get(ContextKey::Signals);
        let ghost rows = signals@.map_values(|s: Fact| normalization_row(signals@, s));
        let n = signals.len();
        let mut facts: Vec<Fact> = Vec::new();
        let mut i: usize = 0;
        proof {
            reveal_strlit(":");
            reveal_strlit("Category: ");
            reveal_strlit("Price: $");
        }
        while i < n
            invariant
                n == signals.len(),
                i <= n,
                rows.len() == n,
                fact_views(facts@) == rows.take(i as int).flatten(),
            decreases n - i,
        {
            let s = &signals[i];
            proof {
                lemma_rows_step(rows, i as int);
                assert(rows[i as int] == normalization_row(signals@, *s));
            }
            if str_starts_with(s.id.as_str(), "dedup:") && str_contains(
                s.content.as_str(),
                "Unique",
            ) {
                let pid = strip_prefix_or_str(s.id.as_str(), "dedup:", "unknown");
                let mut pname = String::from_str("product:");
                pname.append(pid.as_str());
                match position(signals, FactTest::IdIs, pname.as_str()) {
                    Some(k) => {
                        let orig = &signals[k];
                        let name = read_field(orig.content.as_str(), ":", "unknown");
                        let category = read_field(
                            orig.content.as_str(),
                            "Category: ",
                            "Uncategorized",
                        );
                        let price = read_field(orig.content.as_str(), "Price: $", "0.00");
                        let upper = to_uppercase(name.as_str());
                        let titled = title_case_str(category.as_str());
                        let mut id = String::from_str("normalized:");
                        id.append(pid.as_str());
                        let c = normalized_content(
                            pid.as_str(),
                            upper.as_str(),
                            titled.as_str(),
                            price.as_str(),
                        );
                        let f = Fact::from_strings(ContextKey::Signals, id, c);
                        push_fact(&mut facts, f);
                        proof {
                            assert(rows[i as int] =~= seq![f@]);
                            assert(fact_views(facts@) =~= rows.take(i as int).flatten()
                                + rows[i as int]);
                        }
                    },
                    None => {
                        proof {
                            assert(rows[i as int] =~= Seq::<FactView>::empty());
                            assert(fact_views(facts@) =~= rows.take(i as int).flatten()
                                + rows[i as int]);
                        }
                    },
                }
            } else {
                proof {
                    assert(rows[i as int] =~= Seq::<FactView>::empty());
                    assert(fact_views(facts@) =~= rows.take(i as int).flatten() + rows[i as int]);
                }
            }
            i = i + 1;
        }
        proof {
            lemma_rows_done(rows, n as int);
        }
        AgentEffect::with_facts(facts)
    }
}

// ---------------------------------------------------------------------------
// Category inference
// ---------------------------------------------------------------------------

/// Infers category hierarchies for normalized products.
pub struct CategoryInferenceAgent;

/// The category hierarchy a lower-cased category name suggests.
pub open spec fn category_hierarchy(lower: Seq<char>) -> Seq<char> {
    if contains(lower, "widget"@) {
        "Electronics > Widgets"@
    } else if contains(lower, "gadget"@) {
        "Electronics > Gadgets"@
    } else {
        "General > Uncategorized"@
    }
}

/// The category hierarchy a category name suggests.
pub open spec fn inferred_category(category: Seq<char>) -> Seq<char> {
    category_hierarchy(lowercase(category))
}

/// The category hierarchy a lower-cased category name suggests.
pub fn category_from_lowered(lower: &str) -> (r: &'static str)
    ensures
        r@ == category_hierarchy(lower@),
{
    if str_contains(lower, "widget") {
        "Electronics > Widgets"
    } else if str_contains(lower, "gadget") {
        "Electronics > Gadgets"
    } else {
        "General > Uncategorized"
    }
}

pub open spec fn category_row(s: Fact) -> Seq<FactView> {
    if "normalized:"@.is_prefix_of(s.id@) {
        let pid = strip_prefix_or(s.id@, "normalized:"@, "unknown"@);
        let category = field_after(s.content@, "Category: "@, "Uncategorized"@);
        seq![
            fv(
                ContextKey::Signals,
                "category:"@ + pid,
                "Category "@ + pid + ": "@ + category + " | Inferred: "@ + inferred_category(
                    category,
                ) + " | Confidence: 90%"@,
            ),
        ]
    } else {
        seq![]
    }
}

pub open spec fn category_facts(signals: Seq<Fact>) -> Seq<FactView> {
    signals.map_values(|s: Fact| category_row(s)).flatten()
}

impl Agent for CategoryInferenceAgent {
    fn name(&self) -> (r: &'static str)
        ensures
            r@ == "CategoryInferenceAgent"@,
    {
        "CategoryInferenceAgent"
    }

    fn dependencies(&self) -> (r: Vec<ContextKey>)
        ensures
            r@ == seq![ContextKey::Signals],
    {
        vec![ContextKey::Signals]
    }

    /// Runs once: when normalized products exist and no category assignment does.
    open spec fn runs_on(&self, ctx: Context) -> bool {
        (any(ctx.facts(ContextKey::Signals), id_prefix("normalized:"@)) && !any(
            ctx.facts(ContextKey::Signals),
            id_prefix("category:"@),
        ))
    }

    fn accepts(&self, ctx: &Context) -> (r: bool) {
        let signals = ctx.get(ContextKey::Signals);
        exists_fact(signals, FactTest::IdPrefix, "normalized:") && !exists_fact(
            signals,
            FactTest::IdPrefix,
            "category:",
        )
    }

    open spec fn proposes(&self, ctx: Context) -> Seq<FactView> {
        category_facts(ctx.facts(ContextKey::Signals))
    }

    #[verifier::loop_isolation(false)]
    fn execute(&self, ctx: &Context) -> (r: AgentEffect) {
        let signals = ctx.get(ContextKey::Signals);
        let ghost rows = signals@.map_values(|s: Fact| category_row(s));
        let n = signals.len();
        let mut facts: Vec<Fact> = Vec::new();
        let mut i: usize = 0;
        proof {
            reveal_strlit("Category: ");
        }
        while i < n
            invariant
                n == signals.len(),
                i <= n,
                rows.len() == n,
                fact_views(facts@) == rows.take(i as int).flatten(),
            decreases n - i,
        {
            let s = &signals[i];
            proof {
                lemma_rows_step(rows, i as int);
            }
            if str_starts_with(s.id.as_str(), "normalized:") {
                let pid = strip_prefix_or_str(s.id.as_str(), "normalized:", "unknown");
                let category = read_field(s.content.as_str(), "Category: ", "Uncategorized");
                let lower = to_lowercase(category.as_str());
                let inferred = category_from_lowered(lower.as_str());
                let mut id = String::from_str("category:");
                id.append(pid.as_str());
                let mut c = String::from_str("Category ");
                c.append(pid.as_str());
                c.append(": ");
                c.append(category.as_str());
                c.append(" | Inferred: ");
                c.append(inferred);
                c.append(" | Confidence: 90%");
                let f = Fact::from_strings(ContextKey::Signals, id, c);
                push_fact(&mut facts, f);
                proof {
                    assert(rows[i as int] =~= seq![f@]);
                    assert(fact_views(facts@) =~= rows.take(i as int).flatten() + rows[i as int]);
                }
            } else {
                proof {
                    assert(rows[i as int] =~= Seq::<FactView>::empty());
                    assert(fact_views(facts@) =~= rows.take(i as int).flatten() + rows[i as int]);
                }
            }
            i = i + 1;
        }
        proof {
            lemma_rows_done(rows, n as int);
        }
        AgentEffect::with_facts(facts)
    }
}

// ---------------------------------------------------------------------------
// Pricing validation
// ---------------------------------------------------------------------------

/// Validates prices. Reading a price as a number is done by the caller, which
/// reports how each price compares with the valid range.
pub struct PricingValidationAgent;

/// How a price, read as a number, compares with the valid range `(0, 10000)`.
#[derive(Clone, Copy, PartialEq, Eq, Structural, Debug)]
pub enum PriceCheck {
    /// Strictly between 0 and 10000.
    InRange,
    /// At most 0 (a price that does not read as a number counts as 0).
    NotPositive,
    /// At least 10000.
    TooHigh,
    /// Not a number: neither in range nor out of it.
    NotANumber,
}

/// The price text of a normalized product.
pub open spec fn price_text(s: Fact) -> Seq<char> {
    field_after(s.content@, "Price: $"@, "0.00"@)
}

/// The normalized products whose prices are validated, in order.
pub open spec fn priced_products(signals: Seq<Fact>) -> Seq<Fact> {
    signals.filter(id_prefix("normalized:"@))
}

/// The validation of one product's price.
pub open spec fn price_validation(s: Fact, check: PriceCheck) -> FactView {
    let pid = strip_prefix_or(s.id@, "normalized:"@, "unknown"@);
    let status = if check == PriceCheck::InRange {
        "VALID"@
    } else {
        "INVALID"@
    };
    let reason = match check {
        PriceCheck::NotPositive => "Price must be positive"@,
        PriceCheck::TooHigh => "Price exceeds maximum"@,
        _ => "Valid price"@,
    };
    fv(
        ContextKey::Signals,
        "price-valid:"@ + pid,
        "Price validation "@ + pid + ": $"@ + price_text(s) + " | Status: "@ + status
            + " | Reason: "@ + reason,
    )
}

pub open spec fn price_validations(signals: Seq<Fact>, checks: Seq<PriceCheck>) -> Seq<FactView> {
    priced_products(signals).map(|i: int, s: Fact| price_validation(s, checks[i]))
}

impl PricingValidationAgent {
    pub fn name(&self) -> (r: &'static str)
        ensures
            r@ == "PricingValidationAgent"@,
    {
        "PricingValidationAgent"
    }

    pub fn dependencies(&self) -> (r: Vec<ContextKey>)
        ensures
            r@ == seq![ContextKey::Signals],
    {
        vec![ContextKey::Signals]
    }

    /// Runs once: when normalized products exist and no price validation does.
    pub open spec fn runs_on(&self, ctx: Context) -> bool {
        any(ctx.facts(ContextKey::Signals), id_prefix("normalized:"@)) && !any(
            ctx.facts(ContextKey::Signals),
            id_prefix("price-valid:"@),
        )
    }

    pub fn accepts(&self, ctx: &Context) -> (r: bool)
        ensures
            r == self.runs_on(*ctx),
    {
        let signals = ctx.get(ContextKey::Signals);
        exists_fact(signals, FactTest::IdPrefix, "normalized:") && !exists_fact(
            signals,
            FactTest::IdPrefix,
            "price-valid:",
        )
    }

    /// The price texts to check, one per normalized product, in order.
    #[verifier::loop_isolation(false)]
    pub fn prices(&self, ctx: &Context) -> (r: Vec<String>)
        ensures
            views(r@) == priced_products(ctx.facts(ContextKey::Signals)).map_values(
                |s: Fact| price_text(s),
            ),
    {
        let ps = filter_facts(ctx.get(ContextKey::Signals), FactTest::IdPrefix, "normalized:");
        let ghost spec = ps@.map_values(|s: Fact| price_text(s));
        let n = ps.len();
        let mut out: Vec<String> = Vec::new();
        let mut i: usize = 0;
        proof {
            reveal_strlit("Price: $");
        }
        while i < n
            invariant
                n == ps.len(),
                i <= n,
                spec.len() == n,
                views(out@) == spec.take(i as int),
            decreases n - i,
        {
            let t = read_field(ps[i].content.as_str(), "Price: $", "0.00");
            let ghost prev = out@;
            out.push(t);
            proof {
                assert(views(out@) =~= views(prev).push(t@));
                lemma_take_push(spec, i as int);
            }
            i = i + 1;
        }
        assert(spec.take(n as int) =~= spec);
        out
    }

    /// The validations, given how each price compares with the valid range.
    #[verifier::loop_isolation(false)]
    pub fn validations(&self, ctx: &Context, checks: &Vec<PriceCheck>) -> (r: AgentEffect)
        requires
            checks@.len() == priced_products(ctx.facts(ContextKey::Signals)).len(),
        ensures
            r@ == price_validations(ctx.facts(ContextKey::Signals), checks@),
    {
        let ps = filter_facts(ctx.get(ContextKey::Signals), FactTest::IdPrefix, "normalized:");
        let ghost spec = price_validations(ctx.facts(ContextKey::Signals), checks@);
        let n = ps.len();
        let mut facts: Vec<Fact> = Vec::new();
        let mut i: usize = 0;
        proof {
            reveal_strlit("Price: $");
        }
        while i < n
            invariant
                n == ps.len(),
                i <= n,
                spec.len() == n,
                fact_views(facts@) == spec.take(i as int),
            decreases n - i,
        {
            let s = &ps[i];
            let check = checks[i];
            let pid = strip_prefix_or_str(s.id.as_str(), "normalized:", "unknown");
            let price = read_field(s.content.as_str(), "Price: $", "0.00");
            let mut id = String::from_str("price-valid:");
            id.append(pid.as_str());
            let mut c = String::from_str("Price validation ");
            c.append(pid.as_str());
            c.append(": $");
            c.append(price.as_str());
            c.append(" | Status: ");
            c.append(
                match check {
                    PriceCheck::InRange => "VALID",
                    _ => "INVALID",
                },
            );
            c.append(" | Reason: ");
            c.append(
                match check {
                    PriceCheck::NotPositive => "Price must be positive",
                    PriceCheck::TooHigh => "Price exceeds maximum",
                    _ => "Valid price",
                },
            );
            let f = Fact::from_strings(ContextKey::Signals, id, c);
            proof {
                assert(f@ == spec[i as int]);
                lemma_take_push(spec, i as int);
            }
            push_fact(&mut facts, f);
            i = i + 1;
        }
        assert(spec.take(n as int) =~= spec);
        AgentEffect::with_facts(facts)
    }
}

// ---------------------------------------------------------------------------
// Schema
// ---------------------------------------------------------------------------

/// States the catalog schema rules.
pub struct SchemaInvariantAgent;

pub open spec fn schema_facts() -> Seq<FactView> {
    seq![
        fv(
            ContextKey::Constraints,
            "schema:required-fields"@,
            "Schema: Name, Category, Price required | Name: non-empty string | Price: positive number"@,
        ),
        fv(
            ContextKey::Constraints,
            "schema:price-range"@,
            "Schema: Price range $0.01 - $9,999.99 | Currency: USD"@,
        ),
    ]
}

impl Agent for SchemaInvariantAgent {
    fn name(&self) -> (r: &'static str)
        ensures
            r@ == "SchemaInvariantAgent"@,
    {
        "SchemaInvariantAgent"
    }

    fn dependencies(&self) -> (r: Vec<ContextKey>)
        ensures
            r@ == seq![ContextKey::Signals],
    {
        vec![ContextKey::Signals]
    }

    /// Runs once: when normalized products exist and no constraint does.
    open spec fn runs_on(&self, ctx: Context) -> bool {
        (any(ctx.facts(ContextKey::Signals), id_prefix("normalized:"@)) && ctx.facts(
            ContextKey::Constraints,
        ).len() == 0)
    }

    fn accepts(&self, ctx: &Context) -> (r: bool) {
        exists_fact(ctx.get(ContextKey::Signals), FactTest::IdPrefix, "normalized:")
            && !ctx.has(ContextKey::Constraints)
    }

    open spec fn proposes(&self, ctx: Context) -> Seq<FactView> {
        schema_facts()
    }

    fn execute(&self, ctx: &Context) -> (r: AgentEffect) {
        let mut facts: Vec<Fact> = Vec::new();
        push_fact(
            &mut facts,
            Fact::new(
                ContextKey::Constraints,
                "schema:required-fields",
                "Schema: Name, Category, Price required | Name: non-empty string | Price: positive number",
            ),
        );
        push_fact(
            &mut facts,
            Fact::new(
                ContextKey::Constraints,
                "schema:price-range",
                "Schema: Price range $0.01 - $9,999.99 | Currency: USD",
            ),
        );
        let r = AgentEffect::with_facts(facts);
        assert(r@ =~= schema_facts());
        r
    }
}

// ---------------------------------------------------------------------------
// Readiness
// ---------------------------------------------------------------------------

/// Decides which products are ready for publication.
pub struct ProductReadyAgent;

/// A price validation that passes: it reads `VALID` and not `INVALID`.
pub open spec fn price_passes(content: Seq<char>) -> bool {
    contains(content, "VALID"@) && !contains(content, "INVALID"@)
}

/// Whether a price validation passes.
fn validation_passes(content: &str) -> (r: bool)
    ensures
        r == price_passes(content@),
{
    str_contains(content, "VALID") && !str_contains(content, "INVALID")
}

pub open spec fn readiness_row(signals: Seq<Fact>, s: Fact) -> Seq<FactView> {
    if "normalized:"@.is_prefix_of(s.id@) {
        let pid = strip_prefix_or(s.id@, "normalized:"@, "unknown"@);
        let has_category = any(signals, id_is("category:"@ + pid));
        let price_ok = match find(signals, id_is("price-valid:"@ + pid)) {
            Some(p) => price_passes(p.content@),
            None => false,
        };
        let ready = has_category && price_ok;
        seq![
            fv(
                ContextKey::Evaluations,
                "eval:"@ + pid,
                "Product "@ + pid + ": "@ + (if ready {
                    "READY"@
                } else {
                    "NOT READY"@
                }) + " | Category: "@ + (if has_category {
                    "Assigned"@
                } else {
                    "Missing"@
                }) + " | Price: "@ + (if price_ok {
                    "Valid"@
                } else {
                    "Invalid"@
                }) + " | Status: "@ + (if ready {
                    "PUBLISH"@
                } else {
                    "REVIEW"@
                }),
            ),
        ]
    } else {
        seq![]
    }
}

pub open spec fn readiness_facts(signals: Seq<Fact>) -> Seq<FactView> {
    signals.map_values(|s: Fact| readiness_row(signals, s)).flatten()
}

impl Agent for ProductReadyAgent {
    fn name(&self) -> (r: &'static str)
        ensures
            r@ == "ProductReadyAgent"@,
    {
        "ProductReadyAgent"
    }

    fn dependencies(&self) -> (r: Vec<ContextKey>)
        ensures
            r@ == seq![ContextKey::Signals, ContextKey::Constraints],
    {
        vec![ContextKey::Signals, ContextKey::Constraints]
    }

    /// Runs once: when normalized products, categories, price validations and
    /// constraints exist, and no evaluation does.
    open spec fn runs_on(&self, ctx: Context) -> bool {
        (any(ctx.facts(ContextKey::Signals), id_prefix("normalized:"@)) && any(
            ctx.facts(ContextKey::Signals),
            id_prefix("category:"@),
        ) && any(ctx.facts(ContextKey::Signals), id_prefix("price-valid:"@)) && ctx.facts(
            ContextKey::Constraints,
        ).len() > 0 && ctx.facts(ContextKey::Evaluations).len() == 0)
    }

    fn accepts(&self, ctx: &Context) -> (r: bool) {
        let signals = ctx.get(ContextKey::Signals);
        exists_fact(signals, FactTest::IdPrefix, "normalized:") && exists_fact(
            signals,
            FactTest::IdPrefix,
            "category:",
        ) && exists_fact(signals, FactTest::IdPrefix, "price-valid:") && ctx.has(
            ContextKey::Constraints,
        ) && !ctx.has(ContextKey::Evaluations)
    }

    open spec fn proposes(&self, ctx: Context) -> Seq<FactView> {
        readiness_facts(ctx.facts(ContextKey::Signals))
    }

    #[verifier::loop_isolation(false)]
    fn execute(&self, ctx: &Context) -> (r: AgentEffect) {
        let signals = ctx.get(ContextKey::Signals);
        let ghost rows = signals@.map_values(|s: Fact| readiness_row(signals@, s));
        let n = signals.len();
        let mut facts: Vec<Fact> = Vec::new();
        let mut i: usize = 0;
        while i < n
            invariant
                n == signals.len(),
                i <= n,
                rows.len() == n,
                fact_views(facts@) == rows.take(i as int).flatten(),
            decreases n - i,
        {
            let s = &signals[i];
            proof {
                lemma_rows_step(rows, i as int);
            }
            if str_starts_with(s.id.as_str(), "normalized:") {
                let pid = strip_prefix_or_str(s.id.as_str(), "normalized:", "unknown");
                let mut cat_id = String::from_str("category:");
                cat_id.append(pid.as_str());
                let mut price_id = String::from_str("price-valid:");
                price_id.append(pid.as_str());
                let has_category = exists_fact(signals, FactTest::IdIs, cat_id.as_str());
                let price_ok = match position(signals, FactTest::IdIs, price_id.as_str()) {
                    Some(k) => validation_passes(signals[k].content.as_str()),
                    None => false,
                };
                let ready = has_category && price_ok;
                let mut id = String::from_str("eval:");
                id.append(pid.as_str());
                let mut c = String::from_str("Product ");
                c.append(pid.as_str());
                c.append(": ");
                c.append(
                    if ready {
                        "READY"
                    } else {
                        "NOT READY"
                    },
                );
                c.append(" | Category: ");
                c.append(
                    if has_category {
                        "Assigned"
                    } else {
                        "Missing"
                    },
                );
                c.append(" | Price: ");
                c.append(
                    if price_ok {
                        "Valid"
                    } else {
                        "Invalid"
                    },
                );
                c.append(" | Status: ");
                c.append(
                    if ready {
                        "PUBLISH"
                    } else {
                        "REVIEW"
                    },
                );
                let f = Fact::from_strings(ContextKey::Evaluations, id, c);
                push_fact(&mut facts, f);
                proof {
                    assert(rows[i as int] =~= seq![f@]);
                    assert(fact_views(facts@) =~= rows.take(i as int).flatten() + rows[i as int]);
                }
            } else {
                proof {
                    assert(rows[i as int] =~= Seq::<FactView>::empty());
                    assert(fact_views(facts@) =~= rows.take(i as int).flatten() + rows[i as int]);
                }
            }
            i = i + 1;
        }
        proof {
            lemma_rows_done(rows, n as int);
        }
        AgentEffect::with_facts(facts)
    }
}

// ---------------------------------------------------------------------------
// Invariants
// ---------------------------------------------------------------------------

/// Acceptance: no product marked for publication has an invalid price.
pub struct RequireValidPrices;

pub open spec fn published_invalid() -> spec_fn(Fact) -> bool {
    |f: Fact| contains(f.content@, "PUBLISH"@) && contains(f.content@, "Invalid"@)
}

pub open spec fn valid_prices_verdict(evaluations: Seq<Fact>) -> Verdict {
    match find(evaluations, published_invalid()) {
        Some(e) => broken_at("product marked for publication has invalid price"@, e.id@),
        None => Verdict::Pass,
    }
}

pub fn is_published_invalid(f: &Fact) -> (r: bool)
    ensures
        r == published_invalid()(*f),
{
    str_contains(f.content.as_str(), "PUBLISH") && str_contains(f.content.as_str(), "Invalid")
}

impl Invariant for RequireValidPrices {
    fn name(&self) -> (r: &'static str)
        ensures
            r@ == "require_valid_prices"@,
    {
        "require_valid_prices"
    }

    fn class(&self) -> (r: InvariantClass)
        ensures
            r == InvariantClass::Acceptance,
    {
        InvariantClass::Acceptance
    }

    open spec fn verdict(&self, ctx: Context) -> Verdict {
        valid_prices_verdict(ctx.facts(ContextKey::Evaluations))
    }

    fn check(&self, ctx: &Context) -> (r: InvariantResult) {
        let evaluations = ctx.get(ContextKey::Evaluations);
        match position_by(evaluations, is_published_invalid, Ghost(published_invalid())) {
            Some(k) => InvariantResult::violated_at(
                String::from_str("product marked for publication has invalid price"),
                evaluations[k].id.clone(),
            ),
            None => InvariantResult::Holds,
        }
    }
}

/// Semantic: no two normalized products share a name.
pub struct RequireNoDuplicates;

/// A normalized product's name.
pub open spec fn normalized_name(c: Seq<char>) -> Seq<char> {
    field_after(c, "Name: "@, ""@)
}

/// One of the first `k` normalized products has the non-empty name `nm`.
pub open spec fn nonempty_named_before(ns: Seq<Fact>, k: int, nm: Seq<char>) -> bool {
    exists|j: int| 0 <= j < k && normalized_name(ns[j].content@) == nm && nm.len() > 0
}

/// The `k`-th normalized product repeats the non-empty name of an earlier one.
pub open spec fn repeats_name(ns: Seq<Fact>, k: int) -> bool {
    normalized_name(ns[k].content@).len() > 0 && exists|j: int|
        0 <= j < k && normalized_name(ns[j].content@) == normalized_name(ns[k].content@)
}

pub open spec fn is_first_repeat(ns: Seq<Fact>, k: int) -> bool {
    0 <= k < ns.len() && repeats_name(ns, k) && forall|j: int| 0 <= j < k ==> !repeats_name(ns, j)
}

/// The first normalized product whose name was already seen, if any.
pub open spec fn no_duplicates_verdict(signals: Seq<Fact>) -> Verdict {
    let ns = signals.filter(id_prefix("normalized:"@));
    if exists|k: int| is_first_repeat(ns, k) {
        let k = choose|k: int| is_first_repeat(ns, k);
        broken_at("duplicate product name found: "@ + normalized_name(ns[k].content@), ns[k].id@)
    } else {
        Verdict::Pass
    }
}

impl Invariant for RequireNoDuplicates {
    fn name(&self) -> (r: &'static str)
        ensures
            r@ == "require_no_duplicates"@,
    {
        "require_no_duplicates"
    }

    fn class(&self) -> (r: InvariantClass)
        ensures
            r == InvariantClass::Semantic,
    {
        InvariantClass::Semantic
    }

    open spec fn verdict(&self, ctx: Context) -> Verdict {
        no_duplicates_verdict(ctx.facts(ContextKey::Signals))
    }

    #[verifier::loop_isolation(false)]
    fn check(&self, ctx: &Context) -> (r: InvariantResult) {
        let ns = filter_facts(ctx.get(ContextKey::Signals), FactTest::IdPrefix, "normalized:");
        let n = ns.len();
        let mut seen: Vec<String> = Vec::new();
        let mut k: usize = 0;
        proof {
            reveal_strlit("Name: ");
        }
        while k < n
            invariant
                n == ns.len(),
                k <= n,
                forall|j: int| 0 <= j < k ==> !repeats_name(ns@, j),
                forall|nm: Seq<char>|
                    #![trigger in_seen(seen@, nm)]
                    #![trigger nonempty_named_before(ns@, k as int, nm)]
                    in_seen(seen@, nm) == nonempty_named_before(ns@, k as int, nm),
            decreases n - k,
        {
            let name = read_field(ns[k].content.as_str(), "Name: ", "");
            let mut found = false;
            let mut j: usize = 0;
            while j < seen.len()
                invariant
                    j <= seen@.len(),
                    found == exists|t: int| 0 <= t < j && seen@[t]@ == name@,
                decreases seen@.len() - j,
            {
                if str_eq(seen[j].as_str(), name.as_str()) {
                    found = true;
                }
                j = j + 1;
            }
            let nonempty = name.as_str().unicode_len() > 0;
            proof {
                assert(found == in_seen(seen@, name@));
                assert(in_seen(seen@, name@) == nonempty_named_before(ns@, k as int, name@));
                assert((nonempty && found) == repeats_name(ns@, k as int));
            }
            if nonempty && found {
                proof {
                    assert(is_first_repeat(ns@, k as int));
                    let kk = choose|kk: int| is_first_repeat(ns@, kk);
                    assert(is_first_repeat(ns@, kk));
                    if kk < k {
                        assert(!repeats_name(ns@, kk));
                    } else if kk > k {
                        assert(!repeats_name(ns@, k as int));
                    }
                }
                let mut c = String::from_str("duplicate product name found: ");
                c.append(name.as_str());
                return InvariantResult::violated_at(c, ns[k].id.clone());
            }
            if nonempty {
                let ghost old_seen = seen@;
                seen.push(name);
                proof {
                    assert forall|nm: Seq<char>|
                        #![trigger in_seen(seen@, nm)]
                        #![trigger nonempty_named_before(ns@, k + 1, nm)]
                        in_seen(seen@, nm) == nonempty_named_before(ns@, k + 1, nm) by {
                        if in_seen(seen@, nm) {
                            let j = choose|j: int| 0 <= j < seen@.len() && seen@[j]@ == nm;
                            if j < old_seen.len() {
                                assert(old_seen[j]@ == nm);
                                assert(in_seen(old_seen, nm));
                                assert(nonempty_named_before(ns@, k as int, nm));
                            }
                        }
                        if nonempty_named_before(ns@, k + 1, nm) {
                            let j = choose|j: int|
                                0 <= j < k + 1 && normalized_name(ns@[j].content@) == nm
                                    && nm.len() > 0;
                            if j < k {
                                assert(nonempty_named_before(ns@, k as int, nm));
                                assert(in_seen(old_seen, nm));
                                let t = choose|t: int|
                                    0 <= t < old_seen.len() && old_seen[t]@ == nm;
                                assert(seen@[t]@ == nm);
                            } else {
                                assert(seen@[old_seen.len() as int]@ == nm);
                            }
                        }
                    }
                }
            } else {
                proof {
                    assert forall|nm: Seq<char>|
                        #![trigger in_seen(seen@, nm)]
                        #![trigger nonempty_named_before(ns@, k + 1, nm)]
                        in_seen(seen@, nm) == nonempty_named_before(ns@, k + 1, nm) by {
                        assert(in_seen(seen@, nm) == nonempty_named_before(ns@, k as int, nm));
                        if nonempty_named_before(ns@, k + 1, nm) {
                            let j = choose|j: int|
                                0 <= j < k + 1 && normalized_name(ns@[j].content@) == nm
                                    && nm.len() > 0;
                            assert(j < k);
                        }
                    }
                }
            }
            k = k + 1;
        }
        proof {
            if exists|kk: int| is_first_repeat(ns@, kk) {
                let kk = choose|kk: int| is_first_repeat(ns@, kk);
                assert(!repeats_name(ns@, kk));
            }
        }
        InvariantResult::Holds
    }
}

/// Structural: every normalized product has a name, a category and a price.
pub struct RequireRequiredAttributes;

pub open spec fn missing_attributes() -> spec_fn(Fact) -> bool {
    |f: Fact|
        "normalized:"@.is_prefix_of(f.id@) && !(contains(f.content@, "Name:"@) && contains(
            f.content@,
            "Category:"@,
        ) && contains(f.content@, "Price:"@))
}

pub fn is_missing_attributes(f: &Fact) -> (r: bool)
    ensures
        r == missing_attributes()(*f),
{
    str_starts_with(f.id.as_str(), "normalized:") && !(str_contains(f.content.as_str(), "Name:")
        && str_contains(f.content.as_str(), "Category:") && str_contains(
        f.content.as_str(),
        "Price:",
    ))
}

pub open spec fn required_attributes_verdict(signals: Seq<Fact>) -> Verdict {
    match find(signals, missing_attributes()) {
        Some(s) => broken_at("product missing required attributes"@, s.id@),
        None => Verdict::Pass,
    }
}

impl Invariant for RequireRequiredAttributes {
    fn name(&self) -> (r: &'static str)
        ensures
            r@ == "require_required_attributes"@,
    {
        "require_required_attributes"
    }

    fn class(&self) -> (r: InvariantClass)
        ensures
            r == InvariantClass::Structure,
    {
        InvariantClass::Structure
    }

    open spec fn verdict(&self, ctx: Context) -> Verdict {
        required_attributes_verdict(ctx.facts(ContextKey::Signals))
    }

    fn check(&self, ctx: &Context) -> (r: InvariantResult) {
        let signals = ctx.get(ContextKey::Signals);
        match position_by(signals, is_missing_attributes, Ghost(missing_attributes())) {
            Some(k) => InvariantResult::violated_at(
                String::from_str("product missing required attributes"),
                signals[k].id.clone(),
            ),
            None => InvariantResult::Holds,
        }
    }
}

// ---------------------------------------------------------------------------
// Laws: each agent runs once
// ---------------------------------------------------------------------------

/// The seeds always list at least one feed entry.
pub proof fn lemma_feed_items_nonempty(seeds: Seq<Fact>)
    ensures
        feed_items(seeds).len() > 0,
{
    match find(seeds, feed_seed()) {
        Some(s) => {
            reveal_strlit("|");
            lemma_trimmed_pieces_nonempty(s.content@, "|"@);
        },
        None => {},
    }
}

/// Law: the feed-ingestion agent runs once: once the signals it proposes on a
/// context it runs on are added, it does not run again.
pub proof fn lemma_feed_ingestion_runs_once(ctx: Context, next: Context)
    requires
        FeedIngestionAgent.runs_on(ctx),
        next.extends(ctx, FeedIngestionAgent.proposes(ctx)),
    ensures
        !FeedIngestionAgent.runs_on(next),
{
    lemma_feed_items_nonempty(ctx.facts(ContextKey::Seeds));
    lemma_prefix_of_concat("product:"@, dec(1));
    lemma_added_prefixed(ctx, next, FeedIngestionAgent.proposes(ctx), 0, "product:"@);
}

/// Law: the deduplication agent runs once.
pub proof fn lemma_deduplication_runs_once(ctx: Context, next: Context)
    requires
        DeduplicationAgent.runs_on(ctx),
        next.extends(ctx, DeduplicationAgent.proposes(ctx)),
    ensures
        !DeduplicationAgent.runs_on(next),
{
    let signals = ctx.facts(ContextKey::Signals);
    lemma_any_filter(signals, id_prefix("product:"@));
    let ps = signals.filter(id_prefix("product:"@));
    lemma_prefix_of_concat("dedup:"@, strip_prefix_or(ps[0].id@, "product:"@, "unknown"@));
    lemma_added_prefixed(ctx, next, DeduplicationAgent.proposes(ctx), 0, "dedup:"@);
}

/// Law: the attribute-normalization agent runs once when it normalizes a
/// product.
pub proof fn lemma_attribute_normalization_runs_once(ctx: Context, next: Context)
    requires
        AttributeNormalizationAgent.runs_on(ctx),
        next.extends(ctx, AttributeNormalizationAgent.proposes(ctx)),
        AttributeNormalizationAgent.proposes(ctx).len() > 0,
    ensures
        !AttributeNormalizationAgent.runs_on(next),
{
    let signals = ctx.facts(ContextKey::Signals);
    let rows = signals.map_values(|s: Fact| normalization_row(signals, s));
    let pred = |v: FactView| v.key == ContextKey::Signals && "normalized:"@.is_prefix_of(v.id);
    assert forall|i: int, j: int| 0 <= i < rows.len() && 0 <= j < rows[i].len() implies pred(
        #[trigger] rows[i][j],
    ) by {
        let s = signals[i];
        let pid = strip_prefix_or(s.id@, "dedup:"@, "unknown"@);
        lemma_prefix_of_concat("normalized:"@, pid);
    }
    lemma_flatten_all(rows, pred);
    lemma_added_prefixed(ctx, next, AttributeNormalizationAgent.proposes(ctx), 0, "normalized:"@);
}

/// Law: the category-inference agent runs once.
pub proof fn lemma_category_inference_runs_once(ctx: Context, next: Context)
    requires
        CategoryInferenceAgent.runs_on(ctx),
        next.extends(ctx, CategoryInferenceAgent.proposes(ctx)),
    ensures
        !CategoryInferenceAgent.runs_on(next),
{
    let signals = ctx.facts(ContextKey::Signals);
    let rows = signals.map_values(|s: Fact| category_row(s));
    let pred = |v: FactView| v.key == ContextKey::Signals && "category:"@.is_prefix_of(v.id);
    assert forall|i: int, j: int| 0 <= i < rows.len() && 0 <= j < rows[i].len() implies pred(
        #[trigger] rows[i][j],
    ) by {
        let s = signals[i];
        lemma_prefix_of_concat("category:"@, strip_prefix_or(s.id@, "normalized:"@, "unknown"@));
    }
    lemma_flatten_all(rows, pred);
    let i = choose|i: int| 0 <= i < signals.len() && id_prefix("normalized:"@)(#[trigger] signals[i]);
    lemma_flatten_nonempty(rows, i);
    lemma_added_prefixed(ctx, next, CategoryInferenceAgent.proposes(ctx), 0, "category:"@);
}

/// Law: the schema agent runs once.
pub proof fn lemma_schema_invariant_runs_once(ctx: Context, next: Context)
    requires
        SchemaInvariantAgent.runs_on(ctx),
        next.extends(ctx, SchemaInvariantAgent.proposes(ctx)),
    ensures
        !SchemaInvariantAgent.runs_on(next),
{
    lemma_added_fact(ctx, next, SchemaInvariantAgent.proposes(ctx), 0);
}

/// Law: the product-ready agent runs once.
pub proof fn lemma_product_ready_runs_once(ctx: Context, next: Context)
    requires
        ProductReadyAgent.runs_on(ctx),
        next.extends(ctx, ProductReadyAgent.proposes(ctx)),
    ensures
        !ProductReadyAgent.runs_on(next),
{
    let signals = ctx.facts(ContextKey::Signals);
    let rows = signals.map_values(|s: Fact| readiness_row(signals, s));
    lemma_flatten_all(rows, keyed(ContextKey::Evaluations));
    let i = choose|i: int| 0 <= i < signals.len() && id_prefix("normalized:"@)(#[trigger] signals[i]);
    lemma_flatten_nonempty(rows, i);
    lemma_added_fact(ctx, next, ProductReadyAgent.proposes(ctx), 0);
}

/// Law: the pricing-validation agent runs once: once the validations it
/// makes on a context it runs on are added, whatever the prices read as, it
/// does not run again.
pub proof fn lemma_pricing_validation_runs_once(
    ctx: Context,
    next: Context,
    checks: Seq<PriceCheck>,
)
    requires
        PricingValidationAgent.runs_on(ctx),
        checks.len() == priced_products(ctx.facts(ContextKey::Signals)).len(),
        next.extends(ctx, price_validations(ctx.facts(ContextKey::Signals), checks)),
    ensures
        !PricingValidationAgent.runs_on(next),
{
    let signals = ctx.facts(ContextKey::Signals);
    lemma_any_filter(signals, id_prefix("normalized:"@));
    let s0 = priced_products(signals)[0];
    lemma_prefix_of_concat("price-valid:"@, strip_prefix_or(s0.id@, "normalized:"@, "unknown"@));
    lemma_added_prefixed(ctx, next, price_validations(signals, checks), 0, "price-valid:"@);
}

} // verus!
