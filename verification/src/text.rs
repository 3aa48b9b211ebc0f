//! Text primitives over character sequences.
//!
//! Every function here is specified over `Seq<char>`, the view of `str` and
//! `String`. The behaviour mirrors the standard library operations the domain
//! agents rely on (`contains`, `starts_with`, `split`, `split_whitespace`,
//! `trim`, unsigned parsing and decimal formatting), stated exactly.
use vstd::prelude::*;
use vstd::string::*;

verus! {

// ---------------------------------------------------------------------------
// Characters
// ---------------------------------------------------------------------------

/// Unicode `White_Space`, the property `char::is_whitespace` tests.
pub open spec fn is_ws(c: char) -> bool {
    let u = c as u32;
    (0x9 <= u && u <= 0xD) || u == 0x20 || u == 0x85 || u == 0xA0 || u == 0x1680 || (0x2000 <= u
        && u <= 0x200A) || u == 0x2028 || u == 0x2029 || u == 0x202F || u == 0x205F || u == 0x3000
}

pub fn is_whitespace(c: char) -> (r: bool)
    ensures
        r == is_ws(c),
{
    let u = c as u32;
    (0x9 <= u && u <= 0xD) || u == 0x20 || u == 0x85 || u == 0xA0 || u == 0x1680 || (0x2000 <= u
        && u <= 0x200A) || u == 0x2028 || u == 0x2029 || u == 0x202F || u == 0x205F || u == 0x3000
}

/// The characters of a string slice, in order.
pub fn chars_of(s: &str) -> (v: Vec<char>)
    ensures
        v@ == s@,
{
    let n = s.unicode_len();
    let mut v: Vec<char> = Vec::new();
    let mut i: usize = 0;
    while i < n
        invariant
            n == s@.len(),
            i <= n,
            v@ == s@.take(i as int),
        decreases n - i,
    {
        let c = s.get_char(i);
        v.push(c);
        i = i + 1;
        assert(v@ =~= s@.take(i as int));
    }
    assert(v@ =~= s@);
    v
}

/// A `String` holding exactly the characters `from..to` of `s`.
pub fn slice_string(s: &str, from: usize, to: usize) -> (r: String)
    requires
        from <= to <= s@.len(),
    ensures
        r@ == s@.subrange(from as int, to as int),
{
    String::from_str(s.substring_char(from, to))
}

/// String equality, as `==` on `str`.
pub fn str_eq(a: &str, b: &str) -> (r: bool)
    ensures
        r == (a@ == b@),
{
    let x = String::from_str(a);
    let y = String::from_str(b);
    x == y
}

// ---------------------------------------------------------------------------
// Occurrences of a pattern
// ---------------------------------------------------------------------------

/// `p` occurs in `s` starting at index `i`.
pub open spec fn occurs_at(s: Seq<char>, p: Seq<char>, i: int) -> bool {
    0 <= i && i + p.len() <= s.len() && s.subrange(i, i + p.len()) == p
}

/// `str::contains` with a string pattern.
pub open spec fn contains(s: Seq<char>, p: Seq<char>) -> bool {
    exists|i: int| occurs_at(s, p, i)
}

/// `i` is the first occurrence of `p` in `s` at or after `start`.
pub open spec fn is_first_occ(s: Seq<char>, p: Seq<char>, start: int, i: int) -> bool {
    &&& start <= i
    &&& occurs_at(s, p, i)
    &&& forall|j: int| start <= j < i ==> !occurs_at(s, p, j)
}

/// The first occurrence of `p` in `s` at or after `start`, if any.
pub open spec fn first_occ(s: Seq<char>, p: Seq<char>, start: int) -> Option<int> {
    if exists|i: int| is_first_occ(s, p, start, i) {
        Some(choose|i: int| is_first_occ(s, p, start, i))
    } else {
        None
    }
}

pub proof fn lemma_first_occ_unique(s: Seq<char>, p: Seq<char>, start: int, i: int, k: int)
    requires
        is_first_occ(s, p, start, i),
        is_first_occ(s, p, start, k),
    ensures
        i == k,
{
}

pub proof fn lemma_first_occ_is(s: Seq<char>, p: Seq<char>, start: int, i: int)
    requires
        is_first_occ(s, p, start, i),
    ensures
        first_occ(s, p, start) == Some(i),
{
    let k = choose|k: int| is_first_occ(s, p, start, k);
    lemma_first_occ_unique(s, p, start, i, k);
}

/// Whether `p` occurs in `s` at index `i`.
pub fn occurs_at_exec(s: &Vec<char>, p: &Vec<char>, i: usize) -> (r: bool)
    requires
        i + p.len() <= s.len(),
    ensures
        r == occurs_at(s@, p@, i as int),
{
    let n = p.len();
    let mut j: usize = 0;
    while j < n
        invariant
            n == p.len(),
            i + n <= s.len(),
            j <= n,
            forall|k: int| 0 <= k < j ==> s@[i + k] == p@[k],
        decreases n - j,
    {
        if s[i + j] != p[j] {
            assert(s@.subrange(i as int, i + n)[j as int] != p@[j as int]);
            return false;
        }
        j = j + 1;
    }
    assert(s@.subrange(i as int, i + n) =~= p@);
    true
}

/// The first index at or after `start` where `p` occurs in `s`.
pub fn find_from(s: &Vec<char>, p: &Vec<char>, start: usize) -> (r: Option<usize>)
    requires
        start <= s.len(),
    ensures
        match r {
            Some(i) => is_first_occ(s@, p@, start as int, i as int) && first_occ(
                s@,
                p@,
                start as int,
            ) == Some(i as int),
            None => (forall|j: int| start <= j ==> !occurs_at(s@, p@, j)) && first_occ(
                s@,
                p@,
                start as int,
            ) is None,
        },
{
    let n = s.len();
    let m = p.len();
    if m == 0 {
        proof {
            assert(s@.subrange(start as int, start as int) =~= p@);
            assert(is_first_occ(s@, p@, start as int, start as int));
            lemma_first_occ_is(s@, p@, start as int, start as int);
        }
        return Some(start);
    }
    if m > n {
        proof {
            assert forall|j: int| start <= j implies !occurs_at(s@, p@, j) by {}
        }
        return None;
    }
    let mut i: usize = start;
    while i <= n - m
        invariant
            n == s.len(),
            m == p.len(),
            0 < m <= n,
            start <= i <= n,
            forall|j: int| start <= j < i ==> !occurs_at(s@, p@, j),
        decreases n - i,
    {
        if occurs_at_exec(s, p, i) {
            proof {
                assert(is_first_occ(s@, p@, start as int, i as int));
                lemma_first_occ_is(s@, p@, start as int, i as int);
            }
            return Some(i);
        }
        i = i + 1;
    }
    proof {
        assert forall|j: int| start <= j implies !occurs_at(s@, p@, j) by {
            if j >= i {
                assert(j + m > n);
            }
        }
    }
    None
}

/// `str::contains` with a string pattern.
pub fn str_contains(s: &str, p: &str) -> (r: bool)
    ensures
        r == contains(s@, p@),
{
    let sv = chars_of(s);
    let pv = chars_of(p);
    let f = find_from(&sv, &pv, 0);
    match f {
        Some(i) => {
            assert(occurs_at(s@, p@, i as int));
            true
        },
        None => false,
    }
}

/// A text occurs in anything that ends with it.
pub proof fn lemma_contains_after_prefix(a: Seq<char>, b: Seq<char>)
    ensures
        contains(a + b, b),
{
    assert((a + b).subrange(a.len() as int, (a.len() + b.len()) as int) =~= b);
    assert(occurs_at(a + b, b, a.len() as int));
}

/// A text occurs in anything that has it in the middle.
pub proof fn lemma_contains_middle(a: Seq<char>, p: Seq<char>, b: Seq<char>)
    ensures
        contains(a + p + b, p),
{
    assert((a + p + b).subrange(a.len() as int, (a.len() + p.len()) as int) =~= p);
    assert(occurs_at(a + p + b, p, a.len() as int));
}

/// A text is a prefix of itself followed by anything.
pub proof fn lemma_prefix_of_concat(a: Seq<char>, b: Seq<char>)
    ensures
        a.is_prefix_of(a + b),
{
    assert((a + b).subrange(0, a.len() as int) =~= a);
}

/// `str::starts_with` with a string pattern.
pub fn str_starts_with(s: &str, p: &str) -> (r: bool)
    ensures
        r == p@.is_prefix_of(s@),
{
    let sv = chars_of(s);
    let pv = chars_of(p);
    if pv.len() > sv.len() {
        return false;
    }
    let r = occurs_at_exec(&sv, &pv, 0);
    r
}

/// `str::ends_with` with a string pattern.
pub fn str_ends_with(s: &str, p: &str) -> (r: bool)
    ensures
        r == p@.is_suffix_of(s@),
{
    let sv = chars_of(s);
    let pv = chars_of(p);
    if pv.len() > sv.len() {
        return false;
    }
    let r = occurs_at_exec(&sv, &pv, sv.len() - pv.len());
    r
}

/// `str::strip_prefix` with a string pattern.
pub open spec fn strip_prefix(s: Seq<char>, p: Seq<char>) -> Option<Seq<char>> {
    if p.is_prefix_of(s) {
        Some(s.subrange(p.len() as int, s.len() as int))
    } else {
        None
    }
}

pub fn str_strip_prefix(s: &str, p: &str) -> (r: Option<String>)
    ensures
        match r {
            Some(t) => strip_prefix(s@, p@) == Some(t@),
            None => strip_prefix(s@, p@) is None,
        },
{
    if str_starts_with(s, p) {
        let n = s.unicode_len();
        let m = p.unicode_len();
        Some(slice_string(s, m, n))
    } else {
        None
    }
}

/// `str::strip_suffix` with a string pattern.
pub open spec fn strip_suffix(s: Seq<char>, p: Seq<char>) -> Option<Seq<char>> {
    if p.is_suffix_of(s) {
        Some(s.subrange(0, s.len() - p.len()))
    } else {
        None
    }
}

pub fn str_strip_suffix(s: &str, p: &str) -> (r: Option<String>)
    ensures
        match r {
            Some(t) => strip_suffix(s@, p@) == Some(t@),
            None => strip_suffix(s@, p@) is None,
        },
{
    if str_ends_with(s, p) {
        let n = s.unicode_len();
        let m = p.unicode_len();
        Some(slice_string(s, 0, n - m))
    } else {
        None
    }
}

/// `text.strip_prefix(p).unwrap_or(default)`.
pub open spec fn strip_prefix_or(s: Seq<char>, p: Seq<char>, default: Seq<char>) -> Seq<char> {
    match strip_prefix(s, p) {
        Some(t) => t,
        None => default,
    }
}

pub fn strip_prefix_or_str(s: &str, p: &str, default: &str) -> (r: String)
    ensures
        r@ == strip_prefix_or(s@, p@, default@),
{
    match str_strip_prefix(s, p) {
        Some(t) => t,
        None => String::from_str(default),
    }
}

// ---------------------------------------------------------------------------
// Splitting on a pattern
// ---------------------------------------------------------------------------

/// The pieces of `s[start..]` between non-overlapping occurrences of `p`,
/// found left to right, as `str::split` yields them.
pub open spec fn pieces_from(s: Seq<char>, p: Seq<char>, start: int) -> Seq<Seq<char>>
    decreases s.len() - start,
{
    if p.len() > 0 && 0 <= start <= s.len() {
        match first_occ(s, p, start) {
            Some(i) => if start <= i && i + p.len() <= s.len() {
                seq![s.subrange(start, i)] + pieces_from(s, p, i + p.len())
            } else {
                seq![]
            },
            None => seq![s.subrange(start, s.len() as int)],
        }
    } else {
        seq![]
    }
}

/// `str::split` with a non-empty string pattern, collected.
pub open spec fn split(s: Seq<char>, p: Seq<char>) -> Seq<Seq<char>> {
    pieces_from(s, p, 0)
}

/// The `n`-th item of an iterator over `items`, as `Iterator::nth`.
pub open spec fn nth<T>(items: Seq<T>, n: int) -> Option<T> {
    if 0 <= n < items.len() {
        Some(items[n])
    } else {
        None
    }
}

/// The views of a sequence of strings.
pub open spec fn views(v: Seq<String>) -> Seq<Seq<char>> {
    v.map_values(|x: String| x@)
}

/// `str::split` with a non-empty string pattern, collected into owned strings.
pub fn split_str(s: &str, p: &str) -> (r: Vec<String>)
    requires
        p@.len() > 0,
    ensures
        views(r@) == split(s@, p@),
{
    let sv = chars_of(s);
    let pv = chars_of(p);
    let n = sv.len();
    let m = pv.len();
    let mut out: Vec<String> = Vec::new();
    let mut start: usize = 0;
    loop
        invariant
            sv@ == s@,
            pv@ == p@,
            n == s@.len(),
            m == p@.len(),
            m > 0,
            start <= n,
            split(s@, p@) == views(out@) + pieces_from(s@, p@, start as int),
        decreases n - start,
    {
        let f = find_from(&sv, &pv, start);
        match f {
            Some(i) => {
                let piece = slice_string(s, start, i);
                let ghost old_out = out@;
                out.push(piece);
                proof {
                    assert(views(out@) =~= views(old_out).push(piece@));
                    assert(pieces_from(s@, p@, start as int) == seq![s@.subrange(start as int, i as int)]
                        + pieces_from(s@, p@, i + m));
                    assert(views(old_out) + pieces_from(s@, p@, start as int) =~= views(out@)
                        + pieces_from(s@, p@, i + m));
                }
                start = i + m;
            },
            None => {
                let piece = slice_string(s, start, n);
                let ghost old_out = out@;
                out.push(piece);
                proof {
                    assert(views(out@) =~= views(old_out).push(piece@));
                    assert(pieces_from(s@, p@, start as int) == seq![s@.subrange(start as int, n as int)]);
                    assert(views(old_out) + pieces_from(s@, p@, start as int) =~= views(out@));
                }
                return out;
            },
        }
    }
}

/// The pieces of `s` split on `p`, each trimmed.
pub open spec fn trimmed_pieces(s: Seq<char>, p: Seq<char>) -> Seq<Seq<char>> {
    split(s, p).map_values(|x: Seq<char>| trim(x))
}

/// Splitting yields at least one piece.
pub proof fn lemma_trimmed_pieces_nonempty(s: Seq<char>, p: Seq<char>)
    requires
        p.len() > 0,
    ensures
        trimmed_pieces(s, p).len() > 0,
{
    lemma_split_nonempty(s, p);
}

/// `s.split(p).map(str::trim)`, collected.
pub fn split_trimmed(s: &str, p: &str) -> (r: Vec<String>)
    requires
        p@.len() > 0,
    ensures
        views(r@) == trimmed_pieces(s@, p@),
{
    let parts = split_str(s, p);
    let n = parts.len();
    let mut out: Vec<String> = Vec::new();
    let mut i: usize = 0;
    while i < n
        invariant
            n == parts.len(),
            i <= n,
            views(parts@) == split(s@, p@),
            views(out@) == trimmed_pieces(s@, p@).take(i as int),
        decreases n - i,
    {
        let t = trim_str(parts[i].as_str());
        let ghost prev = out@;
        out.push(t);
        proof {
            assert(views(parts@)[i as int] == parts@[i as int]@);
            assert(views(out@) =~= views(prev).push(t@));
            assert(trimmed_pieces(s@, p@).take(i + 1) =~= trimmed_pieces(s@, p@).take(i as int).push(
                trim(split(s@, p@)[i as int]),
            ));
        }
        i = i + 1;
    }
    assert(trimmed_pieces(s@, p@).take(n as int) =~= trimmed_pieces(s@, p@));
    out
}

/// `s.split(p).nth(n)`.
pub fn split_nth(s: &str, p: &str, n: usize) -> (r: Option<String>)
    requires
        p@.len() > 0,
    ensures
        match r {
            Some(t) => nth(split(s@, p@), n as int) == Some(t@),
            None => nth(split(s@, p@), n as int) is None,
        },
{
    let mut parts = split_str(s, p);
    assert(views(parts@).len() == parts@.len());
    if n < parts.len() {
        let t = parts.swap_remove(n);
        Some(t)
    } else {
        None
    }
}

/// `s.split(p).next().unwrap()`: the text before the first occurrence of `p`.
pub open spec fn before(s: Seq<char>, p: Seq<char>) -> Seq<char> {
    split(s, p)[0]
}

pub proof fn lemma_split_nonempty(s: Seq<char>, p: Seq<char>)
    requires
        p.len() > 0,
    ensures
        split(s, p).len() >= 1,
        split(s, p)[0] == match first_occ(s, p, 0) {
            Some(i) => s.subrange(0, i),
            None => s,
        },
{
    match first_occ(s, p, 0) {
        Some(i) => {
            let k = choose|k: int| is_first_occ(s, p, 0, k);
            assert(is_first_occ(s, p, 0, k));
        },
        None => {
            assert(s.subrange(0, s.len() as int) =~= s);
        },
    }
}

pub fn before_str(s: &str, p: &str) -> (r: String)
    requires
        p@.len() > 0,
    ensures
        r@ == before(s@, p@),
{
    proof {
        lemma_split_nonempty(s@, p@);
    }
    match split_nth(s, p, 0) {
        Some(t) => t,
        None => String::new(),
    }
}

/// The number of non-overlapping occurrences of `p` in `s`, as
/// `str::matches(p).count()`.
pub open spec fn count_matches(s: Seq<char>, p: Seq<char>) -> nat {
    (split(s, p).len() - 1) as nat
}

pub fn count_matches_str(s: &str, p: &str) -> (r: usize)
    requires
        p@.len() > 0,
    ensures
        r == count_matches(s@, p@),
{
    proof {
        lemma_split_nonempty(s@, p@);
    }
    let parts = split_str(s, p);
    assert(views(parts@).len() == parts@.len());
    parts.len() - 1
}

// ---------------------------------------------------------------------------
// Whitespace: trimming and words
// ---------------------------------------------------------------------------

pub open spec fn is_first_non_ws(s: Seq<char>, start: int, i: int) -> bool {
    start <= i < s.len() && !is_ws(s[i]) && forall|j: int| start <= j < i ==> is_ws(#[trigger] s[j])
}

/// The first non-whitespace index at or after `start`, or `s.len()`.
pub open spec fn first_non_ws(s: Seq<char>, start: int) -> int {
    if exists|i: int| is_first_non_ws(s, start, i) {
        choose|i: int| is_first_non_ws(s, start, i)
    } else {
        s.len() as int
    }
}

pub open spec fn is_first_ws(s: Seq<char>, start: int, i: int) -> bool {
    start <= i < s.len() && is_ws(s[i]) && forall|j: int| start <= j < i ==> !is_ws(#[trigger] s[j])
}

/// The first whitespace index at or after `start`, or `s.len()`.
pub open spec fn first_ws(s: Seq<char>, start: int) -> int {
    if exists|i: int| is_first_ws(s, start, i) {
        choose|i: int| is_first_ws(s, start, i)
    } else {
        s.len() as int
    }
}

pub open spec fn is_last_non_ws(s: Seq<char>, i: int) -> bool {
    0 <= i < s.len() && !is_ws(s[i]) && forall|j: int| i < j < s.len() ==> is_ws(#[trigger] s[j])
}

/// One past the last non-whitespace index, or 0.
pub open spec fn last_non_ws_end(s: Seq<char>) -> int {
    if exists|i: int| is_last_non_ws(s, i) {
        (choose|i: int| is_last_non_ws(s, i)) + 1
    } else {
        0
    }
}

/// `str::trim`.
pub open spec fn trim(s: Seq<char>) -> Seq<char> {
    let a = first_non_ws(s, 0);
    let b = last_non_ws_end(s);
    if a < b {
        s.subrange(a, b)
    } else {
        seq![]
    }
}

/// `s` has no character `c`.
pub open spec fn lacks(s: Seq<char>, c: char) -> bool {
    forall|j: int| 0 <= j < s.len() ==> #[trigger] s[j] != c
}

/// A text with no `c` before a `c` splits on `c` into what comes before it
/// and then the rest; when the rest has no `c` either, into just the two.
pub proof fn lemma_split_on_char(a: Seq<char>, c: char, b: Seq<char>)
    requires
        lacks(a, c),
    ensures
        split(a + seq![c] + b, seq![c]).len() >= 1,
        split(a + seq![c] + b, seq![c])[0] == a,
        lacks(b, c) ==> split(a + seq![c] + b, seq![c]) == seq![a, b],
{
    let s = a + seq![c] + b;
    let p = seq![c];
    let k = a.len() as int;
    assert(s.subrange(k, k + 1) =~= p);
    assert forall|j: int| 0 <= j < k implies !occurs_at(s, p, j) by {
        if occurs_at(s, p, j) {
            assert(s.subrange(j, j + 1)[0] == s[j]);
            assert(s[j] == a[j]);
        }
    }
    assert(is_first_occ(s, p, 0, k));
    lemma_first_occ_is(s, p, 0, k);
    assert(s.subrange(0, k) =~= a);
    assert(split(s, p) == seq![a] + pieces_from(s, p, k + 1));
    if lacks(b, c) {
        if exists|i: int| #[trigger] is_first_occ(s, p, k + 1, i) {
            let i = choose|i: int| #[trigger] is_first_occ(s, p, k + 1, i);
            assert(s.subrange(i, i + 1)[0] == s[i]);
            assert(s[i] == b[i - k - 1]);
        }
        assert(first_occ(s, p, k + 1) is None);
        assert(s.subrange(k + 1, s.len() as int) =~= b);
        assert(pieces_from(s, p, k + 1) == seq![b]);
        assert(split(s, p) =~= seq![a, b]);
    }
}

/// Trimming a text padded by one space on each side gives the text back,
/// when it neither starts nor ends with whitespace (or is empty).
pub proof fn lemma_trim_padded(t: Seq<char>)
    requires
        t.len() > 0 ==> !is_ws(t[0]) && !is_ws(t[t.len() - 1]),
    ensures
        trim(seq![' '] + t + seq![' ']) == t,
{
    let s = seq![' '] + t + seq![' '];
    let n = t.len() as int;
    assert(is_ws(' '));
    assert(s[0] == ' ');
    assert(s[n + 1] == ' ');
    if n == 0 {
        assert(s =~= seq![' ', ' ']);
        if exists|i: int| is_first_non_ws(s, 0, i) {
            let i = choose|i: int| is_first_non_ws(s, 0, i);
            assert(i == 0 || i == 1);
        }
        if exists|i: int| is_last_non_ws(s, i) {
            let i = choose|i: int| is_last_non_ws(s, i);
            assert(i == 0 || i == 1);
        }
        assert(last_non_ws_end(s) == 0);
        assert(trim(s) =~= t);
    } else {
        assert(s[1] == t[0]);
        assert(s[n] == t[n - 1]);
        assert(is_first_non_ws(s, 0, 1));
        let a = choose|i: int| is_first_non_ws(s, 0, i);
        if a > 1 {
            assert(is_ws(s[1]));
        }
        assert(first_non_ws(s, 0) == 1);
        assert(is_last_non_ws(s, n));
        let b = choose|i: int| is_last_non_ws(s, i);
        if b < n {
            assert(is_ws(s[n]));
        }
        assert(last_non_ws_end(s) == n + 1);
        assert(s.subrange(1, n + 1) =~= t);
    }
}

/// The words of `s[start..]`, as `str::split_whitespace` yields them.
pub open spec fn words_from(s: Seq<char>, start: int) -> Seq<Seq<char>>
    decreases s.len() - start,
{
    if 0 <= start <= s.len() {
        let a = first_non_ws(s, start);
        if start <= a < s.len() {
            let b = first_ws(s, a);
            if a < b <= s.len() {
                seq![s.subrange(a, b)] + words_from(s, b)
            } else {
                seq![]
            }
        } else {
            seq![]
        }
    } else {
        seq![]
    }
}

/// `str::split_whitespace`, collected.
pub open spec fn words(s: Seq<char>) -> Seq<Seq<char>> {
    words_from(s, 0)
}

fn scan_non_ws(s: &Vec<char>, start: usize) -> (r: usize)
    requires
        start <= s.len(),
    ensures
        r == first_non_ws(s@, start as int),
        start <= r <= s.len(),
        r < s.len() ==> is_first_non_ws(s@, start as int, r as int),
        forall|j: int| start <= j < r ==> is_ws(#[trigger] s@[j]),
{
    let n = s.len();
    let mut i = start;
    while i < n
        invariant
            n == s.len(),
            start <= i <= n,
            forall|j: int| start <= j < i ==> is_ws(#[trigger] s@[j]),
        decreases n - i,
    {
        if !is_whitespace(s[i]) {
            proof {
                assert(is_first_non_ws(s@, start as int, i as int));
                let k = choose|k: int| is_first_non_ws(s@, start as int, k);
                assert(is_first_non_ws(s@, start as int, k));
                if k < i {
                    assert(is_ws(s@[k]));
                } else if k > i {
                    assert(is_ws(s@[i as int]));
                }
            }
            return i;
        }
        i = i + 1;
    }
    proof {
        assert forall|k: int| !is_first_non_ws(s@, start as int, k) by {
            if start <= k < n {
                assert(is_ws(s@[k]));
            }
        }
    }
    n
}

fn scan_ws(s: &Vec<char>, start: usize) -> (r: usize)
    requires
        start <= s.len(),
    ensures
        r == first_ws(s@, start as int),
        start <= r <= s.len(),
        forall|j: int| start <= j < r ==> !is_ws(#[trigger] s@[j]),
{
    let n = s.len();
    let mut i = start;
    while i < n
        invariant
            n == s.len(),
            start <= i <= n,
            forall|j: int| start <= j < i ==> !is_ws(#[trigger] s@[j]),
        decreases n - i,
    {
        if is_whitespace(s[i]) {
            proof {
                assert(is_first_ws(s@, start as int, i as int));
                let k = choose|k: int| is_first_ws(s@, start as int, k);
                assert(is_first_ws(s@, start as int, k));
                if k < i {
                    assert(!is_ws(s@[k]));
                } else if k > i {
                    assert(!is_ws(s@[i as int]));
                }
            }
            return i;
        }
        i = i + 1;
    }
    proof {
        assert forall|k: int| !is_first_ws(s@, start as int, k) by {
            if start <= k < n {
                assert(!is_ws(s@[k]));
            }
        }
    }
    n
}

fn scan_last_non_ws_end(s: &Vec<char>) -> (r: usize)
    ensures
        r == last_non_ws_end(s@),
        r <= s.len(),
        forall|j: int| r <= j < s.len() ==> is_ws(#[trigger] s@[j]),
        r > 0 ==> !is_ws(s@[r - 1]),
{
    let n = s.len();
    let mut e = n;
    while e > 0
        invariant
            n == s.len(),
            e <= n,
            forall|j: int| e <= j < n ==> is_ws(#[trigger] s@[j]),
        decreases e,
    {
        if !is_whitespace(s[e - 1]) {
            proof {
                let i = e - 1;
                assert(is_last_non_ws(s@, i as int));
                let k = choose|k: int| is_last_non_ws(s@, k);
                assert(is_last_non_ws(s@, k));
                if k < i {
                    assert(is_ws(s@[i as int]));
                } else if k > i {
                    assert(is_ws(s@[k]));
                }
            }
            return e;
        }
        e = e - 1;
    }
    proof {
        assert forall|k: int| !is_last_non_ws(s@, k) by {
            if 0 <= k < n {
                assert(is_ws(s@[k]));
            }
        }
    }
    0
}

/// `str::trim`.
pub fn trim_str(s: &str) -> (r: String)
    ensures
        r@ == trim(s@),
{
    let sv = chars_of(s);
    let a = scan_non_ws(&sv, 0);
    let b = scan_last_non_ws_end(&sv);
    if a < b {
        slice_string(s, a, b)
    } else {
        String::new()
    }
}

/// `str::split_whitespace`, collected into owned strings.
pub fn words_str(s: &str) -> (r: Vec<String>)
    ensures
        views(r@) == words(s@),
{
    let sv = chars_of(s);
    let n = sv.len();
    let mut out: Vec<String> = Vec::new();
    let mut start: usize = 0;
    loop
        invariant
            sv@ == s@,
            n == s@.len(),
            start <= n,
            words(s@) == views(out@) + words_from(s@, start as int),
        decreases n - start,
    {
        let a = scan_non_ws(&sv, start);
        if a >= n {
            proof {
                assert(words_from(s@, start as int) == Seq::<Seq<char>>::empty());
                assert(views(out@) + words_from(s@, start as int) =~= views(out@));
            }
            return out;
        }
        let b = scan_ws(&sv, a);
        proof {
            assert(!is_ws(s@[a as int]));
            if b == a {
                assert(b < n ==> is_ws(s@[b as int])) by {
                    if b < n {
                        let k = choose|k: int| is_first_ws(s@, a as int, k);
                        assert(exists|i: int| is_first_ws(s@, a as int, i)) by {
                            assert(is_first_ws(s@, a as int, b as int)) by {
                                assert(first_ws(s@, a as int) == b);
                            }
                        }
                    }
                }
            }
        }
        assert(a < b) by {
            if b == a {
                if exists|i: int| is_first_ws(s@, a as int, i) {
                    let k = choose|i: int| is_first_ws(s@, a as int, i);
                    assert(is_ws(s@[k]));
                }
            }
        }
        let w = slice_string(s, a, b);
        let ghost old_out = out@;
        out.push(w);
        proof {
            assert(views(out@) =~= views(old_out).push(w@));
            assert(words_from(s@, start as int) == seq![s@.subrange(a as int, b as int)]
                + words_from(s@, b as int));
            assert(views(old_out) + words_from(s@, start as int) =~= views(out@) + words_from(
                s@,
                b as int,
            ));
        }
        start = b;
    }
}

/// `s.split_whitespace().nth(n)`.
pub fn word_nth(s: &str, n: usize) -> (r: Option<String>)
    ensures
        match r {
            Some(t) => nth(words(s@), n as int) == Some(t@),
            None => nth(words(s@), n as int) is None,
        },
{
    let mut ws = words_str(s);
    assert(views(ws@).len() == ws@.len());
    if n < ws.len() {
        Some(ws.swap_remove(n))
    } else {
        None
    }
}

/// The last item of an iterator over `items`, as `Iterator::last`.
pub open spec fn last<T>(items: Seq<T>) -> Option<T> {
    if items.len() > 0 {
        Some(items[items.len() - 1])
    } else {
        None
    }
}

/// `s.split_whitespace().last()`.
pub fn word_last(s: &str) -> (r: Option<String>)
    ensures
        match r {
            Some(t) => last(words(s@)) == Some(t@),
            None => last(words(s@)) is None,
        },
{
    let mut ws = words_str(s);
    assert(views(ws@).len() == ws@.len());
    match ws.pop() {
        Some(t) => Some(t),
        None => None,
    }
}

// ---------------------------------------------------------------------------
// Decimal numbers
// ---------------------------------------------------------------------------

pub open spec fn digit_char(d: nat) -> char {
    if d == 0 {
        '0'
    } else if d == 1 {
        '1'
    } else if d == 2 {
        '2'
    } else if d == 3 {
        '3'
    } else if d == 4 {
        '4'
    } else if d == 5 {
        '5'
    } else if d == 6 {
        '6'
    } else if d == 7 {
        '7'
    } else if d == 8 {
        '8'
    } else {
        '9'
    }
}

/// The decimal notation of `n`, as `Display` for unsigned integers prints it.
pub open spec fn dec(n: nat) -> Seq<char>
    decreases n,
{
    if n < 10 {
        seq![digit_char(n)]
    } else {
        dec(n / 10) + seq![digit_char(n % 10)]
    }
}

/// A character that is no digit does not occur in a decimal numeral.
pub proof fn lemma_dec_lacks(n: nat, c: char)
    requires
        forall|d: nat| d < 10 ==> #[trigger] digit_char(d) != c,
    ensures
        lacks(dec(n), c),
    decreases n,
{
    if n >= 10 {
        lemma_dec_lacks(n / 10, c);
        assert(digit_char(n % 10) != c);
    } else {
        assert(digit_char(n) != c);
    }
}

fn digit_str(d: u128) -> (r: &'static str)
    requires
        d < 10,
    ensures
        r@ == seq![digit_char(d as nat)],
{
    if d == 0 {
        proof {
            reveal_strlit("0");
        }
        assert("0"@ =~= seq!['0']);
        "0"
    } else if d == 1 {
        proof {
            reveal_strlit("1");
        }
        assert("1"@ =~= seq!['1']);
        "1"
    } else if d == 2 {
        proof {
            reveal_strlit("2");
        }
        assert("2"@ =~= seq!['2']);
        "2"
    } else if d == 3 {
        proof {
            reveal_strlit("3");
        }
        assert("3"@ =~= seq!['3']);
        "3"
    } else if d == 4 {
        proof {
            reveal_strlit("4");
        }
        assert("4"@ =~= seq!['4']);
        "4"
    } else if d == 5 {
        proof {
            reveal_strlit("5");
        }
        assert("5"@ =~= seq!['5']);
        "5"
    } else if d == 6 {
        proof {
            reveal_strlit("6");
        }
        assert("6"@ =~= seq!['6']);
        "6"
    } else if d == 7 {
        proof {
            reveal_strlit("7");
        }
        assert("7"@ =~= seq!['7']);
        "7"
    } else if d == 8 {
        proof {
            reveal_strlit("8");
        }
        assert("8"@ =~= seq!['8']);
        "8"
    } else {
        proof {
            reveal_strlit("9");
        }
        assert("9"@ =~= seq!['9']);
        "9"
    }
}

/// The decimal notation of `n`.
pub fn dec_string(n: u128) -> (r: String)
    ensures
        r@ == dec(n as nat),
    decreases n,
{
    if n < 10 {
        String::from_str(digit_str(n))
    } else {
        let mut s = dec_string(n / 10);
        s.append(digit_str(n % 10));
        s
    }
}

/// The decimal notation of an integer, with a leading `-` when negative, as
/// `Display` for signed integers prints it.
pub open spec fn signed_dec(x: int) -> Seq<char> {
    if x < 0 {
        "-"@ + dec((-x) as nat)
    } else {
        dec(x as nat)
    }
}

/// Appends the decimal notation of `a - b` to `s`.
pub fn push_difference(s: &mut String, a: u128, b: u128)
    ensures
        final(s)@ == old(s)@ + signed_dec(a - b),
{
    if b <= a {
        push_dec(s, a - b);
    } else {
        proof {
            reveal_strlit("-");
        }
        s.append("-");
        push_dec(s, b - a);
        assert(final(s)@ =~= old(s)@ + signed_dec(a - b));
    }
}

/// Multiplying a positive number by ten appends a zero to its notation.
pub proof fn lemma_dec_times_ten(n: nat)
    requires
        n >= 1,
    ensures
        dec(n * 10) == dec(n) + seq!['0'],
{
    assert((n * 10) / 10 == n && (n * 10) % 10 == 0 && n * 10 >= 10) by (nonlinear_arith)
        requires
            n >= 1,
    ;
    assert(digit_char(0) == '0');
}

/// Appends the decimal notation of `n` to `s`.
pub fn push_dec(s: &mut String, n: u128)
    ensures
        final(s)@ == old(s)@ + dec(n as nat),
{
    let d = dec_string(n);
    s.append(d.as_str());
}

pub open spec fn is_digit(c: char) -> bool {
    '0' <= c && c <= '9'
}

pub open spec fn digit_value(c: char) -> nat {
    (c as u32 - '0' as u32) as nat
}

/// The value of a sequence of decimal digits.
pub open spec fn digits_value(d: Seq<char>) -> nat
    decreases d.len(),
{
    if d.len() == 0 {
        0
    } else {
        digits_value(d.drop_last()) * 10 + digit_value(d.last())
    }
}

/// The digits part of an unsigned number: a leading `+` is dropped.
pub open spec fn unsigned_digits(s: Seq<char>) -> Seq<char> {
    if s.len() > 0 && s[0] == '+' {
        s.drop_first()
    } else {
        s
    }
}

/// `str::parse` for an unsigned integer type whose largest value is `max`:
/// an optional `+`, then one or more ASCII digits, whose value is at most `max`.
pub open spec fn parse_unsigned(s: Seq<char>, max: nat) -> Option<nat> {
    if unsigned_digits(s).len() > 0 && all_digits(unsigned_digits(s)) && digits_value(
        unsigned_digits(s),
    ) <= max {
        Some(digits_value(unsigned_digits(s)))
    } else {
        None
    }
}

/// Every character is an ASCII digit.
pub open spec fn all_digits(d: Seq<char>) -> bool {
    forall|i: int| 0 <= i < d.len() ==> is_digit(#[trigger] d[i])
}

proof fn lemma_digits_value_take(d: Seq<char>, k: int)
    requires
        0 <= k < d.len(),
    ensures
        digits_value(d.take(k + 1)) == digits_value(d.take(k)) * 10 + digit_value(d[k]),
{
    assert(d.take(k + 1).drop_last() =~= d.take(k));
}

proof fn lemma_digits_value_mono(d: Seq<char>, k: int)
    requires
        0 <= k <= d.len(),
    ensures
        digits_value(d.take(k)) <= digits_value(d),
    decreases d.len() - k,
{
    if k < d.len() {
        lemma_digits_value_take(d, k);
        lemma_digits_value_mono(d, k + 1);
    } else {
        assert(d.take(k) =~= d);
    }
}

proof fn lemma_mul_bound(v: nat, dv: nat, max: nat)
    requires
        dv <= 9,
        dv <= max,
    ensures
        (v * 10 + dv <= max) == (v <= (max - dv) / 10),
{
    assert((v * 10 + dv <= max) == (v <= (max - dv) / 10)) by (nonlinear_arith)
        requires
            dv <= max,
    ;
}

/// Parses an unsigned decimal number no larger than `max`.
pub fn parse_unsigned_str(s: &str, max: u64) -> (r: Option<u64>)
    ensures
        match r {
            Some(v) => parse_unsigned(s@, max as nat) == Some(v as nat),
            None => parse_unsigned(s@, max as nat) is None,
        },
{
    let sv = chars_of(s);
    let n = sv.len();
    let mut i: usize = 0;
    if n > 0 && sv[0] == '+' {
        i = 1;
    }
    let ghost d = unsigned_digits(s@);
    assert(d =~= s@.subrange(i as int, n as int));
    if i >= n {
        return None;
    }
    let start = i;
    let mut v: u64 = 0;
    while i < n
        invariant
            sv@ == s@,
            n == s@.len(),
            d == s@.subrange(start as int, n as int),
            d == unsigned_digits(s@),
            start < n,
            start <= i <= n,
            v as nat == digits_value(d.take(i - start)),
            v <= max,
            forall|k: int| 0 <= k < i - start ==> is_digit(#[trigger] d[k]),
        decreases n - i,
    {
        let c = sv[i];
        if !('0' <= c && c <= '9') {
            assert(!is_digit(d[i - start]));
            return None;
        }
        let dv = (c as u32 - '0' as u32) as u64;
        proof {
            lemma_digits_value_take(d, i - start);
        }
        if dv > max {
            proof {
                lemma_digits_value_mono(d, i - start + 1);
                assert(digits_value(d) > max);
            }
            return None;
        }
        proof {
            lemma_mul_bound(v as nat, dv as nat, max as nat);
        }
        if v > (max - dv) / 10 {
            proof {
                lemma_digits_value_mono(d, i - start + 1);
            }
            return None;
        }
        v = v * 10 + dv;
        i = i + 1;
    }
    assert(d.take(n - start) =~= d);
    Some(v)
}

pub open spec fn parse_u32(s: Seq<char>) -> Option<nat> {
    parse_unsigned(s, u32::MAX as nat)
}

/// `s.parse::<u32>().ok()`.
pub fn parse_u32_str(s: &str) -> (r: Option<u32>)
    ensures
        match r {
            Some(v) => parse_u32(s@) == Some(v as nat),
            None => parse_u32(s@) is None,
        },
{
    match parse_unsigned_str(s, u32::MAX as u64) {
        Some(v) => Some(v as u32),
        None => None,
    }
}

pub open spec fn parse_usize(s: Seq<char>) -> Option<nat> {
    parse_unsigned(s, usize::MAX as nat)
}

/// `s.parse::<usize>().ok()`.
pub fn parse_usize_str(s: &str) -> (r: Option<usize>)
    ensures
        match r {
            Some(v) => parse_usize(s@) == Some(v as nat),
            None => parse_usize(s@) is None,
        },
{
    match parse_unsigned_str(s, usize::MAX as u64) {
        Some(v) => Some(v as usize),
        None => None,
    }
}

// ---------------------------------------------------------------------------
// Reading numbers out of text
// ---------------------------------------------------------------------------

/// The text after the first `marker`, up to the next one: `s.split(marker).nth(1)`.
pub open spec fn after(s: Seq<char>, marker: Seq<char>) -> Option<Seq<char>> {
    nth(split(s, marker), 1)
}

/// The first word of an optional text: `o.and_then(|t| t.split_whitespace().next())`.
pub open spec fn and_first_word(o: Option<Seq<char>>) -> Option<Seq<char>> {
    match o {
        Some(t) => nth(words(t), 0),
        None => None,
    }
}

/// The leading text of an optional text up to `p`: `o.and_then(|t| t.split(p).next())`.
pub open spec fn and_before(o: Option<Seq<char>>, p: Seq<char>) -> Option<Seq<char>> {
    match o {
        Some(t) => Some(before(t, p)),
        None => None,
    }
}

/// An optional text read as a `u32`, or `default` when it is absent or not a
/// number.
pub open spec fn u32_or(o: Option<Seq<char>>, default: nat) -> nat {
    match o {
        Some(t) => match parse_u32(t) {
            Some(v) => v,
            None => default,
        },
        None => default,
    }
}

/// The `n`-th word of `s` read as a `u32`, or `default`.
pub open spec fn word_u32(s: Seq<char>, n: int, default: nat) -> nat {
    u32_or(nth(words(s), n), default)
}

/// `s.split(marker).nth(1)`.
pub fn after_str(s: &str, marker: &str) -> (r: Option<String>)
    requires
        marker@.len() > 0,
    ensures
        opt_view(r) == after(s@, marker@),
{
    let r = split_nth(s, marker, 1);
    assert(opt_view(r) == after(s@, marker@));
    r
}

/// `o.and_then(|t| t.split_whitespace().next())`.
pub fn and_first_word_str(o: Option<String>) -> (r: Option<String>)
    ensures
        opt_view(r) == and_first_word(opt_view(o)),
{
    match o {
        Some(t) => {
            let r = word_nth(t.as_str(), 0);
            assert(opt_view(r) == nth(words(t@), 0));
            r
        },
        None => None,
    }
}

/// `o.and_then(|t| t.split(p).next())`.
pub fn and_before_str(o: Option<String>, p: &str) -> (r: Option<String>)
    requires
        p@.len() > 0,
    ensures
        opt_view(r) == and_before(opt_view(o), p@),
{
    match o {
        Some(t) => Some(before_str(t.as_str(), p)),
        None => None,
    }
}

/// The view of an optional string.
pub open spec fn opt_view(o: Option<String>) -> Option<Seq<char>> {
    match o {
        Some(t) => Some(t@),
        None => None,
    }
}

/// An optional text read as a `u32`, or `default`.
pub fn u32_or_str(o: Option<String>, default: u32) -> (r: u32)
    ensures
        r as nat == u32_or(opt_view(o), default as nat),
{
    match o {
        Some(t) => match parse_u32_str(t.as_str()) {
            Some(v) => v,
            None => default,
        },
        None => default,
    }
}

/// The `n`-th word of `s` read as a `u32`, or `default`.
pub fn word_u32_str(s: &str, n: usize, default: u32) -> (r: u32)
    ensures
        r as nat == word_u32(s@, n as int, default as nat),
{
    let w = word_nth(s, n);
    proof {
        assert(opt_view(w) == nth(words(s@), n as int));
    }
    u32_or_str(w, default)
}

/// `s` without its commas, as `s.replace(",", "")`.
pub open spec fn without_commas(s: Seq<char>) -> Seq<char> {
    s.filter(|c: char| c != ',')
}

/// `s.replace(",", "")`.
pub fn remove_commas(s: &str) -> (r: String)
    ensures
        r@ == without_commas(s@),
{
    let ghost pred = |c: char| c != ',';
    let n = s.unicode_len();
    let mut out = String::new();
    let mut i: usize = 0;
    while i < n
        invariant
            n == s@.len(),
            i <= n,
            pred == (|c: char| c != ','),
            out@ == s@.take(i as int).filter(pred),
        decreases n - i,
    {
        let c = s.get_char(i);
        proof {
            assert(s@.take(i + 1) =~= s@.take(i as int).push(s@[i as int]));
            s@.take(i as int).lemma_filter_push(s@[i as int], pred);
        }
        if c != ',' {
            let piece = s.substring_char(i, i + 1);
            assert(piece@ =~= seq![c]);
            out.append(piece);
        }
        i = i + 1;
    }
    assert(s@.take(n as int) =~= s@);
    out
}

// ---------------------------------------------------------------------------
// Case mapping
// ---------------------------------------------------------------------------

/// What `str::to_lowercase` returns for a string.
pub uninterp spec fn lowercase(s: Seq<char>) -> Seq<char>;

/// What `str::to_uppercase` returns for a string.
pub uninterp spec fn uppercase(s: Seq<char>) -> Seq<char>;

/// Calls `str::to_lowercase`; the contract names its result `lowercase(s@)`.
/// Unicode case mapping is not stated here, only that the result depends on
/// the argument alone.
#[verifier::external_body]
pub(crate) fn to_lowercase(s: &str) -> (r: String)
    ensures
        r@ == lowercase(s@),
{
    s.to_lowercase()
}

/// Calls `str::to_uppercase`; the contract names its result `uppercase(s@)`.
/// Unicode case mapping is not stated here, only that the result depends on
/// the argument alone.
#[verifier::external_body]
pub(crate) fn to_uppercase(s: &str) -> (r: String)
    ensures
        r@ == uppercase(s@),
{
    s.to_uppercase()
}

// ---------------------------------------------------------------------------
// Joining
// ---------------------------------------------------------------------------

/// `parts.join(sep)`.
pub open spec fn join(parts: Seq<Seq<char>>, sep: Seq<char>) -> Seq<char>
    decreases parts.len(),
{
    if parts.len() == 0 {
        seq![]
    } else if parts.len() == 1 {
        parts[0]
    } else {
        join(parts.drop_last(), sep) + sep + parts.last()
    }
}

/// `parts.join(sep)`.
pub fn join_strings(parts: &Vec<String>, sep: &str) -> (r: String)
    ensures
        r@ == join(views(parts@), sep@),
{
    let n = parts.len();
    let mut out = String::new();
    let mut i: usize = 0;
    while i < n
        invariant
            n == parts.len(),
            i <= n,
            out@ == join(views(parts@).take(i as int), sep@),
        decreases n - i,
    {
        proof {
            assert(views(parts@).take(i + 1).drop_last() =~= views(parts@).take(i as int));
            assert(views(parts@).take(i + 1).last() == parts@[i as int]@);
        }
        if i > 0 {
            out.append(sep);
        } else {
            assert(views(parts@).take(1) =~= seq![parts@[0]@]);
        }
        out.append(parts[i].as_str());
        i = i + 1;
    }
    assert(views(parts@).take(n as int) =~= views(parts@));
    out
}

} // verus!
