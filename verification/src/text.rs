//! Character-sequence utilities: whitespace trimming, substring search,
//! splitting and tokenizing. All logic works on `Vec<char>` values whose
//! views are `Seq<char>`.
//!
//! Whitespace throughout this crate means the Unicode white-space code
//! points (see [`is_wspace`]): the same set the platform's whitespace test
//! and the regex engine's `\s` class recognize.

use vstd::prelude::*;

verus! {

/// The whitespace characters recognized by the parser: the Unicode
/// white-space code points, the same set the platform's whitespace test and
/// the regex engine's `\s` class recognize.
pub open spec fn is_wspace(c: char) -> bool {
    c == ' ' || c == '\t' || c == '\n' || c == '\r' || c == '\u{b}' || c == '\u{c}' || c
        == '\u{85}' || c == '\u{a0}' || c == '\u{1680}' || c == '\u{2000}' || c == '\u{2001}' || c
        == '\u{2002}' || c == '\u{2003}' || c == '\u{2004}' || c == '\u{2005}' || c == '\u{2006}'
        || c == '\u{2007}' || c == '\u{2008}' || c == '\u{2009}' || c == '\u{200a}' || c
        == '\u{2028}' || c == '\u{2029}' || c == '\u{202f}' || c == '\u{205f}' || c == '\u{3000}'
}

/// Executable whitespace test.
pub fn wspace(c: char) -> (r: bool)
    ensures
        r == is_wspace(c),
{
    c == ' ' || c == '\t' || c == '\n' || c == '\r' || c == '\u{b}' || c == '\u{c}' || c
        == '\u{85}' || c == '\u{a0}' || c == '\u{1680}' || c == '\u{2000}' || c == '\u{2001}' || c
        == '\u{2002}' || c == '\u{2003}' || c == '\u{2004}' || c == '\u{2005}' || c == '\u{2006}'
        || c == '\u{2007}' || c == '\u{2008}' || c == '\u{2009}' || c == '\u{200a}' || c
        == '\u{2028}' || c == '\u{2029}' || c == '\u{202f}' || c == '\u{205f}' || c == '\u{3000}'
}

/// Number of leading whitespace characters of `s`.
pub open spec fn lead_ws(s: Seq<char>) -> int
    decreases s.len(),
{
    if s.len() == 0 || !is_wspace(s[0]) {
        0
    } else {
        1 + lead_ws(s.skip(1))
    }
}

/// Number of trailing whitespace characters of `s`.
pub open spec fn trail_ws(s: Seq<char>) -> int
    decreases s.len(),
{
    if s.len() == 0 || !is_wspace(s[s.len() - 1]) {
        0
    } else {
        1 + trail_ws(s.take(s.len() - 1))
    }
}

proof fn lemma_lead_ws_bound(s: Seq<char>)
    ensures
        0 <= lead_ws(s) <= s.len(),
        forall|i: int| 0 <= i < lead_ws(s) ==> is_wspace(s[i]),
        lead_ws(s) < s.len() ==> !is_wspace(s[lead_ws(s)]),
    decreases s.len(),
{
    if s.len() != 0 && is_wspace(s[0]) {
        lemma_lead_ws_bound(s.skip(1));
        assert forall|i: int| 0 <= i < lead_ws(s) implies is_wspace(s[i]) by {
            if i > 0 {
                assert(s.skip(1)[i - 1] == s[i]);
            }
        }
        assert(lead_ws(s) < s.len() ==> s.skip(1)[lead_ws(s) - 1] == s[lead_ws(s)]);
    }
}

proof fn lemma_trail_ws_bound(s: Seq<char>)
    ensures
        0 <= trail_ws(s) <= s.len(),
        forall|i: int| s.len() - trail_ws(s) <= i < s.len() ==> is_wspace(s[i]),
        trail_ws(s) < s.len() ==> !is_wspace(s[s.len() - trail_ws(s) - 1]),
    decreases s.len(),
{
    if s.len() != 0 && is_wspace(s[s.len() - 1]) {
        let t = s.take(s.len() - 1);
        lemma_trail_ws_bound(t);
        assert forall|i: int| s.len() - trail_ws(s) <= i < s.len() implies is_wspace(s[i]) by {
            if i < s.len() - 1 {
                assert(t[i] == s[i]);
            }
        }
        if trail_ws(s) < s.len() {
            assert(t[s.len() - trail_ws(s) - 1] == s[s.len() - trail_ws(s) - 1]);
        }
    }
}

/// `s` with leading and trailing whitespace removed.
pub open spec fn trim(s: Seq<char>) -> Seq<char> {
    if lead_ws(s) == s.len() {
        Seq::empty()
    } else {
        s.subrange(lead_ws(s), s.len() - trail_ws(s))
    }
}

/// Executable trim: removes leading and trailing whitespace.
pub fn trim_chars(s: &Vec<char>) -> (r: Vec<char>)
    ensures
        r@ == trim(s@),
{
    proof {
        lemma_lead_ws_bound(s@);
        lemma_trail_ws_bound(s@);
    }
    let mut a: usize = 0;
    while a < s.len() && wspace(s[a])
        invariant
            0 <= a <= s@.len(),
            forall|i: int| 0 <= i < a ==> is_wspace(s@[i]),
        decreases s@.len() - a,
    {
        a = a + 1;
    }
    proof {
        // a is the first non-whitespace index, so a == lead_ws(s@)
        lemma_lead_ws_prefix(s@, a as int);
    }
    if a == s.len() {
        return Vec::new();
    }
    let mut b: usize = s.len();
    while b > a && wspace(s[b - 1])
        invariant
            a <= b <= s@.len(),
            a < s@.len(),
            !is_wspace(s@[a as int]),
            forall|i: int| b <= i < s@.len() ==> is_wspace(s@[i]),
        decreases b,
    {
        b = b - 1;
    }
    proof {
        lemma_trail_ws_suffix(s@, (s@.len() - b) as int);
    }
    let mut r: Vec<char> = Vec::new();
    let mut i: usize = a;
    while i < b
        invariant
            a <= i <= b <= s@.len(),
            r@ == s@.subrange(a as int, i as int),
        decreases b - i,
    {
        r.push(s[i]);
        assert(r@ == s@.subrange(a as int, i + 1));
        i = i + 1;
    }
    r
}

/// If the first `k` characters are whitespace and either `k == s.len()` or
/// `s[k]` is not whitespace, then `lead_ws(s) == k`.
proof fn lemma_lead_ws_prefix(s: Seq<char>, k: int)
    requires
        0 <= k <= s.len(),
        forall|i: int| 0 <= i < k ==> is_wspace(s[i]),
        k < s.len() ==> !is_wspace(s[k]),
    ensures
        lead_ws(s) == k,
    decreases s.len(),
{
    if k > 0 {
        assert(is_wspace(s[0]));
        assert forall|i: int| 0 <= i < k - 1 implies is_wspace(s.skip(1)[i]) by {
            assert(s.skip(1)[i] == s[i + 1]);
        }
        assert(k - 1 < s.skip(1).len() ==> s.skip(1)[k - 1] == s[k]);
        lemma_lead_ws_prefix(s.skip(1), k - 1);
    }
}

/// If the last `k` characters are whitespace and the one before them (if any)
/// is not, then `trail_ws(s) == k`.
proof fn lemma_trail_ws_suffix(s: Seq<char>, k: int)
    requires
        0 <= k <= s.len(),
        forall|i: int| s.len() - k <= i < s.len() ==> is_wspace(s[i]),
        k < s.len() ==> !is_wspace(s[s.len() - k - 1]),
    ensures
        trail_ws(s) == k,
    decreases s.len(),
{
    if k > 0 {
        assert(is_wspace(s[s.len() - 1]));
        let t = s.take(s.len() - 1);
        assert forall|i: int| t.len() - (k - 1) <= i < t.len() implies is_wspace(t[i]) by {
            assert(t[i] == s[i]);
        }
        lemma_trail_ws_suffix(t, k - 1);
    }
}

/// True when `sub` occurs in `s` starting at index `i`.
pub open spec fn occurs_at(s: Seq<char>, sub: Seq<char>, i: int) -> bool {
    0 <= i && i + sub.len() <= s.len() && s.subrange(i, i + sub.len()) == sub
}

/// Index of the first occurrence of `sub` in `s` at or after `from`.
pub open spec fn find_from(s: Seq<char>, sub: Seq<char>, from: int) -> Option<int>
    decreases s.len() - from,
{
    if from + sub.len() > s.len() {
        None
    } else if sub.len() == 0 {
        Some(from)
    } else if occurs_at(s, sub, from) {
        Some(from)
    } else {
        find_from(s, sub, from + 1)
    }
}

/// What `find_from` returns is the first occurrence.
pub proof fn lemma_find_from(s: Seq<char>, sub: Seq<char>, from: int)
    requires
        0 <= from,
    ensures
        match find_from(s, sub, from) {
            Some(i) => occurs_at(s, sub, i) && from <= i && forall|j: int|
                from <= j < i ==> !occurs_at(s, sub, j),
            None => forall|j: int| from <= j ==> !occurs_at(s, sub, j),
        },
    decreases s.len() - from,
{
    if from + sub.len() > s.len() {
    } else if sub.len() == 0 {
        assert(s.subrange(from, from) =~= sub);
    } else if occurs_at(s, sub, from) {
    } else {
        lemma_find_from(s, sub, from + 1);
    }
}

/// Executable substring test at a fixed index.
pub fn occurs_at_exec(s: &Vec<char>, sub: &Vec<char>, i: usize) -> (r: bool)
    requires
        i <= s@.len(),
    ensures
        r == occurs_at(s@, sub@, i as int),
{
    let n = s.len();
    let m = sub.len();
    if m > n || i > n - m {
        return false;
    }
    let mut k: usize = 0;
    while k < m
        invariant
            0 <= k <= m,
            m == sub@.len(),
            n == s@.len(),
            i + m <= n,
            forall|j: int| 0 <= j < k ==> s@[i + j] == sub@[j],
        decreases m - k,
    {
        if s[i + k] != sub[k] {
            assert(s@.subrange(i as int, i + sub@.len())[k as int] == s@[i + k]);
            return false;
        }
        k = k + 1;
    }
    assert(s@.subrange(i as int, i + sub@.len()) =~= sub@);
    true
}

/// Executable first-occurrence search.
pub fn find_sub(s: &Vec<char>, sub: &Vec<char>, from: usize) -> (r: Option<usize>)
    requires
        from <= s@.len(),
    ensures
        match r {
            Some(i) => from <= i && find_from(s@, sub@, from as int) == Some(i as int),
            None => find_from(s@, sub@, from as int) is None,
        },
{
    if sub.len() == 0 {
        assert(s@.subrange(from as int, from as int) =~= sub@);
        return Some(from);
    }
    if s.len() < sub.len() || from > s.len() - sub.len() {
        return None;
    }
    let n = s.len();
    let last = n - sub.len();
    let mut i: usize = from;
    while i <= last
        invariant
            from <= i <= last + 1,
            n == s@.len(),
            last + sub@.len() == n,
            sub@.len() > 0,
            find_from(s@, sub@, from as int) == find_from(s@, sub@, i as int),
        decreases last + 1 - i,
    {
        if occurs_at_exec(s, sub, i) {
            return Some(i);
        }
        i = i + 1;
    }
    None
}

/// The views of the elements of a vector of character vectors.
pub open spec fn sv(v: Seq<Vec<char>>) -> Seq<Seq<char>> {
    v.map_values(|x: Vec<char>| x@)
}

/// The views of the elements of a vector of strings.
pub open spec fn svs(v: Seq<String>) -> Seq<Seq<char>> {
    v.map_values(|x: String| x@)
}

/// Pushing onto a vector of character vectors pushes its view.
pub proof fn lemma_sv_push(v: Seq<Vec<char>>, t: Vec<char>)
    ensures
        sv(v.push(t)) == sv(v).push(t@),
{
    assert(sv(v.push(t)) =~= sv(v).push(t@)) by {
        assert forall|j: int| 0 <= j < v.len() + 1 implies sv(v.push(t))[j] == sv(v).push(t@)[j] by {
            if j < v.len() {
                assert(v.push(t)[j] == v[j]);
            } else {
                assert(v.push(t)[j] == t);
            }
        }
    }
}

/// Pushing onto a vector of strings pushes its view.
pub proof fn lemma_svs_push(v: Seq<String>, t: String)
    ensures
        svs(v.push(t)) == svs(v).push(t@),
{
    assert(svs(v.push(t)) =~= svs(v).push(t@)) by {
        assert forall|j: int| 0 <= j < v.len() + 1 implies svs(v.push(t))[j] == svs(v).push(
            t@,
        )[j] by {
            if j < v.len() {
                assert(v.push(t)[j] == v[j]);
            } else {
                assert(v.push(t)[j] == t);
            }
        }
    }
}

/// Replace the element at `i`; the view is updated pointwise.
pub fn replace_at(args: &mut Vec<Vec<char>>, i: usize, v: Vec<char>)
    requires
        i < old(args)@.len(),
    ensures
        sv(final(args)@) == sv(old(args)@).update(i as int, v@),
{
    let ghost vv = v@;
    args.remove(i);
    args.insert(i, v);
    proof {
        assert(sv(args@) =~= sv(old(args)@).update(i as int, vv)) by {
            assert forall|j: int| 0 <= j < args@.len() implies sv(args@)[j] == sv(
                old(args)@,
            ).update(i as int, vv)[j] by {
                if j < i {
                    assert(args@[j] == old(args)@[j]);
                } else if j == i {
                    assert(args@[j]@ == vv);
                } else {
                    assert(args@[j] == old(args)@[j]);
                }
            }
        }
    }
}

/// Executable character-sequence equality.
pub fn eq_chars(a: &Vec<char>, b: &Vec<char>) -> (r: bool)
    ensures
        r == (a@ == b@),
{
    if a.len() != b.len() {
        return false;
    }
    let n = a.len();
    let mut i: usize = 0;
    while i < n
        invariant
            0 <= i <= n,
            n == a@.len() == b@.len(),
            forall|j: int| 0 <= j < i ==> a@[j] == b@[j],
        decreases n - i,
    {
        if a[i] != b[i] {
            return false;
        }
        i = i + 1;
    }
    assert(a@ =~= b@);
    true
}

/// Copy of `s[a..b]`.
pub fn copy_range(s: &Vec<char>, a: usize, b: usize) -> (r: Vec<char>)
    requires
        a <= b <= s@.len(),
    ensures
        r@ == s@.subrange(a as int, b as int),
{
    let mut r: Vec<char> = Vec::new();
    let mut i: usize = a;
    while i < b
        invariant
            a <= i <= b <= s@.len(),
            r@ == s@.subrange(a as int, i as int),
        decreases b - i,
    {
        r.push(s[i]);
        assert(r@ =~= s@.subrange(a as int, i + 1));
        i = i + 1;
    }
    r
}

/// `s` with the range `[a, b)` replaced by `mid`.
pub fn splice(s: &Vec<char>, a: usize, b: usize, mid: &Vec<char>) -> (r: Vec<char>)
    requires
        a <= b <= s@.len(),
    ensures
        r@ == s@.subrange(0, a as int) + mid@ + s@.subrange(b as int, s@.len() as int),
{
    let n = s.len();
    let mut r = copy_range(s, 0, a);
    let mut i: usize = 0;
    let m = mid.len();
    while i < m
        invariant
            0 <= i <= m,
            m == mid@.len(),
            a <= b <= s@.len(),
            r@ == s@.subrange(0, a as int) + mid@.subrange(0, i as int),
        decreases m - i,
    {
        r.push(mid[i]);
        assert(r@ =~= s@.subrange(0, a as int) + mid@.subrange(0, i + 1));
        i = i + 1;
    }
    assert(mid@.subrange(0, m as int) =~= mid@);
    let mut j: usize = b;
    while j < n
        invariant
            b <= j <= n,
            n == s@.len(),
            a <= b,
            r@ == s@.subrange(0, a as int) + mid@ + s@.subrange(b as int, j as int),
        decreases n - j,
    {
        r.push(s[j]);
        assert(r@ =~= s@.subrange(0, a as int) + mid@ + s@.subrange(b as int, j + 1));
        j = j + 1;
    }
    r
}

/// First index at or after `from` that holds a non-whitespace character.
pub open spec fn ws_run_end(s: Seq<char>, from: int) -> int
    decreases s.len() - from,
{
    if from < 0 || from >= s.len() || !is_wspace(s[from]) {
        from
    } else {
        ws_run_end(s, from + 1)
    }
}

/// Executable whitespace-run scan.
pub fn ws_run_end_exec(s: &Vec<char>, from: usize) -> (r: usize)
    requires
        from <= s@.len(),
    ensures
        r == ws_run_end(s@, from as int),
        from <= r <= s@.len(),
    decreases s@.len() - from,
{
    if from < s.len() && wspace(s[from]) {
        ws_run_end_exec(s, from + 1)
    } else {
        from
    }
}

/// First index at or after `from` that holds a whitespace character, or the
/// length of `s` if there is none.
pub open spec fn ws_next(s: Seq<char>, from: int) -> int
    decreases s.len() - from,
{
    if from < 0 || from >= s.len() {
        s.len() as int
    } else if is_wspace(s[from]) {
        from
    } else {
        ws_next(s, from + 1)
    }
}

/// Executable scan for the next whitespace character.
pub fn ws_next_exec(s: &Vec<char>, from: usize) -> (r: usize)
    requires
        from <= s@.len(),
    ensures
        r == ws_next(s@, from as int),
        from <= r <= s@.len(),
    decreases s@.len() - from,
{
    if from >= s.len() {
        s.len()
    } else if wspace(s[from]) {
        from
    } else {
        ws_next_exec(s, from + 1)
    }
}

/// The whitespace-separated words of `s` from index `from` on.
pub open spec fn words_from(s: Seq<char>, from: int) -> Seq<Seq<char>>
    decreases s.len() - from,
    via words_from_decreases
{
    if from < 0 || from >= s.len() {
        Seq::empty()
    } else if is_wspace(s[from]) {
        words_from(s, from + 1)
    } else {
        let e = ws_next(s, from + 1);
        seq![s.subrange(from, e)] + words_from(s, e)
    }
}

proof fn lemma_ws_next_bound(s: Seq<char>, from: int)
    requires
        0 <= from <= s.len(),
    ensures
        from <= ws_next(s, from) <= s.len(),
    decreases s.len() - from,
{
    if from < s.len() && !is_wspace(s[from]) {
        lemma_ws_next_bound(s, from + 1);
    }
}

#[via_fn]
proof fn words_from_decreases(s: Seq<char>, from: int) {
    if 0 <= from && from < s.len() && !is_wspace(s[from]) {
        lemma_ws_next_bound(s, from + 1);
    }
}

/// Executable whitespace tokenizer.
pub fn words_exec(s: &Vec<char>, from: usize) -> (r: Vec<Vec<char>>)
    requires
        from <= s@.len(),
    ensures
        sv(r@) == words_from(s@, from as int),
    decreases s@.len() - from,
{
    if from >= s.len() {
        let r: Vec<Vec<char>> = Vec::new();
        assert(sv(r@) =~= words_from(s@, from as int));
        r
    } else if wspace(s[from]) {
        words_exec(s, from + 1)
    } else {
        proof {
            lemma_ws_next_bound(s@, from + 1);
        }
        let e = ws_next_exec(s, from + 1);
        let w = copy_range(s, from, e);
        let mut r = words_exec(s, e);
        r.insert(0, w);
        assert(sv(r@) =~= seq![s@.subrange(from as int, e as int)] + words_from(s@, e as int));
        r
    }
}

/// Length of the shell sequencing operator at index `i` of `s` (`;` or `&&`
/// or `||`), if one starts there.
pub open spec fn op_at(s: Seq<char>, i: int) -> Option<int> {
    if 0 <= i < s.len() && s[i] == ';' {
        Some(1)
    } else if 0 <= i && i + 2 <= s.len() && (s.subrange(i, i + 2) == seq!['&', '&'] || s.subrange(
        i,
        i + 2,
    ) == seq!['|', '|'])  {
        Some(2)
    } else {
        None
    }
}

/// Executable operator test.
pub fn op_at_exec(s: &Vec<char>, i: usize) -> (r: Option<usize>)
    requires
        i <= s@.len(),
    ensures
        match r {
            Some(l) => op_at(s@, i as int) == Some(l as int),
            None => op_at(s@, i as int) is None,
        },
{
    let n = s.len();
    if i < n && s[i] == ';' {
        return Some(1);
    }
    if n >= 2 && i <= n - 2 {
        let c0 = s[i];
        let c1 = s[i + 1];
        if (c0 == '&' && c1 == '&') || (c0 == '|' && c1 == '|') {
            assert(s@.subrange(i as int, i + 2) =~= seq![c0, c1]);
            return Some(2);
        }
        assert(s@.subrange(i as int, i + 2) =~= seq![c0, c1]);
        assert(s@.subrange(i as int, i + 2) != seq!['&', '&'] && s@.subrange(i as int, i + 2)
            != seq!['|', '|']) by {
            if c0 == '&' && c1 == '&' {
            } else {
                assert(seq![c0, c1] != seq!['&', '&'] ==> true);
            }
        }
    }
    None
}

/// The raw fragments of `s` from index `from` on, split at shell sequencing
/// operators. There is always at least one (possibly empty) fragment.
pub open spec fn split_ops_from(s: Seq<char>, from: int) -> Seq<Seq<char>>
    decreases s.len() - from,
{
    if from < 0 || from >= s.len() {
        seq![Seq::empty()]
    } else {
        match op_at(s, from) {
            Some(l) => seq![Seq::<char>::empty()] + split_ops_from(s, from + l),
            None => {
                let r = split_ops_from(s, from + 1);
                seq![seq![s[from]] + r[0]] + r.skip(1)
            },
        }
    }
}

/// `split_ops_from` always yields at least one fragment.
pub proof fn lemma_split_ops_nonempty(s: Seq<char>, from: int)
    ensures
        split_ops_from(s, from).len() >= 1,
    decreases s.len() - from,
{
    if 0 <= from < s.len() {
        match op_at(s, from) {
            Some(l) => lemma_split_ops_nonempty(s, from + l),
            None => lemma_split_ops_nonempty(s, from + 1),
        }
    }
}

/// Executable splitter on shell sequencing operators.
pub fn split_ops_exec(s: &Vec<char>, from: usize) -> (r: Vec<Vec<char>>)
    requires
        from <= s@.len(),
    ensures
        sv(r@) == split_ops_from(s@, from as int),
        r@.len() >= 1,
    decreases s@.len() - from,
{
    if from >= s.len() {
        let mut r: Vec<Vec<char>> = Vec::new();
        r.push(Vec::new());
        assert(sv(r@) =~= split_ops_from(s@, from as int));
        r
    } else {
        match op_at_exec(s, from) {
            Some(l) => {
                let mut r = split_ops_exec(s, from + l);
                r.insert(0, Vec::new());
                assert(sv(r@) =~= seq![Seq::<char>::empty()] + split_ops_from(
                    s@,
                    from + l as int,
                ));
                r
            },
            None => {
                let c = s[from];
                let mut r = split_ops_exec(s, from + 1);
                let mut f = r.remove(0);
                f.insert(0, c);
                r.insert(0, f);
                proof {
                    let inner = split_ops_from(s@, from + 1);
                    lemma_split_ops_nonempty(s@, from + 1);
                    assert(f@ =~= seq![s@[from as int]] + inner[0]);
                    assert(sv(r@) =~= seq![seq![s@[from as int]] + inner[0]] + inner.skip(1));
                }
                r
            },
        }
    }
}

/// Trim each fragment and drop the empty ones.
pub open spec fn clean_frags(fs: Seq<Seq<char>>) -> Seq<Seq<char>>
    decreases fs.len(),
{
    if fs.len() == 0 {
        Seq::empty()
    } else {
        let t = trim(fs[0]);
        let r = clean_frags(fs.skip(1));
        if t.len() == 0 {
            r
        } else {
            seq![t] + r
        }
    }
}

/// Executable fragment cleanup.
pub fn clean_frags_exec(fs: &Vec<Vec<char>>, from: usize) -> (r: Vec<Vec<char>>)
    requires
        from <= fs@.len(),
    ensures
        sv(r@) == clean_frags(sv(fs@).skip(from as int)),
    decreases fs@.len() - from,
{
    if from >= fs.len() {
        let r: Vec<Vec<char>> = Vec::new();
        assert(sv(fs@).skip(from as int) =~= Seq::<Seq<char>>::empty());
        assert(sv(r@) =~= clean_frags(sv(fs@).skip(from as int)));
        r
    } else {
        let t = trim_chars(&fs[from]);
        let mut r = clean_frags_exec(fs, from + 1);
        proof {
            let tail = sv(fs@).skip(from as int);
            assert(tail[0] == fs@[from as int]@);
            assert(tail.skip(1) =~= sv(fs@).skip(from + 1));
        }
        if t.len() == 0 {
            r
        } else {
            r.insert(0, t);
            proof {
                let tail = sv(fs@).skip(from as int);
                assert(sv(r@) =~= seq![trim(tail[0])] + clean_frags(tail.skip(1)));
            }
            r
        }
    }
}

/// `s` from `from` on, with every `\"` escape rewritten to `"`.
pub open spec fn unescape_from(s: Seq<char>, from: int) -> Seq<char>
    decreases s.len() - from,
{
    if from < 0 || from >= s.len() {
        Seq::empty()
    } else if from + 2 <= s.len() && s[from] == '\\' && s[from + 1] == '"' {
        seq!['"'] + unescape_from(s, from + 2)
    } else {
        seq![s[from]] + unescape_from(s, from + 1)
    }
}

/// Executable escape cleanup.
pub fn unescape_exec(s: &Vec<char>, from: usize) -> (r: Vec<char>)
    requires
        from <= s@.len(),
    ensures
        r@ == unescape_from(s@, from as int),
    decreases s@.len() - from,
{
    if from >= s.len() {
        let r: Vec<char> = Vec::new();
        assert(r@ =~= unescape_from(s@, from as int));
        r
    } else if from + 1 < s.len() && s[from] == '\\' && s[from + 1] == '"' {
        let mut r = unescape_exec(s, from + 2);
        r.insert(0, '"');
        assert(r@ =~= seq!['"'] + unescape_from(s@, from + 2));
        r
    } else {
        let c = s[from];
        let mut r = unescape_exec(s, from + 1);
        r.insert(0, c);
        assert(r@ =~= seq![s@[from as int]] + unescape_from(s@, from + 1));
        r
    }
}

/// First index at or after `from` that holds a back-tick, if any.
pub open spec fn next_bt(s: Seq<char>, from: int) -> Option<int>
    decreases s.len() - from,
{
    if from < 0 || from >= s.len() {
        None
    } else if s[from] == '`' {
        Some(from)
    } else {
        next_bt(s, from + 1)
    }
}

proof fn lemma_next_bt_bound(s: Seq<char>, from: int)
    requires
        0 <= from,
    ensures
        match next_bt(s, from) {
            Some(i) => from <= i < s.len() && s[i] == '`',
            None => true,
        },
    decreases s.len() - from,
{
    if 0 <= from < s.len() && s[from] != '`' {
        lemma_next_bt_bound(s, from + 1);
    }
}

fn next_bt_exec(s: &Vec<char>, from: usize) -> (r: Option<usize>)
    requires
        from <= s@.len(),
    ensures
        match r {
            Some(i) => next_bt(s@, from as int) == Some(i as int) && from <= i < s@.len(),
            None => next_bt(s@, from as int) is None,
        },
    decreases s@.len() - from,
{
    if from >= s.len() {
        None
    } else if s[from] == '`' {
        Some(from)
    } else {
        next_bt_exec(s, from + 1)
    }
}

/// The first back-tick span of `s` at or after `from`: the indices of an
/// opening and a closing back-tick with at least one character between them
/// and no back-tick between them.
pub open spec fn first_span_from(s: Seq<char>, from: int) -> Option<(int, int)>
    decreases s.len() - from,
    via first_span_decreases
{
    match next_bt(s, from) {
        None => None,
        Some(i) => match next_bt(s, i + 1) {
            None => None,
            Some(j) => if j > i + 1 {
                Some((i, j))
            } else {
                first_span_from(s, j)
            },
        },
    }
}

#[via_fn]
proof fn first_span_decreases(s: Seq<char>, from: int) {
    if from >= 0 {
        lemma_next_bt_bound(s, from);
        match next_bt(s, from) {
            None => {},
            Some(i) => {
                lemma_next_bt_bound(s, i + 1);
            },
        }
    } else {
        match next_bt(s, from) {
            None => {},
            Some(i) => {
                if i >= 0 {
                    lemma_next_bt_bound(s, i + 1);
                }
            },
        }
    }
}

/// True when `s` holds no back-tick span.
pub open spec fn no_span(s: Seq<char>) -> bool {
    first_span_from(s, 0) is None
}

/// Executable back-tick span search.
pub fn first_span_exec(s: &Vec<char>, from: usize) -> (r: Option<(usize, usize)>)
    requires
        from <= s@.len(),
    ensures
        match r {
            Some(p) => first_span_from(s@, from as int) == Some((p.0 as int, p.1 as int)) && from
                <= p.0 && p.0 + 1 < p.1 < s@.len(),
            None => first_span_from(s@, from as int) is None,
        },
    decreases s@.len() - from,
{
    let n = s.len();
    assert(n == s@.len());
    match next_bt_exec(s, from) {
        None => None,
        Some(i) => {
            match next_bt_exec(s, i + 1) {
                None => None,
                Some(j) => {
                    proof {
                        lemma_next_bt_bound(s@, i + 1);
                    }
                    if j > i + 1 {
                        Some((i, j))
                    } else {
                        first_span_exec(s, j)
                    }
                },
            }
        },
    }
}

/// The words joined with single spaces.
pub open spec fn join_sp(ws: Seq<Seq<char>>) -> Seq<char>
    decreases ws.len(),
{
    if ws.len() == 0 {
        Seq::empty()
    } else if ws.len() == 1 {
        ws[0]
    } else {
        ws[0] + seq![' '] + join_sp(ws.skip(1))
    }
}

/// Executable joining with single spaces.
pub fn join_sp_exec(ws: &Vec<String>, from: usize) -> (r: Vec<char>)
    requires
        from <= ws@.len(),
    ensures
        r@ == join_sp(svs(ws@).skip(from as int)),
    decreases ws@.len() - from,
{
    if from >= ws.len() {
        let r: Vec<char> = Vec::new();
        assert(r@ =~= join_sp(svs(ws@).skip(from as int)));
        r
    } else {
        let mut r = chars_of_str(ws[from].as_str());
        proof {
            let tail = svs(ws@).skip(from as int);
            assert(tail[0] == ws@[from as int]@);
            assert(tail.skip(1) =~= svs(ws@).skip(from + 1));
        }
        if from + 1 >= ws.len() {
            assert(svs(ws@).skip(from as int).len() == 1);
            r
        } else {
            let rest = join_sp_exec(ws, from + 1);
            let n = rest.len();
            r.push(' ');
            let mut i: usize = 0;
            while i < n
                invariant
                    0 <= i <= n,
                    n == rest@.len(),
                    r@ == ws@[from as int]@ + seq![' '] + rest@.subrange(0, i as int),
                decreases n - i,
            {
                r.push(rest[i]);
                assert(r@ =~= ws@[from as int]@ + seq![' '] + rest@.subrange(0, i + 1));
                i = i + 1;
            }
            assert(rest@.subrange(0, n as int) =~= rest@);
            assert(r@ =~= join_sp(svs(ws@).skip(from as int)));
            r
        }
    }
}

/// Relies on str::chars: yields the characters of the string in order.
#[verifier::external_body]
pub fn chars_of_str(s: &str) -> (r: Vec<char>)
    ensures
        r@ == s@,
{
    s.chars().collect()
}

/// Relies on std's FromIterator for String: collects the characters in order.
#[verifier::external_body]
pub fn string_of(s: &Vec<char>) -> (r: String)
    ensures
        r@ == s@,
{
    s.iter().collect()
}

} // verus!
