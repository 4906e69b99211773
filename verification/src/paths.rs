//! Path model: paths are plain character strings with `/` separators.
//! A path is split into components for prefix stripping and for the
//! common-suffix alignment search used when relativizing source paths.

use vstd::prelude::*;
use crate::text::{sv, copy_range, eq_chars};

verus! {

/// An absolute path starts with `/`.
pub open spec fn is_abs(p: Seq<char>) -> bool {
    p.len() > 0 && p[0] == '/'
}

/// Executable absoluteness test.
pub fn is_abs_exec(p: &Vec<char>) -> (r: bool)
    ensures
        r == is_abs(p@),
{
    p.len() > 0 && p[0] == '/'
}

/// First index at or after `from` holding `/`, or the length of `s`.
pub open spec fn seg_end(s: Seq<char>, from: int) -> int
    decreases s.len() - from,
{
    if from < 0 || from >= s.len() {
        s.len() as int
    } else if s[from] == '/' {
        from
    } else {
        seg_end(s, from + 1)
    }
}

proof fn lemma_seg_end_bound(s: Seq<char>, from: int)
    requires
        0 <= from <= s.len(),
    ensures
        from <= seg_end(s, from) <= s.len(),
    decreases s.len() - from,
{
    if from < s.len() && s[from] != '/' {
        lemma_seg_end_bound(s, from + 1);
    }
}

fn seg_end_exec(s: &Vec<char>, from: usize) -> (r: usize)
    requires
        from <= s@.len(),
    ensures
        r == seg_end(s@, from as int),
        from <= r <= s@.len(),
    decreases s@.len() - from,
{
    if from >= s.len() {
        s.len()
    } else if s[from] == '/' {
        from
    } else {
        seg_end_exec(s, from + 1)
    }
}

/// The non-empty segments of `s` from `from` on, split at `/`, with bare `.`
/// segments dropped (as path normalization drops them).
pub open spec fn segs_from(s: Seq<char>, from: int) -> Seq<Seq<char>>
    decreases s.len() - from,
    via segs_from_decreases
{
    if from < 0 || from >= s.len() {
        Seq::empty()
    } else if s[from] == '/' {
        segs_from(s, from + 1)
    } else {
        let e = seg_end(s, from + 1);
        let g = s.subrange(from, e);
        let r = segs_from(s, e);
        if g == seq!['.'] {
            r
        } else {
            seq![g] + r
        }
    }
}

#[via_fn]
proof fn segs_from_decreases(s: Seq<char>, from: int) {
    if 0 <= from && from < s.len() && s[from] != '/' {
        lemma_seg_end_bound(s, from + 1);
    }
}

/// Executable segment split.
pub fn segs_exec(s: &Vec<char>, from: usize) -> (r: Vec<Vec<char>>)
    requires
        from <= s@.len(),
    ensures
        sv(r@) == segs_from(s@, from as int),
    decreases s@.len() - from,
{
    if from >= s.len() {
        let r: Vec<Vec<char>> = Vec::new();
        assert(sv(r@) =~= segs_from(s@, from as int));
        r
    } else if s[from] == '/' {
        segs_exec(s, from + 1)
    } else {
        let e = seg_end_exec(s, from + 1);
        let g = copy_range(s, from, e);
        let mut r = segs_exec(s, e);
        let is_dot = g.len() == 1 && g[0] == '.';
        proof {
            if is_dot {
                assert(g@ =~= seq!['.']);
            } else {
                assert(g@ != seq!['.']) by {
                    if g@.len() == 1 {
                        assert(g@[0] != '.');
                    }
                }
            }
        }
        if is_dot {
            r
        } else {
            r.insert(0, g);
            assert(sv(r@) =~= seq![s@.subrange(from as int, seg_end(s@, from + 1))] + segs_from(
                s@,
                seg_end(s@, from + 1),
            ));
            r
        }
    }
}

/// The components of a path: a leading empty component stands for the root
/// of an absolute path, followed by the path's segments.
pub open spec fn comps(p: Seq<char>) -> Seq<Seq<char>> {
    if is_abs(p) {
        seq![Seq::<char>::empty()] + segs_from(p, 0)
    } else {
        segs_from(p, 0)
    }
}

/// Executable component split.
pub fn comps_exec(p: &Vec<char>) -> (r: Vec<Vec<char>>)
    ensures
        sv(r@) == comps(p@),
{
    let mut r = segs_exec(p, 0);
    if is_abs_exec(p) {
        r.insert(0, Vec::new());
        assert(sv(r@) =~= seq![Seq::<char>::empty()] + segs_from(p@, 0));
    }
    r
}

/// Components joined with `/`; a leading empty (root) component yields a
/// leading `/`.
pub open spec fn join_comps(cs: Seq<Seq<char>>) -> Seq<char>
    decreases cs.len(),
{
    if cs.len() == 0 {
        Seq::empty()
    } else if cs.len() == 1 {
        cs[0]
    } else {
        cs[0] + seq!['/'] + join_comps(cs.skip(1))
    }
}

/// Executable component join.
pub fn join_comps_exec(cs: &Vec<Vec<char>>, from: usize) -> (r: Vec<char>)
    requires
        from <= cs@.len(),
    ensures
        r@ == join_comps(sv(cs@).skip(from as int)),
    decreases cs@.len() - from,
{
    if from >= cs.len() {
        let r: Vec<char> = Vec::new();
        assert(r@ =~= join_comps(sv(cs@).skip(from as int)));
        r
    } else {
        let mut r = copy_range(&cs[from], 0, cs[from].len());
        assert(r@ =~= cs@[from as int]@);
        proof {
            let tail = sv(cs@).skip(from as int);
            assert(tail[0] == cs@[from as int]@);
            assert(tail.skip(1) =~= sv(cs@).skip(from + 1));
        }
        if from + 1 >= cs.len() {
            assert(sv(cs@).skip(from as int).len() == 1);
            r
        } else {
            let rest = join_comps_exec(cs, from + 1);
            let n = rest.len();
            r.push('/');
            let mut i: usize = 0;
            while i < n
                invariant
                    0 <= i <= n,
                    n == rest@.len(),
                    r@ == cs@[from as int]@ + seq!['/'] + rest@.subrange(0, i as int),
                decreases n - i,
            {
                r.push(rest[i]);
                assert(r@ =~= cs@[from as int]@ + seq!['/'] + rest@.subrange(0, i + 1));
                i = i + 1;
            }
            assert(rest@.subrange(0, n as int) =~= rest@);
            assert(r@ =~= join_comps(sv(cs@).skip(from as int)));
            r
        }
    }
}

/// Joining a relative path onto a directory, as the platform path join does:
/// an absolute right side replaces the left side.
pub open spec fn path_join(d: Seq<char>, p: Seq<char>) -> Seq<char> {
    if is_abs(p) || d.len() == 0 {
        p
    } else if d[d.len() - 1] == '/' {
        d + p
    } else {
        d + seq!['/'] + p
    }
}

/// Executable path join.
pub fn path_join_exec(d: &Vec<char>, p: &Vec<char>) -> (r: Vec<char>)
    ensures
        r@ == path_join(d@, p@),
{
    if is_abs_exec(p) || d.len() == 0 {
        return copy_range(p, 0, p.len());
    }
    let mut r = copy_range(d, 0, d.len());
    assert(r@ =~= d@);
    if d[d.len() - 1] != '/' {
        r.push('/');
    }
    let n = p.len();
    let ghost sep: int = if d@[d@.len() - 1] == '/' {
        0int
    } else {
        1int
    };
    let mut i: usize = 0;
    while i < n
        invariant
            0 <= i <= n,
            n == p@.len(),
            d@.len() > 0,
            sep == (if d@[d@.len() - 1] == '/' {
                0int
            } else {
                1int
            }),
            r@ == (if sep == 0 {
                d@ + p@.subrange(0, i as int)
            } else {
                d@ + seq!['/'] + p@.subrange(0, i as int)
            }),
        decreases n - i,
    {
        r.push(p[i]);
        proof {
            if sep == 0 {
                assert(r@ =~= d@ + p@.subrange(0, i + 1));
            } else {
                assert(r@ =~= d@ + seq!['/'] + p@.subrange(0, i + 1));
            }
        }
        i = i + 1;
    }
    proof {
        assert(p@.subrange(0, n as int) =~= p@);
        if sep == 0 {
            assert(r@ =~= d@ + p@);
        } else {
            assert(r@ =~= d@ + seq!['/'] + p@);
        }
    }
    r
}

/// `a` is a prefix of `b`, element for element.
pub open spec fn is_seq_prefix(a: Seq<Seq<char>>, b: Seq<Seq<char>>) -> bool {
    a.len() <= b.len() && a == b.take(a.len() as int)
}

/// Executable test: the components of `w` from `j` on are a prefix of the
/// components of `f` from `i` on.
pub fn prefix_at_exec(w: &Vec<Vec<char>>, j: usize, f: &Vec<Vec<char>>, i: usize) -> (r: bool)
    requires
        j <= w@.len(),
        i <= f@.len(),
    ensures
        r == is_seq_prefix(sv(w@).skip(j as int), sv(f@).skip(i as int)),
{
    let wn = w.len();
    let fn_ = f.len();
    let ghost a = sv(w@).skip(j as int);
    let ghost b = sv(f@).skip(i as int);
    if wn - j > fn_ - i {
        assert(a.len() > b.len());
        return false;
    }
    let m = wn - j;
    let mut k: usize = 0;
    while k < m
        invariant
            0 <= k <= m,
            m == wn - j,
            wn == w@.len(),
            fn_ == f@.len(),
            j + m <= wn,
            i + m <= fn_,
            a == sv(w@).skip(j as int),
            b == sv(f@).skip(i as int),
            forall|q: int| 0 <= q < k ==> a[q] == b[q],
        decreases m - k,
    {
        if !eq_chars(&w[j + k], &f[i + k]) {
            assert(a[k as int] == w@[j + k]@ && b[k as int] == f@[i + k]@);
            assert(a != b.take(a.len() as int)) by {
                assert(b.take(a.len() as int)[k as int] == b[k as int]);
            }
            return false;
        }
        k = k + 1;
    }
    assert(a =~= b.take(a.len() as int)) by {
        assert(forall|q: int| 0 <= q < a.len() ==> a[q] == b.take(a.len() as int)[q]);
    }
    true
}

/// Some suffix of `wc` (starting strictly inside it) is a prefix of
/// `fc.skip(i)`.
pub open spec fn align_at(fc: Seq<Seq<char>>, wc: Seq<Seq<char>>, i: int) -> bool {
    exists|j: int| 0 <= j < wc.len() && is_seq_prefix(wc.skip(j), fc.skip(i))
}

/// The least index of `fc` at or after `from` where a suffix of `wc` aligns.
pub open spec fn align_from(fc: Seq<Seq<char>>, wc: Seq<Seq<char>>, from: int) -> Option<int>
    decreases fc.len() - from,
{
    if from < 0 || from >= fc.len() {
        None
    } else if align_at(fc, wc, from) {
        Some(from)
    } else {
        align_from(fc, wc, from + 1)
    }
}

fn align_at_exec(f: &Vec<Vec<char>>, w: &Vec<Vec<char>>, i: usize) -> (r: bool)
    requires
        i <= f@.len(),
    ensures
        r == align_at(sv(f@), sv(w@), i as int),
{
    let wn = w.len();
    let mut j: usize = 0;
    while j < wn
        invariant
            0 <= j <= wn,
            wn == w@.len(),
            i <= f@.len(),
            forall|q: int| 0 <= q < j ==> !is_seq_prefix(sv(w@).skip(q), sv(f@).skip(i as int)),
        decreases wn - j,
    {
        if prefix_at_exec(w, j, f, i) {
            assert(align_at(sv(f@), sv(w@), i as int));
            return true;
        }
        j = j + 1;
    }
    assert(!align_at(sv(f@), sv(w@), i as int));
    false
}

fn align_from_exec(f: &Vec<Vec<char>>, w: &Vec<Vec<char>>, from: usize) -> (r: Option<usize>)
    requires
        from <= f@.len(),
    ensures
        match r {
            Some(i) => align_from(sv(f@), sv(w@), from as int) == Some(i as int) && from <= i
                < f@.len(),
            None => align_from(sv(f@), sv(w@), from as int) is None,
        },
    decreases f@.len() - from,
{
    if from >= f.len() {
        None
    } else if align_at_exec(f, w, from) {
        Some(from)
    } else {
        align_from_exec(f, w, from + 1)
    }
}

/// An absolute path relativized against working directory `wd`: first by
/// stripping `wd`'s components as a prefix, then by searching for the
/// earliest position of the path whose remaining components align with a
/// suffix of `wd`'s components; unchanged when neither applies. A path that
/// is not absolute is returned unchanged.
pub open spec fn rel_of(f: Seq<char>, wd: Seq<char>) -> Seq<char> {
    if !is_abs(f) {
        f
    } else {
        let fc = comps(f);
        let wc = comps(wd);
        if is_seq_prefix(wc, fc) {
            join_comps(fc.skip(wc.len() as int))
        } else {
            match align_from(fc, wc, 0) {
                Some(i) => join_comps(fc.skip(i)),
                None => f,
            }
        }
    }
}

/// Executable relativization.
pub fn rel_of_exec(f: &Vec<char>, wd: &Vec<char>) -> (r: Vec<char>)
    ensures
        r@ == rel_of(f@, wd@),
{
    if !is_abs_exec(f) {
        return copy_range(f, 0, f.len());
    }
    let fc = comps_exec(f);
    let wc = comps_exec(wd);
    if wc.len() <= fc.len() && prefix_at_exec(&wc, 0, &fc, 0) {
        assert(sv(wc@).skip(0) =~= sv(wc@) && sv(fc@).skip(0) =~= sv(fc@));
        let r = join_comps_exec(&fc, wc.len());
        return r;
    }
    assert(!is_seq_prefix(comps(wd@), comps(f@))) by {
        assert(sv(wc@).skip(0) =~= sv(wc@) && sv(fc@).skip(0) =~= sv(fc@));
    }
    match align_from_exec(&fc, &wc, 0) {
        Some(i) => join_comps_exec(&fc, i),
        None => copy_range(f, 0, f.len()),
    }
}

} // verus!
