//! The laws of the parser, stated over the same spec functions the
//! executable functions' contracts use, and proved once and for all.

use vstd::prelude::*;
use crate::parser::{ParseCfg, StateModel, SitedCand, Cand, dir_step, enter_cap, leave_match, cd_capture, checking_banner, dir_consumes, line_eval, line_frags, stream_eval, frags_cands, frags_st, st_after_frag, state_inv, lemma_dir_step_inv, lemma_frags_st_inv, frag_rec, wd_after_frag, dets, rec_of, cand_of, excluded, apply_w, fix_c, first_match_tok, first_eq_tok, subst};
use crate::paths::{is_abs, comps, join_comps, path_join, rel_of, is_seq_prefix, align_from, segs_from};
use crate::pattern::{re_match, re_capture1};
use crate::text::{trim, words_from, no_span, first_span_from, join_sp};

verus! {

/// A line recognized as one whole compiler invocation yields exactly one
/// record: its file is the file pattern's capture, its directory is the
/// current working directory, the emitted argument list (token list, or the
/// joined command) carries exactly as many tokens as the line, and the
/// parser state is unchanged. The line must be quiet for the directory
/// tracker, match the compiler pattern on its first token, and the captured
/// file must be relative and not excluded; no macros are configured, and
/// either output style is allowed.
pub proof fn lemma_single_compiler_line(st: StateModel, l: Seq<char>, f: Seq<char>, k: ParseCfg)
    requires
        k.macros.len() == 0,
        !excluded(k, f),
        trim(l).len() > 0,
        !checking_banner(trim(l)),
        !dir_consumes(trim(l)),
        re_match(k.cpat, trim(l)),
        line_frags(trim(l)) == seq![trim(l)],
        cd_capture(trim(l)) is None,
        words_from(trim(l), 0).len() > 0,
        re_match(k.cpat, words_from(trim(l), 0)[0]),
        re_capture1(k.fpat, trim(l)) == Some(f),
        !is_abs(f),
    ensures
        line_eval(st, l, k).0 == st,
        line_eval(st, l, k).1.len() == 1,
        line_eval(st, l, k).1[0].file == f,
        line_eval(st, l, k).1[0].directory == st.wd,
        line_eval(st, l, k).1[0].output is None,
        !k.command_style ==> {
            &&& line_eval(st, l, k).1[0].command is None
            &&& line_eval(st, l, k).1[0].arguments matches Some(args) && args.len() == words_from(
                trim(l),
                0,
            ).len()
        },
        k.command_style ==> {
            &&& line_eval(st, l, k).1[0].arguments is None
            &&& exists|am: Seq<Seq<char>>|
                am.len() == words_from(trim(l), 0).len() && line_eval(st, l, k).1[0].command
                    == Some(join_sp(am))
        },
{
    let lt = trim(l);
    let toks = words_from(lt, 0);
    assert(dir_step(st, lt) is None);
    assert(first_match_tok(k.cpat, toks, 0) == Some(0int));
    let c = Cand { file: f, args: toks.skip(0) };
    assert(cand_of(lt, st.wd, k) == Some(c));
    assert(frag_rec(st.wd, lt, k) == Some(c));
    let fs = line_frags(lt);
    let e: Seq<Seq<char>> = Seq::empty();
    assert(fs[0] == lt && fs.skip(1) =~= e);
    assert(wd_after_frag(st.wd, lt, k) == st.wd);
    assert(st_after_frag(st, lt, k) == st);
    assert(frags_st(st, e, k) == st);
    assert(frags_st(st, fs, k) == frags_st(st, e, k));
    let sc = SitedCand { wd: st.wd, c };
    assert(frags_cands(st.wd, e, k) =~= Seq::<SitedCand>::empty());
    assert(frags_cands(st.wd, fs, k) == seq![sc] + frags_cands(st.wd, e, k));
    assert(frags_cands(st.wd, fs, k) =~= seq![sc]);
    assert(dets(frags_cands(st.wd, fs, k), k).len() == 1);
    assert(dets(frags_cands(st.wd, fs, k), k)[0] == rec_of(c, st.wd, k, None));
    assert(toks.skip(0) =~= toks);
    assert(apply_w(c.args, None) == c.args);
    let a1 = fix_c(c.args, st.wd);
    assert(a1.len() == toks.len()) by {
        assert(c.args.len() == toks.len());
        crate::parser::lemma_first_eq_tok_bounds(c.args, "-c"@, 0);
        match first_eq_tok(c.args, "-c"@, 0) {
            Some(ci) => {
                if ci + 1 < c.args.len() && is_abs(c.args[ci + 1]) {
                    assert(a1 == c.args.update(ci + 1, rel_of(c.args[ci + 1], st.wd)));
                } else {
                    assert(a1 == c.args);
                }
            },
            None => {
                assert(a1 == c.args);
            },
        }
    }
    assert(a1 + k.macros =~= a1);
    if k.command_style {
        let am = a1 + k.macros;
        assert(am.len() == words_from(trim(l), 0).len() && line_eval(st, l, k).1[0].command
            == Some(join_sp(am)));
    }
    assert(line_eval(st, l, k).0 == st) by {
        assert(line_eval(st, l, k).0 == frags_st(st, fs, k));
    }
}

/// Directory announcements are stack-disciplined: entering a directory and
/// then leaving it restores both the stack and the working directory,
/// provided the stack's head was the working directory.
pub proof fn lemma_dir_stack_discipline(st: StateModel, l1: Seq<char>, l2: Seq<char>, d: Seq<char>)
    requires
        st.stack.len() >= 1,
        st.stack[0] == st.wd,
        enter_cap(l1) == Some(d),
        enter_cap(l2) is None,
        leave_match(l2),
    ensures
        dir_step(st, l1) == Some(StateModel { stack: seq![d] + st.stack, wd: d }),
        dir_step(StateModel { stack: seq![d] + st.stack, wd: d }, l2) == Some(st),
{
    let st1 = StateModel { stack: seq![d] + st.stack, wd: d };
    assert(st1.stack.len() >= 2);
    assert(st1.stack.skip(1) =~= st.stack);
    assert(st1.stack[1] == st.stack[0]);
    assert(dir_step(st1, l2) == Some(StateModel { stack: st.stack, wd: st.wd }));
    assert(StateModel { stack: st.stack, wd: st.wd } == st);
}

/// The ParserState invariant of the data model: while the stack is
/// non-empty, its head equals the working directory. A fresh parser
/// satisfies it (its stack is the one-element build directory), and every
/// evaluated line preserves it: entering and inline `-C` push the new
/// directory as both head and working directory, leaving restores the
/// remaining head (or empties the stack, where the invariant says nothing),
/// and a `cd` sub-command rewrites the stack head in place together with
/// the working directory.
pub proof fn lemma_state_invariant_preserved(st: StateModel, l: Seq<char>, k: ParseCfg)
    requires
        state_inv(st),
    ensures
        state_inv(line_eval(st, l, k).0),
{
    let lt = trim(l);
    if lt.len() == 0 || checking_banner(lt) {
    } else {
        match dir_step(st, lt) {
            Some(st2) => {
                lemma_dir_step_inv(st, lt);
            },
            None => {
                if re_match(k.cpat, lt) {
                    lemma_frags_st_inv(st, line_frags(lt), k);
                }
            },
        }
    }
}

/// Popping with an empty stack is a no-op, not an error: the line is
/// consumed and the state is unchanged.
pub proof fn lemma_pop_empty_stack(st: StateModel, l: Seq<char>)
    requires
        st.stack.len() == 0,
        enter_cap(l) is None,
        leave_match(l),
    ensures
        dir_step(st, l) == Some(st),
{
}

/// A `cd` sub-command followed by a compile sub-command on the same line
/// sites the compile at the pre-`cd` working directory joined with the `cd`
/// target.
pub proof fn lemma_cd_scopes_compile(
    wd: Seq<char>,
    f1: Seq<char>,
    f2: Seq<char>,
    sub: Seq<char>,
    k: ParseCfg,
    c: Cand,
)
    requires
        cd_capture(f1) == Some(sub),
        !is_abs(sub),
        cd_capture(f2) is None,
        re_match(k.cpat, f2),
        cand_of(f2, path_join(wd, sub), k) == Some(c),
        !excluded(k, c.file),
    ensures
        frags_cands(wd, seq![f1, f2], k) == seq![SitedCand { wd: path_join(wd, sub), c }],
        dets(frags_cands(wd, seq![f1, f2], k), k).len() == 1,
        dets(frags_cands(wd, seq![f1, f2], k), k)[0].directory == path_join(wd, sub),
{
    let fs = seq![f1, f2];
    let wd1 = path_join(wd, sub);
    assert(wd_after_frag(wd, f1, k) == wd1);
    assert(frag_rec(wd, f1, k) is None);
    assert(fs.skip(1) =~= seq![f2]);
    assert(seq![f2].skip(1) =~= Seq::<Seq<char>>::empty());
    assert(frag_rec(wd1, f2, k) == Some(c));
    assert(wd_after_frag(wd1, f2, k) == wd1);
    let sc = SitedCand { wd: wd1, c };
    let e: Seq<Seq<char>> = Seq::empty();
    assert(seq![f2].skip(1) =~= e);
    assert(frags_cands(wd1, e, k) =~= Seq::<SitedCand>::empty());
    assert(frags_cands(wd1, seq![f2], k) == seq![sc] + frags_cands(wd1, e, k));
    assert(frags_cands(wd1, seq![f2], k) =~= seq![sc]);
    assert(frags_cands(wd, fs, k) == frags_cands(wd1, fs.skip(1), k));
    assert(frags_cands(wd, fs, k) =~= seq![sc]);
    assert(dets(frags_cands(wd, fs, k), k)[0] == rec_of(c, wd1, k, None));
}

/// The whole-line form: a line that splits into exactly a `cd` sub-command
/// and a compile sub-command yields one record sited at the pre-`cd` working
/// directory joined with the `cd` target, and leaves the working directory
/// there; the stack is untouched.
pub proof fn lemma_cd_scopes_compile_line(
    st: StateModel,
    l: Seq<char>,
    f1: Seq<char>,
    f2: Seq<char>,
    sub: Seq<char>,
    k: ParseCfg,
    c: Cand,
)
    requires
        trim(l).len() > 0,
        !checking_banner(trim(l)),
        !dir_consumes(trim(l)),
        re_match(k.cpat, trim(l)),
        line_frags(trim(l)) == seq![f1, f2],
        cd_capture(f1) == Some(sub),
        !is_abs(sub),
        cd_capture(f2) is None,
        re_match(k.cpat, f2),
        cand_of(f2, path_join(st.wd, sub), k) == Some(c),
        !excluded(k, c.file),
    ensures
        line_eval(st, l, k).0.wd == path_join(st.wd, sub),
        line_eval(st, l, k).0.stack == (if st.stack.len() > 0 {
            st.stack.update(0, path_join(st.wd, sub))
        } else {
            st.stack
        }),
        state_inv(line_eval(st, l, k).0),
        line_eval(st, l, k).1.len() == 1,
        line_eval(st, l, k).1[0] == rec_of(c, path_join(st.wd, sub), k, None),
        line_eval(st, l, k).1[0].directory == path_join(st.wd, sub),
{
    let lt = trim(l);
    assert(dir_step(st, lt) is None);
    lemma_cd_scopes_compile(st.wd, f1, f2, sub, k, c);
    let fs = line_frags(lt);
    let wd1 = path_join(st.wd, sub);
    assert(fs[0] == f1);
    let st1 = st_after_frag(st, f1, k);
    assert(st1.wd == wd1);
    assert(wd_after_frag(st.wd, f1, k) == wd1);
    assert(wd_after_frag(wd1, f2, k) == wd1);
    let e: Seq<Seq<char>> = Seq::empty();
    assert(fs.skip(1) =~= seq![f2]);
    assert(seq![f2].skip(1) =~= e);
    assert(st_after_frag(st1, f2, k) == st1);
    assert(frags_st(st1, e, k) == st1);
    assert(frags_st(st1, seq![f2], k) == frags_st(st1, e, k));
    assert(frags_st(st, fs, k) == frags_st(st1, fs.skip(1), k));
    assert(line_eval(st, l, k).0 == st1);
    assert(line_eval(st, l, k).1 == dets(frags_cands(st.wd, fs, k), k));
}

/// Back-tick substitution is transparent: a line whose first span's run
/// yields output `o`, splicing to the literal line `l2`, substitutes to
/// exactly `l2`, so the rest of the parse sees the literal line.
pub proof fn lemma_substitution_transparent(
    l: Seq<char>,
    o: Seq<char>,
    l2: Seq<char>,
    p: (int, int),
)
    requires
        first_span_from(l, 0) == Some(p),
        l2 == l.subrange(0, p.0) + trim(o) + l.subrange(p.1 + 1, l.len() as int),
        no_span(l2),
    ensures
        subst(l, seq![Some(o)]) == Some(l2),
        line_frags(subst(l, seq![Some(o)])->Some_0) == line_frags(l2),
{
    let outs = seq![Some(o)];
    assert(outs[0] == Some(o));
    assert(outs.skip(1) =~= Seq::<Option<Seq<char>>>::empty());
    assert(subst(l2, Seq::<Option<Seq<char>>>::empty()) == Some(l2));
}

/// One substitution round in its general form: a successful answer on the
/// first span rewrites the line in place, and the remaining answers apply to
/// the rewritten line. Iterating this step, and closing with a span-free
/// line, resolves every span of a multi-span line to its literal form.
pub proof fn lemma_substitution_step(
    l: Seq<char>,
    o: Seq<char>,
    rest: Seq<Option<Seq<char>>>,
    p: (int, int),
)
    requires
        first_span_from(l, 0) == Some(p),
    ensures
        subst(l, seq![Some(o)] + rest) == subst(
            l.subrange(0, p.0) + trim(o) + l.subrange(p.1 + 1, l.len() as int),
            rest,
        ),
{
    let outs = seq![Some(o)] + rest;
    assert(outs.len() > 0);
    assert(outs[0] == Some(o));
    assert(outs.skip(1) =~= rest);
}

/// An absolute path whose components extend the working directory's is
/// emitted relative: the components that remain after the directory's.
pub proof fn lemma_relative_under_wd(f: Seq<char>, wd: Seq<char>)
    requires
        is_abs(f),
        is_seq_prefix(comps(wd), comps(f)),
    ensures
        rel_of(f, wd) == join_comps(comps(f).skip(comps(wd).len() as int)),
        comps(wd).len() >= 1 ==> !is_abs(rel_of(f, wd)),
{
    if comps(wd).len() >= 1 {
        lemma_segs_no_slash(f, 0);
        let rest = comps(f).skip(comps(wd).len() as int);
        assert forall|i: int| 0 <= i < rest.len() implies rest[i].len() > 0 && rest[i][0]
            != '/' by {
            assert(rest[i] == comps(f)[comps(wd).len() + i]);
            assert(comps(f)[comps(wd).len() + i] == segs_from(f, 0)[comps(wd).len() + i - 1]);
        }
        lemma_join_comps_relative(rest);
    }
}

/// An absolute path sharing no component prefix and no alignable component
/// suffix with the working directory is emitted unchanged.
pub proof fn lemma_unrelated_unchanged(f: Seq<char>, wd: Seq<char>)
    requires
        is_abs(f),
        !is_seq_prefix(comps(wd), comps(f)),
        align_from(comps(f), comps(wd), 0) is None,
    ensures
        rel_of(f, wd) == f,
{
}

/// Every segment of a path is non-empty and holds no separator.
proof fn lemma_segs_no_slash(s: Seq<char>, from: int)
    ensures
        forall|i: int|
            0 <= i < segs_from(s, from).len() ==> (#[trigger] segs_from(s, from)[i]).len() > 0
                && segs_from(s, from)[i][0] != '/',
    decreases s.len() - from,
{
    if from < 0 || from >= s.len() {
    } else if s[from] == '/' {
        lemma_segs_no_slash(s, from + 1);
        assert(segs_from(s, from) == segs_from(s, from + 1));
        assert forall|i: int|
            0 <= i < segs_from(s, from).len() implies (#[trigger] segs_from(s, from)[i]).len() > 0
            && segs_from(s, from)[i][0] != '/' by {
            assert(segs_from(s, from)[i] == segs_from(s, from + 1)[i]);
        }
    } else {
        let e = crate::paths::seg_end(s, from + 1);
        lemma_seg_end_facts(s, from + 1);
        lemma_segs_no_slash(s, e);
        let g = s.subrange(from, e);
        if g == seq!['.'] {
            assert(segs_from(s, from) == segs_from(s, e));
            assert forall|i: int|
                0 <= i < segs_from(s, from).len() implies (#[trigger] segs_from(s, from)[
            i]).len() > 0 && segs_from(s, from)[i][0] != '/' by {
                assert(segs_from(s, from)[i] == segs_from(s, e)[i]);
            }
        } else {
            assert(segs_from(s, from) == seq![g] + segs_from(s, e));
            assert forall|i: int|
                0 <= i < segs_from(s, from).len() implies (#[trigger] segs_from(s, from)[
            i]).len() > 0 && segs_from(s, from)[i][0] != '/' by {
                if i == 0 {
                    assert(segs_from(s, from)[0] == g);
                    assert(g.len() > 0 && g[0] == s[from]);
                } else {
                    assert(segs_from(s, from)[i] == segs_from(s, e)[i - 1]);
                }
            }
        }
    }
}

proof fn lemma_seg_end_facts(s: Seq<char>, from: int)
    requires
        0 <= from <= s.len(),
    ensures
        from <= crate::paths::seg_end(s, from) <= s.len(),
    decreases s.len() - from,
{
    if from < s.len() && s[from] != '/' {
        lemma_seg_end_facts(s, from + 1);
    }
}

/// Joining components that are non-empty and separator-free yields a
/// relative path.
proof fn lemma_join_comps_relative(cs: Seq<Seq<char>>)
    requires
        forall|i: int| 0 <= i < cs.len() ==> (#[trigger] cs[i]).len() > 0 && cs[i][0] != '/',
    ensures
        !is_abs(join_comps(cs)),
    decreases cs.len(),
{
    if cs.len() == 0 {
    } else if cs.len() == 1 {
        assert(join_comps(cs)[0] == cs[0][0]);
    } else {
        assert(join_comps(cs)[0] == (cs[0] + seq!['/'] + join_comps(cs.skip(1)))[0]);
        assert(join_comps(cs)[0] == cs[0][0]);
    }
}

/// Parsing is deterministic: the same lines from equal states, under the
/// same configuration, evaluate to the same state and the same records.
/// Together with the exact contract of `parse_lines` on deterministic input,
/// two runs of the parser over one stream agree byte for byte.
pub proof fn lemma_parse_deterministic(
    st1: StateModel,
    st2: StateModel,
    ls: Seq<Seq<char>>,
    k: ParseCfg,
)
    requires
        st1 == st2,
    ensures
        stream_eval(st1, ls, k) == stream_eval(st2, ls, k),
{
}

/// A source path matching a configured exclusion pattern never appears in
/// the output: every record of the per-fragment evaluation survives the
/// exclusion check.
pub proof fn lemma_exclusion(wd: Seq<char>, fs: Seq<Seq<char>>, k: ParseCfg)
    ensures
        forall|i: int|
            0 <= i < dets(frags_cands(wd, fs, k), k).len() ==> !excluded(
                k,
                #[trigger] dets(frags_cands(wd, fs, k), k)[i].file,
            ),
    decreases fs.len(),
{
    if fs.len() == 0 {
    } else {
        let wd1 = wd_after_frag(wd, fs[0], k);
        let rest = frags_cands(wd1, fs.skip(1), k);
        lemma_exclusion(wd1, fs.skip(1), k);
        match frag_rec(wd, fs[0], k) {
            Some(c) => {
                assert(!excluded(k, c.file));
                let sc = SitedCand { wd, c };
                assert(dets(seq![sc] + rest, k) =~= seq![rec_of(c, wd, k, None)] + dets(rest, k))
                    by {
                    assert forall|j: int|
                        0 <= j < rest.len() + 1 implies dets(seq![sc] + rest, k)[j] == (seq![
                        rec_of(c, wd, k, None),
                    ] + dets(rest, k))[j] by {
                        if j > 0 {
                            assert((seq![sc] + rest)[j] == rest[j - 1]);
                        }
                    }
                }
                assert forall|i: int|
                    0 <= i < dets(frags_cands(wd, fs, k), k).len() implies !excluded(
                    k,
                    #[trigger] dets(frags_cands(wd, fs, k), k)[i].file,
                ) by {
                    if i == 0 {
                        assert(dets(frags_cands(wd, fs, k), k)[0] == rec_of(c, wd, k, None));
                    } else {
                        assert(dets(frags_cands(wd, fs, k), k)[i] == dets(rest, k)[i - 1]);
                    }
                }
            },
            None => {},
        }
    }
}

} // verus!
