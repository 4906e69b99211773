//! The log parser: a stateful, line-oriented interpreter over a build trace.
//! It tracks working-directory changes across nested build invocations,
//! splits composite shell lines, resolves back-tick substitution, recognizes
//! compiler invocations and emits compilation records.

use vstd::prelude::*;
use crate::{CompileCommand, CompileDbError, Config, RecordModel, record_well_formed};
use crate::env::{BuildEnv, which_lookup};
use crate::paths::{is_abs, is_abs_exec, path_join, path_join_exec, rel_of, rel_of_exec};
use crate::pattern::{Pattern, pattern_new, pattern_matches, pattern_capture1, re_valid, re_match, re_capture1};
use crate::text::{sv, svs, is_wspace, trim, trim_chars, occurs_at, occurs_at_exec, find_from, find_sub, lemma_find_from, ws_run_end, ws_run_end_exec, ws_next, ws_next_exec, words_from, words_exec, split_ops_from, split_ops_exec, clean_frags, clean_frags_exec, unescape_from, unescape_exec, first_span_from, first_span_exec, no_span, join_sp, join_sp_exec, copy_range, splice, eq_chars, chars_of_str, string_of, wspace, lemma_sv_push, lemma_svs_push, replace_at};

verus! {

/// The mutable state of a parse run: the directory stack (most recent
/// first) and the current working directory.
pub ghost struct StateModel {
    pub stack: Seq<Seq<char>>,
    pub wd: Seq<char>,
}

/// The mathematical model of a [`Parser`]: the three pattern sources and the
/// directory state.
pub ghost struct ParserModel {
    pub cpat: Seq<char>,
    pub fpat: Seq<char>,
    pub excls: Seq<Seq<char>>,
    pub st: StateModel,
}

/// The per-run configuration a parse step depends on: the pattern sources
/// held by the parser and the flags and macros of the configuration handed
/// to each call.
pub ghost struct ParseCfg {
    pub cpat: Seq<char>,
    pub fpat: Seq<char>,
    pub excls: Seq<Seq<char>>,
    pub macros: Seq<Seq<char>>,
    pub no_strict: bool,
    pub command_style: bool,
    pub full_path: bool,
}

/// The parse configuration of parser model `pm` and configuration `c`.
pub open spec fn pcfg(pm: ParserModel, c: Config) -> ParseCfg {
    ParseCfg {
        cpat: pm.cpat,
        fpat: pm.fpat,
        excls: pm.excls,
        macros: svs(c.macros@),
        no_strict: c.no_strict,
        command_style: c.command_style,
        full_path: c.full_path,
    }
}

/// The views of a sequence of records.
pub open spec fn rviews(v: Seq<CompileCommand>) -> Seq<RecordModel> {
    v.map_values(|c: CompileCommand| c@)
}

/// A quote character; the directory banners accept `'` alone or, where
/// `allow3` is set, also back-tick and double quote.
pub open spec fn is_quote(c: char, allow3: bool) -> bool {
    c == '\'' || (allow3 && (c == '`' || c == '"'))
}

fn is_quote_exec(c: char, allow3: bool) -> (r: bool)
    ensures
        r == is_quote(c, allow3),
{
    c == '\'' || (allow3 && (c == '`' || c == '"'))
}

/// The greatest index in `[start, end)` holding a quote, if any.
pub open spec fn last_q(l: Seq<char>, start: int, end: int, allow3: bool) -> Option<int>
    decreases end - start,
{
    if end <= start || start < 0 || end > l.len() {
        None
    } else if is_quote(l[end - 1], allow3) {
        Some(end - 1)
    } else {
        last_q(l, start, end - 1, allow3)
    }
}

fn last_q_exec(l: &Vec<char>, start: usize, end: usize, allow3: bool) -> (r: Option<usize>)
    requires
        end <= l@.len(),
    ensures
        match r {
            Some(o) => last_q(l@, start as int, end as int, allow3) == Some(o as int) && start <= o
                < end,
            None => last_q(l@, start as int, end as int, allow3) is None,
        },
    decreases end,
{
    if end <= start {
        None
    } else if is_quote_exec(l[end - 1], allow3) {
        Some(end - 1)
    } else {
        last_q_exec(l, start, end - 1, allow3)
    }
}

/// The text between the last two quotes of `l`, where the very last
/// character of `l` is a quote and the opening quote stands at or after
/// `start`; nothing otherwise.
pub open spec fn quote_cap(l: Seq<char>, start: int, allow3: bool) -> Option<Seq<char>> {
    if 0 <= start && start + 2 <= l.len() && is_quote(l[l.len() - 1], allow3) {
        match last_q(l, start, l.len() - 1, allow3) {
            Some(o) => Some(l.subrange(o + 1, l.len() - 1)),
            None => None,
        }
    } else {
        None
    }
}

fn quote_cap_exec(l: &Vec<char>, start: usize, allow3: bool) -> (r: Option<Vec<char>>)
    requires
        start <= l@.len(),
    ensures
        match r {
            Some(d) => quote_cap(l@, start as int, allow3) == Some(d@),
            None => quote_cap(l@, start as int, allow3) is None,
        },
{
    let n = l.len();
    if n < 2 || start > n - 2 || !is_quote_exec(l[n - 1], allow3) {
        return None;
    }
    match last_q_exec(l, start, n - 1, allow3) {
        Some(o) => Some(copy_range(l, o + 1, n - 1)),
        None => None,
    }
}

/// The directory captured by an "Entering directory" banner: the line holds
/// `make` somewhere, then `: Entering directory `, and ends with a quoted
/// path (quote style may vary).
pub open spec fn enter_cap(l: Seq<char>) -> Option<Seq<char>> {
    match find_from(l, "make"@, 0) {
        None => None,
        Some(i) => match find_from(l, ": Entering directory "@, i + "make"@.len()) {
            None => None,
            Some(j) => quote_cap(l, j + ": Entering directory "@.len(), true),
        },
    }
}

fn enter_cap_exec(l: &Vec<char>) -> (r: Option<Vec<char>>)
    ensures
        match r {
            Some(d) => enter_cap(l@) == Some(d@),
            None => enter_cap(l@) is None,
        },
{
    let n = l.len();
    assert(n == l@.len());
    let mk = chars_of_str("make");
    match find_sub(l, &mk, 0) {
        None => None,
        Some(i) => {
            proof {
                lemma_find_from(l@, mk@, 0);
            }
            let ph = chars_of_str(": Entering directory ");
            match find_sub(l, &ph, i + mk.len()) {
                None => None,
                Some(j) => {
                    proof {
                        lemma_find_from(l@, ph@, i + mk@.len());
                    }
                    quote_cap_exec(l, j + ph.len(), true)
                },
            }
        },
    }
}

/// Whether the line is a "Leaving directory" banner: `make` somewhere, then
/// `: Leaving directory `, ending with a single-quoted path.
pub open spec fn leave_match(l: Seq<char>) -> bool {
    match find_from(l, "make"@, 0) {
        None => false,
        Some(i) => match find_from(l, ": Leaving directory "@, i + "make"@.len()) {
            None => false,
            Some(j) => quote_cap(l, j + ": Leaving directory "@.len(), false) is Some,
        },
    }
}

fn leave_match_exec(l: &Vec<char>) -> (r: bool)
    ensures
        r == leave_match(l@),
{
    let n = l.len();
    assert(n == l@.len());
    let mk = chars_of_str("make");
    match find_sub(l, &mk, 0) {
        None => false,
        Some(i) => {
            proof {
                lemma_find_from(l@, mk@, 0);
            }
            let ph = chars_of_str(": Leaving directory ");
            match find_sub(l, &ph, i + mk.len()) {
                None => false,
                Some(j) => {
                    proof {
                        lemma_find_from(l@, ph@, i + mk@.len());
                    }
                    quote_cap_exec(l, j + ph.len(), false).is_some()
                },
            }
        },
    }
}

/// The first index at or after `from` where `-C` occurs followed by at least
/// one whitespace character.
pub open spec fn find_dash_c(l: Seq<char>, from: int) -> Option<int>
    decreases l.len() - from,
{
    if from < 0 || from + 3 > l.len() {
        None
    } else if l[from] == '-' && l[from + 1] == 'C' && is_wspace(l[from + 2]) {
        Some(from)
    } else {
        find_dash_c(l, from + 1)
    }
}

fn find_dash_c_exec(l: &Vec<char>, from: usize) -> (r: Option<usize>)
    requires
        from <= l@.len(),
    ensures
        match r {
            Some(i) => find_dash_c(l@, from as int) == Some(i as int) && from <= i && i + 3
                <= l@.len(),
            None => find_dash_c(l@, from as int) is None,
        },
    decreases l@.len() - from,
{
    let n = l.len();
    if n < 3 || from > n - 3 {
        return None;
    }
    if l[from] == '-' && l[from + 1] == 'C' && wspace(l[from + 2]) {
        Some(from)
    } else {
        find_dash_c_exec(l, from + 1)
    }
}

/// The length of the build-tool word standing at index `b` of `l`, if one
/// does; the longest spelling wins.
pub open spec fn make_word_len(l: Seq<char>, b: int) -> Option<int> {
    if occurs_at(l, "mingw32-make"@, b) {
        Some("mingw32-make"@.len() as int)
    } else if occurs_at(l, "gmake"@, b) {
        Some("gmake"@.len() as int)
    } else if occurs_at(l, "make"@, b) {
        Some("make"@.len() as int)
    } else {
        None
    }
}

/// The directory captured by an inline `-C` invocation of the build tool:
/// the line begins (after whitespace) with a build-tool word, and later
/// holds `-C` followed by whitespace; the capture is the first
/// whitespace-delimited token after that.
pub open spec fn cmd_dir_cap(l: Seq<char>) -> Option<Seq<char>> {
    let b = ws_run_end(l, 0);
    match make_word_len(l, b) {
        None => None,
        Some(w) => match find_dash_c(l, b + w) {
            None => None,
            Some(kk) => {
                let t = ws_run_end(l, kk + 3);
                let u = ws_next(l, t);
                Some(l.subrange(t, u))
            },
        },
    }
}

fn make_word_len_exec(l: &Vec<char>, b: usize) -> (r: Option<usize>)
    requires
        b <= l@.len(),
    ensures
        match r {
            Some(w) => make_word_len(l@, b as int) == Some(w as int) && b + w <= l@.len(),
            None => make_word_len(l@, b as int) is None,
        },
{
    let w1 = chars_of_str("mingw32-make");
    let w2 = chars_of_str("gmake");
    let w3 = chars_of_str("make");
    if occurs_at_exec(l, &w1, b) {
        return Some(w1.len());
    }
    if occurs_at_exec(l, &w2, b) {
        return Some(w2.len());
    }
    if occurs_at_exec(l, &w3, b) {
        return Some(w3.len());
    }
    None
}

fn cmd_dir_cap_exec(l: &Vec<char>) -> (r: Option<Vec<char>>)
    ensures
        match r {
            Some(d) => cmd_dir_cap(l@) == Some(d@),
            None => cmd_dir_cap(l@) is None,
        },
{
    let n = l.len();
    assert(n == l@.len());
    let b = ws_run_end_exec(l, 0);
    match make_word_len_exec(l, b) {
        None => None,
        Some(w) => {
            match find_dash_c_exec(l, b + w) {
                None => None,
                Some(kk) => {
                    let t = ws_run_end_exec(l, kk + 3);
                    let u = ws_next_exec(l, t);
                    Some(copy_range(l, t, u))
                },
            }
        },
    }
}

/// Whether the line is an autoconf probe line (`checking whether ... yes` or
/// `... no`, with at most one leading whitespace character); such lines are
/// discarded before any other classification.
pub open spec fn checking_banner(l: Seq<char>) -> bool {
    let st: int = if l.len() > 0 && is_wspace(l[0]) {
        1
    } else {
        0
    };
    occurs_at(l, "checking whether "@, st) && ((occurs_at(l, "yes"@, l.len() - 3) && l.len() >= st
        + "checking whether "@.len() + 3) || (occurs_at(l, "no"@, l.len() - 2) && l.len() >= st
        + "checking whether "@.len() + 2))
}

fn checking_banner_exec(l: &Vec<char>) -> (r: bool)
    ensures
        r == checking_banner(l@),
{
    let n = l.len();
    let st: usize = if n > 0 && wspace(l[0]) {
        1
    } else {
        0
    };
    let chk = chars_of_str("checking whether ");
    if !occurs_at_exec(l, &chk, st) {
        return false;
    }
    assert(st + chk@.len() <= n);
    let rem = n - st - chk.len();
    let yes = chars_of_str("yes");
    let no = chars_of_str("no");
    let has_yes = n >= 3 && occurs_at_exec(l, &yes, n - 3);
    let has_no = n >= 2 && occurs_at_exec(l, &no, n - 2);
    proof {
        if n < 3 {
            assert(!occurs_at(l@, "yes"@, l@.len() - 3));
        }
        if n < 2 {
            assert(!occurs_at(l@, "no"@, l@.len() - 2));
        }
    }
    (has_yes && rem >= 3) || (has_no && rem >= 2)
}

/// The directory named by a `cd` sub-command: the fragment starts with `cd`
/// followed by whitespace, and the capture is everything after that
/// whitespace run.
pub open spec fn cd_capture(f: Seq<char>) -> Option<Seq<char>> {
    if occurs_at(f, "cd"@, 0) && 2 < f.len() && is_wspace(f[2]) {
        Some(f.subrange(ws_run_end(f, 2), f.len() as int))
    } else {
        None
    }
}

fn cd_capture_exec(f: &Vec<char>) -> (r: Option<Vec<char>>)
    ensures
        match r {
            Some(d) => cd_capture(f@) == Some(d@),
            None => cd_capture(f@) is None,
        },
{
    let n = f.len();
    let cd = chars_of_str("cd");
    if occurs_at_exec(f, &cd, 0) && 2 < n && wspace(f[2]) {
        let t = ws_run_end_exec(f, 2);
        Some(copy_range(f, t, n))
    } else {
        None
    }
}

/// One step of the directory tracker: how a consumed line transforms the
/// state, or nothing when the line is no directory announcement. Entering
/// pushes; leaving pops (a no-op on an empty stack) and restores the top;
/// an inline `-C` pushes unless the directory is the `.` marker.
pub open spec fn dir_step(st: StateModel, l: Seq<char>) -> Option<StateModel> {
    if enter_cap(l) is Some {
        let d = enter_cap(l)->Some_0;
        Some(StateModel { stack: seq![d] + st.stack, wd: d })
    } else if leave_match(l) {
        if st.stack.len() == 0 {
            Some(st)
        } else if st.stack.len() == 1 {
            Some(StateModel { stack: st.stack.skip(1), wd: st.wd })
        } else {
            Some(StateModel { stack: st.stack.skip(1), wd: st.stack[1] })
        }
    } else if cmd_dir_cap(l) is Some {
        let d = cmd_dir_cap(l)->Some_0;
        if d == "."@ {
            Some(st)
        } else {
            Some(StateModel { stack: seq![d] + st.stack, wd: d })
        }
    } else {
        None
    }
}

/// A candidate compilation record before the full-path, exclusion, existence
/// and macro steps: the relativized source file and the argument tokens from
/// the compiler token on.
pub ghost struct Cand {
    pub file: Seq<char>,
    pub args: Seq<Seq<char>>,
}

/// The index of the first token matching the compiler pattern, at or after
/// `i`.
pub open spec fn first_match_tok(cpat: Seq<char>, toks: Seq<Seq<char>>, i: int) -> Option<int>
    decreases toks.len() - i,
{
    if i < 0 || i >= toks.len() {
        None
    } else if re_match(cpat, toks[i]) {
        Some(i)
    } else {
        first_match_tok(cpat, toks, i + 1)
    }
}

/// The index of the first token equal to `w`, at or after `i`.
pub open spec fn first_eq_tok(toks: Seq<Seq<char>>, w: Seq<char>, i: int) -> Option<int>
    decreases toks.len() - i,
{
    if i < 0 || i >= toks.len() {
        None
    } else if toks[i] == w {
        Some(i)
    } else {
        first_eq_tok(toks, w, i + 1)
    }
}

/// What `first_eq_tok` returns lies in range.
pub proof fn lemma_first_eq_tok_bounds(toks: Seq<Seq<char>>, w: Seq<char>, i: int)
    requires
        0 <= i,
    ensures
        match first_eq_tok(toks, w, i) {
            Some(x) => i <= x < toks.len() && toks[x] == w,
            None => true,
        },
    decreases toks.len() - i,
{
    if 0 <= i && i < toks.len() && toks[i] != w {
        lemma_first_eq_tok_bounds(toks, w, i + 1);
    }
}

/// The candidate extracted from a sub-command: the tokens from the first
/// compiler-matching token on, and the first capture of the file pattern,
/// relativized against `wd` when absolute. Nothing when no token matches or
/// the file pattern yields no capture.
pub open spec fn cand_of(cmd: Seq<char>, wd: Seq<char>, k: ParseCfg) -> Option<Cand> {
    let toks = words_from(cmd, 0);
    match first_match_tok(k.cpat, toks, 0) {
        None => None,
        Some(i) => match re_capture1(k.fpat, cmd) {
            None => None,
            Some(f0) => Some(
                Cand {
                    file: if is_abs(f0) {
                        rel_of(f0, wd)
                    } else {
                        f0
                    },
                    args: toks.skip(i),
                },
            ),
        },
    }
}

/// The first argument replaced by the resolved compiler path, when one was
/// resolved.
pub open spec fn apply_w(args: Seq<Seq<char>>, w: Option<Seq<char>>) -> Seq<Seq<char>> {
    match w {
        Some(p) => if args.len() > 0 {
            args.update(0, p)
        } else {
            args
        },
        None => args,
    }
}

/// The argument following the first `-c`, relativized against `wd` when it
/// is absolute, by the same rule as the record's `file` field (prefix strip,
/// then common-suffix alignment), so the two stay consistent.
pub open spec fn fix_c(args: Seq<Seq<char>>, wd: Seq<char>) -> Seq<Seq<char>> {
    match first_eq_tok(args, "-c"@, 0) {
        Some(ci) => if ci + 1 < args.len() && is_abs(args[ci + 1]) {
            args.update(ci + 1, rel_of(args[ci + 1], wd))
        } else {
            args
        },
        None => args,
    }
}

/// The `-c` argument of the emitted invocation is consistent with the
/// `file` field: an absolute path after the first `-c` is relativized by
/// exactly the rule the `file` field uses.
pub proof fn lemma_c_arg_consistent(args: Seq<Seq<char>>, wd: Seq<char>, ci: int)
    requires
        first_eq_tok(args, "-c"@, 0) == Some(ci),
        ci + 1 < args.len(),
        is_abs(args[ci + 1]),
    ensures
        fix_c(args, wd).len() == args.len(),
        fix_c(args, wd)[ci + 1] == rel_of(args[ci + 1], wd),
{
    lemma_first_eq_tok_bounds(args, "-c"@, 0);
}

/// Whether `file` matches any of the exclusion patterns (all patterns are
/// checked).
pub open spec fn excluded_by(excls: Seq<Seq<char>>, file: Seq<char>) -> bool {
    exists|j: int| 0 <= j < excls.len() && re_match(excls[j], file)
}

/// Whether `file` matches any configured exclusion pattern.
pub open spec fn excluded(k: ParseCfg, file: Seq<char>) -> bool {
    excluded_by(k.excls, file)
}

/// The record a candidate yields: working directory, relativized file, and
/// the argument list after the full-path replacement `w`, the `-c` fix and
/// the configured macros, rendered as one command string or as a token list
/// by the output style.
pub open spec fn rec_of(c: Cand, wd: Seq<char>, k: ParseCfg, w: Option<Seq<char>>) -> RecordModel {
    let am = fix_c(apply_w(c.args, w), wd) + k.macros;
    RecordModel {
        directory: wd,
        file: c.file,
        command: if k.command_style {
            Some(join_sp(am))
        } else {
            None
        },
        arguments: if k.command_style {
            None
        } else {
            Some(am)
        },
        output: None,
    }
}

/// What `process_compile_command` guarantees: nothing comes of a sub-command
/// without a candidate; an excluded candidate yields nothing; with the
/// existence check disabled a surviving candidate always yields its record;
/// and any returned record is the candidate's record, exactly as specified
/// when no full-path resolution was asked for.
pub open spec fn pcc_post(pm: ParserModel, c: Config, cmd: Seq<char>, r: Option<CompileCommand>) -> bool {
    let k = pcfg(pm, c);
    let wd = pm.st.wd;
    match cand_of(cmd, wd, k) {
        None => r is None,
        Some(cd) => {
            &&& (excluded(k, cd.file) ==> r is None)
            &&& (!excluded(k, cd.file) && c.no_strict ==> r is Some)
            &&& match r {
                Some(rec) => {
                    &&& !excluded(k, cd.file)
                    &&& exists|w: Option<Seq<char>>|
                        rec@ == rec_of(cd, wd, k, w) && (w is None || k.full_path)
                    &&& (!k.full_path ==> rec@ == rec_of(cd, wd, k, None))
                },
                None => true,
            }
        },
    }
}

/// The most rounds of back-tick substitution attempted on one line; a line
/// whose substitutions keep introducing new spans past this bound is dropped
/// as if a substitution had failed.
pub const SUBST_ROUNDS: usize = 8;

/// The line after feeding the span substitutions with the answers `outs`
/// (an answer of nothing is a failed run): each round replaces the first
/// back-tick span with the trimmed answer; nothing when an answer fails or
/// the answers run out while spans remain.
pub open spec fn subst(l: Seq<char>, outs: Seq<Option<Seq<char>>>) -> Option<Seq<char>>
    decreases outs.len(),
{
    match first_span_from(l, 0) {
        None => Some(l),
        Some(p) => {
            if outs.len() == 0 {
                None
            } else {
                match outs[0] {
                    None => None,
                    Some(o) => subst(
                        l.subrange(0, p.0) + trim(o) + l.subrange(p.1 + 1, l.len() as int),
                        outs.skip(1),
                    ),
                }
            }
        },
    }
}

/// The working directory after one sub-command: a `cd` replaces it in place,
/// anything else leaves it.
pub open spec fn wd_after_frag(wdc: Seq<char>, frag: Seq<char>, k: ParseCfg) -> Seq<char> {
    match cd_capture(frag) {
        Some(d) => if is_abs(d) {
            d
        } else {
            path_join(wdc, d)
        },
        None => wdc,
    }
}

/// The surviving candidate of one sub-command: none for a `cd`, a fragment
/// that does not match the compiler pattern, a fragment without a candidate,
/// or an excluded file.
pub open spec fn frag_rec(wdc: Seq<char>, frag: Seq<char>, k: ParseCfg) -> Option<Cand> {
    if cd_capture(frag) is Some {
        None
    } else if !re_match(k.cpat, frag) {
        None
    } else {
        match cand_of(frag, wdc, k) {
            None => None,
            Some(c) => if excluded(k, c.file) {
                None
            } else {
                Some(c)
            },
        }
    }
}

/// The state after one sub-command: a `cd` replaces the working directory
/// and rewrites the stack's head in place (no push or pop), keeping the
/// head equal to the working directory; anything else leaves the state.
pub open spec fn st_after_frag(st: StateModel, frag: Seq<char>, k: ParseCfg) -> StateModel {
    match cd_capture(frag) {
        Some(d) => {
            let w = if is_abs(d) {
                d
            } else {
                path_join(st.wd, d)
            };
            StateModel {
                stack: if st.stack.len() > 0 {
                    st.stack.update(0, w)
                } else {
                    st.stack
                },
                wd: w,
            }
        },
        None => st,
    }
}

/// The state after a sequence of sub-commands.
pub open spec fn frags_st(st: StateModel, fs: Seq<Seq<char>>, k: ParseCfg) -> StateModel
    decreases fs.len(),
{
    if fs.len() == 0 {
        st
    } else {
        frags_st(st_after_frag(st, fs[0], k), fs.skip(1), k)
    }
}

/// The parser-state invariant of the data model: while the stack is
/// non-empty, its head equals the working directory.
pub open spec fn state_inv(st: StateModel) -> bool {
    st.stack.len() > 0 ==> st.stack[0] == st.wd
}

/// Every directory announcement preserves the state invariant: entering and
/// an inline `-C` push the new directory as both head and working
/// directory, and leaving restores the remaining head (or empties the stack,
/// where the invariant says nothing).
pub proof fn lemma_dir_step_inv(st: StateModel, l: Seq<char>)
    requires
        state_inv(st),
    ensures
        dir_step(st, l) matches Some(st2) ==> state_inv(st2),
{
}

/// Every sub-command walk preserves the state invariant: a `cd` rewrites the
/// head together with the working directory.
pub proof fn lemma_frags_st_inv(st: StateModel, fs: Seq<Seq<char>>, k: ParseCfg)
    requires
        state_inv(st),
    ensures
        state_inv(frags_st(st, fs, k)),
    decreases fs.len(),
{
    if fs.len() > 0 {
        lemma_frags_st_inv(st_after_frag(st, fs[0], k), fs.skip(1), k);
    }
}

/// A candidate together with the working directory that was current when its
/// sub-command ran.
pub ghost struct SitedCand {
    pub wd: Seq<char>,
    pub c: Cand,
}

/// The surviving candidates of a sequence of sub-commands, each sited at the
/// working directory current at its turn, in order.
pub open spec fn frags_cands(wdc: Seq<char>, fs: Seq<Seq<char>>, k: ParseCfg) -> Seq<SitedCand>
    decreases fs.len(),
{
    if fs.len() == 0 {
        Seq::empty()
    } else {
        let rest = frags_cands(wd_after_frag(wdc, fs[0], k), fs.skip(1), k);
        match frag_rec(wdc, fs[0], k) {
            Some(c) => seq![SitedCand { wd: wdc, c }] + rest,
            None => rest,
        }
    }
}

/// The records of sited candidates with no full-path resolution.
pub open spec fn dets(cs: Seq<SitedCand>, k: ParseCfg) -> Seq<RecordModel> {
    cs.map_values(|sc: SitedCand| rec_of(sc.c, sc.wd, k, None))
}

proof fn lemma_dets_cons(sc: SitedCand, rest: Seq<SitedCand>, k: ParseCfg)
    ensures
        dets(seq![sc] + rest, k) == seq![rec_of(sc.c, sc.wd, k, None)] + dets(rest, k),
{
    assert(dets(seq![sc] + rest, k) =~= seq![rec_of(sc.c, sc.wd, k, None)] + dets(rest, k)) by {
        assert forall|j: int| 0 <= j < rest.len() + 1 implies dets(seq![sc] + rest, k)[j] == (
        seq![rec_of(sc.c, sc.wd, k, None)] + dets(rest, k))[j] by {
            if j > 0 {
                assert((seq![sc] + rest)[j] == rest[j - 1]);
            }
        }
    }
}

/// Record views distribute over pushing.
proof fn lemma_rviews_push(v: Seq<CompileCommand>, c: CompileCommand)
    ensures
        rviews(v.push(c)) == rviews(v).push(c@),
{
    assert(rviews(v.push(c)) =~= rviews(v).push(c@)) by {
        assert forall|j: int| 0 <= j < v.len() + 1 implies rviews(v.push(c))[j] == rviews(v).push(
            c@,
        )[j] by {
            if j < v.len() {
                assert(v.push(c)[j] == v[j]);
            } else {
                assert(v.push(c)[j] == c);
            }
        }
    }
}

/// Record views distribute over concatenation.
proof fn lemma_rviews_concat(a: Seq<CompileCommand>, b: Seq<CompileCommand>)
    ensures
        rviews(a + b) == rviews(a) + rviews(b),
{
    assert(rviews(a + b) =~= rviews(a) + rviews(b)) by {
        assert forall|j: int| 0 <= j < a.len() + b.len() implies rviews(a + b)[j] == (rviews(a)
            + rviews(b))[j] by {
            if j < a.len() {
                assert((a + b)[j] == a[j]);
            } else {
                assert((a + b)[j] == b[j - a.len()]);
            }
        }
    }
}

/// A record rendered from a sited candidate, under a full-path replacement
/// only when the configuration asks for one.
pub open spec fn rec_matches(r: RecordModel, sc: SitedCand, k: ParseCfg) -> bool {
    exists|w: Option<Seq<char>>| r == rec_of(sc.c, sc.wd, k, w) && (w is None || k.full_path)
}

/// `rs` is an order-preserving selection of the sited candidates `cs`: each
/// record matches a distinct candidate, in candidate order.
pub open spec fn selection_of(rs: Seq<RecordModel>, cs: Seq<SitedCand>, k: ParseCfg) -> bool
    decreases cs.len(),
{
    if rs.len() == 0 {
        true
    } else if cs.len() == 0 {
        false
    } else {
        (rec_matches(rs[0], cs[0], k) && selection_of(rs.skip(1), cs.skip(1), k)) || selection_of(
            rs,
            cs.skip(1),
            k,
        )
    }
}

/// Appending a matching pair to a selection keeps it a selection.
proof fn lemma_selection_push_match(
    rs: Seq<RecordModel>,
    cs: Seq<SitedCand>,
    r: RecordModel,
    sc: SitedCand,
    k: ParseCfg,
)
    requires
        selection_of(rs, cs, k),
        rec_matches(r, sc, k),
    ensures
        selection_of(rs.push(r), cs.push(sc), k),
    decreases cs.len(),
{
    if cs.len() == 0 {
        assert(rs.len() == 0);
        assert(rs.push(r)[0] == r && cs.push(sc)[0] == sc);
        assert(rs.push(r).skip(1) =~= Seq::<RecordModel>::empty());
        assert(cs.push(sc).skip(1) =~= Seq::<SitedCand>::empty());
        assert(selection_of(rs.push(r).skip(1), cs.push(sc).skip(1), k));
    } else if rs.len() == 0 {
        assert(selection_of(rs, cs.skip(1), k));
        lemma_selection_push_match(rs, cs.skip(1), r, sc, k);
        assert(cs.push(sc).skip(1) =~= cs.skip(1).push(sc));
        assert(selection_of(rs.push(r), cs.push(sc).skip(1), k));
    } else {
        if rec_matches(rs[0], cs[0], k) && selection_of(rs.skip(1), cs.skip(1), k) {
            lemma_selection_push_match(rs.skip(1), cs.skip(1), r, sc, k);
            assert(rs.push(r)[0] == rs[0] && cs.push(sc)[0] == cs[0]);
            assert(rs.push(r).skip(1) =~= rs.skip(1).push(r));
            assert(cs.push(sc).skip(1) =~= cs.skip(1).push(sc));
            assert(selection_of(rs.push(r).skip(1), cs.push(sc).skip(1), k));
        } else {
            assert(selection_of(rs, cs.skip(1), k));
            lemma_selection_push_match(rs, cs.skip(1), r, sc, k);
            assert(cs.push(sc).skip(1) =~= cs.skip(1).push(sc));
            assert(selection_of(rs.push(r), cs.push(sc).skip(1), k));
        }
    }
}

/// Appending a skipped candidate keeps a selection.
proof fn lemma_selection_push_skip(
    rs: Seq<RecordModel>,
    cs: Seq<SitedCand>,
    sc: SitedCand,
    k: ParseCfg,
)
    requires
        selection_of(rs, cs, k),
    ensures
        selection_of(rs, cs.push(sc), k),
    decreases cs.len(),
{
    if rs.len() == 0 {
    } else {
        if rec_matches(rs[0], cs[0], k) && selection_of(rs.skip(1), cs.skip(1), k) {
            lemma_selection_push_skip(rs.skip(1), cs.skip(1), sc, k);
            assert(cs.push(sc)[0] == cs[0]);
            assert(cs.push(sc).skip(1) =~= cs.skip(1).push(sc));
        } else {
            assert(selection_of(rs, cs.skip(1), k));
            lemma_selection_push_skip(rs, cs.skip(1), sc, k);
            assert(cs.push(sc).skip(1) =~= cs.skip(1).push(sc));
        }
    }
}

/// The in-order concatenation of record blocks.
pub open spec fn cat(blocks: Seq<Seq<RecordModel>>) -> Seq<RecordModel>
    decreases blocks.len(),
{
    if blocks.len() == 0 {
        Seq::empty()
    } else {
        blocks[0] + cat(blocks.skip(1))
    }
}

proof fn lemma_cat_push(blocks: Seq<Seq<RecordModel>>, b: Seq<RecordModel>)
    ensures
        cat(blocks.push(b)) == cat(blocks) + b,
    decreases blocks.len(),
{
    if blocks.len() == 0 {
        assert(blocks.push(b)[0] == b);
        assert(blocks.push(b).skip(1) =~= Seq::<Seq<RecordModel>>::empty());
        assert(cat(Seq::<Seq<RecordModel>>::empty()) =~= Seq::<RecordModel>::empty());
        assert(blocks =~= Seq::<Seq<RecordModel>>::empty());
        assert(cat(blocks.push(b)) =~= cat(blocks) + b);
    } else {
        lemma_cat_push(blocks.skip(1), b);
        assert(blocks.push(b)[0] == blocks[0]);
        assert(blocks.push(b).skip(1) =~= blocks.skip(1).push(b));
        assert(blocks[0] + (cat(blocks.skip(1)) + b) =~= (blocks[0] + cat(blocks.skip(1))) + b);
    }
}

/// The cleaned sub-commands of a substituted line: unescape, split at shell
/// operators, trim and drop empties.
pub open spec fn line_frags(l2: Seq<char>) -> Seq<Seq<char>> {
    clean_frags(split_ops_from(unescape_from(l2, 0), 0))
}

/// Whether a line is consumed by the directory tracker.
pub open spec fn dir_consumes(lt: Seq<char>) -> bool {
    enter_cap(lt) is Some || leave_match(lt) || cmd_dir_cap(lt) is Some
}

/// A quiet line yields no records and engages no substitution: empty, an
/// autoconf probe, a directory announcement, or no compiler match.
pub open spec fn line_quiet(l: Seq<char>, k: ParseCfg) -> bool {
    let lt = trim(l);
    lt.len() == 0 || checking_banner(lt) || dir_consumes(lt) || !re_match(k.cpat, lt)
}

/// A deterministic line: quiet, or free of back-tick spans.
pub open spec fn line_det(l: Seq<char>, k: ParseCfg) -> bool {
    line_quiet(l, k) || no_span(trim(l))
}

/// Deterministic evaluation of one line: the state after it and the records
/// it yields. This is exact for the executable parser whenever the line is
/// deterministic and the configuration skips the existence check and the
/// full-path resolution.
pub open spec fn line_eval(st: StateModel, l: Seq<char>, k: ParseCfg) -> (StateModel, Seq<
    RecordModel,
>) {
    let lt = trim(l);
    if lt.len() == 0 || checking_banner(lt) {
        (st, Seq::empty())
    } else {
        match dir_step(st, lt) {
            Some(st2) => (st2, Seq::empty()),
            None => {
                if !re_match(k.cpat, lt) {
                    (st, Seq::empty())
                } else {
                    let fs = line_frags(lt);
                    (frags_st(st, fs, k), dets(frags_cands(st.wd, fs, k), k))
                }
            },
        }
    }
}

/// Deterministic evaluation of a stream of lines, in order.
pub open spec fn stream_eval(st: StateModel, ls: Seq<Seq<char>>, k: ParseCfg) -> (StateModel, Seq<
    RecordModel,
>)
    decreases ls.len(),
{
    if ls.len() == 0 {
        (st, Seq::empty())
    } else {
        let e1 = line_eval(st, ls[0], k);
        let e2 = stream_eval(e1.0, ls.skip(1), k);
        (e2.0, e1.1 + e2.1)
    }
}

/// What one parsed line guarantees, relating the state before it, the state
/// after it and the records it yielded: a quiet line changes state exactly
/// by `line_eval` and yields nothing; a deterministic line under a
/// configuration with the existence check off and no full-path resolution is
/// exactly `line_eval`; and any other line, for some sequence of
/// substitution answers, either fails (no records, state kept) or reaches
/// the state of the sub-command walk and yields an order-preserving
/// selection of the substituted line's surviving candidates — a complete
/// one whenever the existence check is off — sited where the directory
/// tracking put them.
pub open spec fn line_post(
    st: StateModel,
    l: Seq<char>,
    k: ParseCfg,
    st2: StateModel,
    rs: Seq<RecordModel>,
) -> bool {
    &&& (line_quiet(l, k) ==> st2 == line_eval(st, l, k).0 && rs.len() == 0)
    &&& (k.no_strict && !k.full_path && line_det(l, k) ==> st2 == line_eval(st, l, k).0 && rs
        == line_eval(st, l, k).1)
    &&& (!line_quiet(l, k) ==> exists|outs: Seq<Option<Seq<char>>>|
        {
            &&& outs.len() <= SUBST_ROUNDS
            &&& (no_span(trim(l)) ==> outs.len() == 0)
            &&& match subst(trim(l), outs) {
                None => rs.len() == 0 && st2 == st,
                Some(l2) => {
                    let fs = line_frags(l2);
                    &&& st2 == frags_st(st, fs, k)
                    &&& rs.len() <= frags_cands(st.wd, fs, k).len()
                    &&& selection_of(rs, frags_cands(st.wd, fs, k), k)
                    &&& (k.no_strict ==> rs.len() == frags_cands(st.wd, fs, k).len())
                    &&& (k.no_strict && !k.full_path ==> rs == dets(
                        frags_cands(st.wd, fs, k),
                        k,
                    ))
                },
            }
        })
}

/// One assignment of intermediate states and per-line record blocks that
/// explains a parsed stream: `sts[i]` is the state before line `i` and
/// `sts[i + 1]` the state after it, `blocks[i]` holds that line's records,
/// and the output is their in-order concatenation.
pub open spec fn stream_witness(
    st: StateModel,
    ls: Seq<Seq<char>>,
    k: ParseCfg,
    st2: StateModel,
    rs: Seq<RecordModel>,
    sts: Seq<StateModel>,
    blocks: Seq<Seq<RecordModel>>,
) -> bool {
    &&& sts.len() == ls.len() + 1
    &&& blocks.len() == ls.len()
    &&& sts[0] == st
    &&& sts[ls.len() as int] == st2
    &&& rs == cat(blocks)
    &&& forall|i: int|
        0 <= i < ls.len() ==> line_post(sts[i], #[trigger] ls[i], k, sts[i + 1], blocks[i])
}

/// Every parsed stream is explained line by line: some sequence of
/// intermediate states and record blocks ties each line's outcome to
/// `line_post`, and the whole output is their in-order concatenation.
pub open spec fn stream_post(
    st: StateModel,
    ls: Seq<Seq<char>>,
    k: ParseCfg,
    st2: StateModel,
    rs: Seq<RecordModel>,
) -> bool {
    exists|sts: Seq<StateModel>, blocks: Seq<Seq<RecordModel>>|
        stream_witness(st, ls, k, st2, rs, sts, blocks)
}

/// The pattern sources of a vector of compiled patterns.
pub open spec fn pv(v: Seq<Pattern>) -> Seq<Seq<char>> {
    v.map_values(|p: Pattern| p@)
}

/// The log parser: the compiled pattern set and the directory-tracking
/// state. One parser serves one parse run.
pub struct Parser {
    compile_pat: Pattern,
    file_pat: Pattern,
    exclude_pats: Vec<Pattern>,
    dir_stack: Vec<Vec<char>>,
    working_dir: Vec<char>,
}

impl View for Parser {
    type V = ParserModel;

    closed spec fn view(&self) -> ParserModel {
        ParserModel {
            cpat: self.compile_pat@,
            fpat: self.file_pat@,
            excls: pv(self.exclude_pats@),
            st: StateModel { stack: sv(self.dir_stack@), wd: self.working_dir@ },
        }
    }
}

impl Parser {
    /// Build a parser from a configuration: compile the compiler pattern,
    /// the file pattern and every exclusion pattern, and start in the
    /// configured build directory with that directory as the whole stack.
    /// Fails, with an `InvalidCommand` error, exactly when one of the
    /// patterns is invalid.
    pub fn new(config: &Config) -> (r: Result<Parser, CompileDbError>)
        ensures
            r is Ok <==> re_valid(config.regex_compile@) && re_valid(config.regex_file@) && (
            forall|i: int|
                0 <= i < config.exclude_patterns@.len() ==> re_valid(
                    config.exclude_patterns@[i]@,
                )),
            r matches Ok(p) ==> {
                &&& p@.cpat == config.regex_compile@
                &&& p@.fpat == config.regex_file@
                &&& p@.excls == svs(config.exclude_patterns@)
                &&& p@.st.stack == seq![config.build_dir@]
                &&& p@.st.wd == config.build_dir@
                &&& state_inv(p@.st)
            },
            r matches Err(e) ==> e is InvalidCommand,
    {
        let compile_pat = match pattern_new(config.regex_compile.as_str()) {
            Ok(p) => p,
            Err(m) => {
                return Err(CompileDbError::InvalidCommand(m));
            },
        };
        let file_pat = match pattern_new(config.regex_file.as_str()) {
            Ok(p) => p,
            Err(m) => {
                return Err(CompileDbError::InvalidCommand(m));
            },
        };
        let mut exclude_pats: Vec<Pattern> = Vec::new();
        let en = config.exclude_patterns.len();
        let mut i: usize = 0;
        while i < en
            invariant
                0 <= i <= en,
                en == config.exclude_patterns@.len(),
                exclude_pats@.len() == i,
                forall|j: int| 0 <= j < i ==> exclude_pats@[j]@ == config.exclude_patterns@[j]@,
                forall|j: int| 0 <= j < i ==> re_valid(config.exclude_patterns@[j]@),
            decreases en - i,
        {
            match pattern_new(config.exclude_patterns[i].as_str()) {
                Ok(p) => exclude_pats.push(p),
                Err(m) => {
                    return Err(CompileDbError::InvalidCommand(m));
                },
            }
            i = i + 1;
        }
        let working_dir = chars_of_str(config.build_dir.as_str());
        let mut dir_stack: Vec<Vec<char>> = Vec::new();
        dir_stack.push(copy_range(&working_dir, 0, working_dir.len()));
        assert(working_dir@.subrange(0, working_dir@.len() as int) =~= working_dir@);
        let p = Parser { compile_pat, file_pat, exclude_pats, dir_stack, working_dir };
        proof {
            assert(p@.excls =~= svs(config.exclude_patterns@));
            assert(p@.st.stack =~= seq![config.build_dir@]);
        }
        Ok(p)
    }

    /// The current working directory.
    pub fn working_dir(&self) -> (r: String)
        ensures
            r@ == self@.st.wd,
    {
        string_of(&self.working_dir)
    }

    /// Apply a directory announcement to the state; yields whether the line
    /// was consumed.
    fn update_dirs(&mut self, lt: &Vec<char>) -> (b: bool)
        ensures
            final(self)@.cpat == old(self)@.cpat,
            final(self)@.fpat == old(self)@.fpat,
            final(self)@.excls == old(self)@.excls,
            match dir_step(old(self)@.st, lt@) {
                Some(st2) => b && final(self)@.st == st2,
                None => !b && final(self)@.st == old(self)@.st,
            },
    {
        if let Some(d) = enter_cap_exec(lt) {
            let ghost dv = d@;
            let dc = copy_range(&d, 0, d.len());
            assert(dc@ =~= dv);
            self.dir_stack.insert(0, dc);
            self.working_dir = d;
            proof {
                assert(sv(self.dir_stack@) =~= seq![dv] + sv(old(self).dir_stack@));
            }
            return true;
        }
        if leave_match_exec(lt) {
            if self.dir_stack.len() > 0 {
                self.dir_stack.remove(0);
                assert(sv(self.dir_stack@) =~= sv(old(self).dir_stack@).skip(1));
                if self.dir_stack.len() > 0 {
                    let top = copy_range(&self.dir_stack[0], 0, self.dir_stack[0].len());
                    assert(top@ =~= sv(old(self).dir_stack@)[1]);
                    self.working_dir = top;
                }
            }
            return true;
        }
        if let Some(d) = cmd_dir_cap_exec(lt) {
            proof {
                reveal_strlit(".");
            }
            let is_dot = d.len() == 1 && d[0] == '.';
            proof {
                if is_dot {
                    assert(d@ =~= "."@);
                } else {
                    assert(d@ != "."@) by {
                        if d@.len() == 1 {
                            assert(d@[0] != "."@[0]);
                        }
                    }
                }
            }
            if !is_dot {
                let ghost dv = d@;
                let dc = copy_range(&d, 0, d.len());
                assert(dc@ =~= dv);
                self.dir_stack.insert(0, dc);
                self.working_dir = d;
                proof {
                    assert(sv(self.dir_stack@) =~= seq![dv] + sv(old(self).dir_stack@));
                }
            }
            return true;
        }
        false
    }
}

impl Parser {
    /// Whether `file` matches one of the compiled exclusion patterns.
    fn is_excluded(&self, file: &Vec<char>) -> (r: bool)
        ensures
            r == excluded_by(self@.excls, file@),
    {
        let m = self.exclude_pats.len();
        let mut i: usize = 0;
        while i < m
            invariant
                0 <= i <= m,
                m == self.exclude_pats@.len(),
                forall|j: int| 0 <= j < i ==> !re_match(self@.excls[j], file@),
            decreases m - i,
        {
            if pattern_matches(&self.exclude_pats[i], file) {
                assert(self@.excls[i as int] == self.exclude_pats@[i as int]@);
                assert(excluded_by(self@.excls, file@));
                return true;
            }
            assert(self@.excls[i as int] == self.exclude_pats@[i as int]@);
            i = i + 1;
        }
        false
    }

    /// Extract a compilation record from a sub-command already known to
    /// match the compiler pattern: locate the compiler token, extract and
    /// relativize the source file, optionally resolve the compiler's full
    /// path, relativize an absolute `-c` argument, drop excluded files,
    /// drop files missing on disk unless the check is disabled, and append
    /// the configured macros.
    #[verifier::rlimit(50)]
    fn process_compile_command<E: BuildEnv>(
        &self,
        cmd: &Vec<char>,
        config: &Config,
        env: &mut E,
    ) -> (r: Option<CompileCommand>)
        ensures
            pcc_post(self@, *config, cmd@, r),
    {
        let ghost k = pcfg(self@, *config);
        let ghost wd = self@.st.wd;
        let toks = words_exec(cmd, 0);
        let n = toks.len();
        let idx = match find_tok_match(&self.compile_pat, &toks, 0) {
            None => {
                return None;
            },
            Some(i) => i,
        };
        let f0 = match pattern_capture1(&self.file_pat, cmd) {
            None => {
                return None;
            },
            Some(f) => f,
        };
        let ghost cd = cand_of(cmd@, wd, k)->Some_0;
        let file = if is_abs_exec(&f0) {
            rel_of_exec(&f0, &self.working_dir)
        } else {
            f0
        };
        assert(file@ == cd.file);
        let mut args = copy_tail(&toks, idx);
        assert(sv(args@) == cd.args);
        let ghost args0 = sv(args@);
        let ghost mut wopt: Option<Seq<char>> = None;
        assert(args.len() >= 1);
        if config.full_path {
            let name = string_of(&args[0]);
            match which_lookup(name.as_str()) {
                Some(p) => {
                    let pc = chars_of_str(p.as_str());
                    proof {
                        wopt = Some(pc@);
                    }
                    replace_at(&mut args, 0, pc);
                    assert(sv(args@) == apply_w(args0, wopt));
                },
                None => {},
            }
        }
        assert(sv(args@) == apply_w(args0, wopt));
        let dc = chars_of_str("-c");
        match find_eq_tok(&args, &dc, 0) {
            Some(ci) => {
                if ci + 1 < args.len() && is_abs_exec(&args[ci + 1]) {
                    let v = rel_of_exec(&args[ci + 1], &self.working_dir);
                    let ghost before = sv(args@);
                    let ghost vv = rel_of(before[ci + 1], wd);
                    replace_at(&mut args, ci + 1, v);
                    assert(sv(args@) == before.update(ci + 1, vv));
                }
            },
            None => {},
        }
        assert(sv(args@) == fix_c(apply_w(args0, wopt), wd));
        if self.is_excluded(&file) {
            return None;
        }
        if !config.no_strict {
            let chk = path_join_exec(&self.working_dir, &file);
            let chks = string_of(&chk);
            if !env.path_exists(chks.as_str()) {
                return None;
            }
        }
        let out_args = to_strings(&args, &config.macros);
        assert(svs(out_args@) == fix_c(apply_w(args0, wopt), wd) + k.macros);
        let directory = string_of(&self.working_dir);
        let file_s = string_of(&file);
        let rec = if config.command_style {
            let joined = join_sp_exec(&out_args, 0);
            assert(svs(out_args@).skip(0) =~= svs(out_args@));
            CompileCommand {
                directory,
                file: file_s,
                command: Some(string_of(&joined)),
                arguments: None,
                output: None,
            }
        } else {
            CompileCommand {
                directory,
                file: file_s,
                command: None,
                arguments: Some(out_args),
                output: None,
            }
        };
        proof {
            assert(rec@ == rec_of(cd, wd, k, wopt));
            assert(wopt is None || k.full_path);
        }
        Some(rec)
    }
}

/// The tokens from index `idx` on, copied.
fn copy_tail(toks: &Vec<Vec<char>>, idx: usize) -> (r: Vec<Vec<char>>)
    requires
        idx <= toks@.len(),
    ensures
        sv(r@) == sv(toks@).skip(idx as int),
{
    let n = toks.len();
    let mut r: Vec<Vec<char>> = Vec::new();
    let mut i: usize = idx;
    assert(sv(r@) =~= sv(toks@).subrange(idx as int, idx as int));
    while i < n
        invariant
            idx <= i <= n,
            n == toks@.len(),
            sv(r@) == sv(toks@).subrange(idx as int, i as int),
        decreases n - i,
    {
        let t = copy_range(&toks[i], 0, toks[i].len());
        assert(t@ =~= toks@[i as int]@);
        proof {
            lemma_sv_push(r@, t);
            assert(sv(toks@)[i as int] == toks@[i as int]@);
            assert(sv(toks@).subrange(idx as int, i + 1) =~= sv(toks@).subrange(
                idx as int,
                i as int,
            ).push(sv(toks@)[i as int]));
        }
        r.push(t);
        i = i + 1;
    }
    assert(sv(r@) =~= sv(toks@).skip(idx as int));
    r
}

/// The arguments rendered as strings, with the macro tokens appended.
fn to_strings(args: &Vec<Vec<char>>, macros: &Vec<String>) -> (r: Vec<String>)
    ensures
        svs(r@) == sv(args@) + svs(macros@),
{
    let mut r: Vec<String> = Vec::new();
    let an = args.len();
    let mut i: usize = 0;
    assert(svs(r@) =~= sv(args@).subrange(0, 0));
    while i < an
        invariant
            0 <= i <= an,
            an == args@.len(),
            svs(r@) == sv(args@).subrange(0, i as int),
        decreases an - i,
    {
        let t = string_of(&args[i]);
        assert(t@ == args@[i as int]@);
        proof {
            lemma_svs_push(r@, t);
            assert(sv(args@)[i as int] == args@[i as int]@);
            assert(sv(args@).subrange(0, i + 1) =~= sv(args@).subrange(0, i as int).push(
                sv(args@)[i as int],
            ));
        }
        r.push(t);
        i = i + 1;
    }
    assert(sv(args@).subrange(0, an as int) =~= sv(args@));
    let mn = macros.len();
    let mut j: usize = 0;
    assert(svs(r@) =~= sv(args@) + svs(macros@).subrange(0, 0));
    while j < mn
        invariant
            0 <= j <= mn,
            mn == macros@.len(),
            svs(r@) == sv(args@) + svs(macros@).subrange(0, j as int),
        decreases mn - j,
    {
        let t = macros[j].clone();
        assert(t@ == macros@[j as int]@);
        proof {
            lemma_svs_push(r@, t);
            assert(svs(macros@)[j as int] == macros@[j as int]@);
            assert(sv(args@) + svs(macros@).subrange(0, j + 1) =~= (sv(args@) + svs(
                macros@,
            ).subrange(0, j as int)).push(svs(macros@)[j as int]));
        }
        r.push(t);
        j = j + 1;
    }
    assert(svs(macros@).subrange(0, mn as int) =~= svs(macros@));
    r
}

fn find_tok_match(p: &Pattern, toks: &Vec<Vec<char>>, i: usize) -> (r: Option<usize>)
    requires
        i <= toks@.len(),
    ensures
        match r {
            Some(x) => first_match_tok(p@, sv(toks@), i as int) == Some(x as int) && i <= x
                < toks@.len(),
            None => first_match_tok(p@, sv(toks@), i as int) is None,
        },
    decreases toks@.len() - i,
{
    if i >= toks.len() {
        None
    } else if pattern_matches(p, &toks[i]) {
        assert(sv(toks@)[i as int] == toks@[i as int]@);
        Some(i)
    } else {
        assert(sv(toks@)[i as int] == toks@[i as int]@);
        find_tok_match(p, toks, i + 1)
    }
}

fn find_eq_tok(toks: &Vec<Vec<char>>, w: &Vec<char>, i: usize) -> (r: Option<usize>)
    requires
        i <= toks@.len(),
    ensures
        match r {
            Some(x) => first_eq_tok(sv(toks@), w@, i as int) == Some(x as int) && i <= x
                < toks@.len(),
            None => first_eq_tok(sv(toks@), w@, i as int) is None,
        },
    decreases toks@.len() - i,
{
    if i >= toks.len() {
        None
    } else if eq_chars(&toks[i], w) {
        assert(sv(toks@)[i as int] == toks@[i as int]@);
        Some(i)
    } else {
        assert(sv(toks@)[i as int] == toks@[i as int]@);
        find_eq_tok(toks, w, i + 1)
    }
}

impl Parser {
    /// Parse one line of build output and yield the records it produces, in
    /// order. The line may update the directory state: a directory banner or
    /// an inline `-C` pushes or pops the stack, and a `cd` sub-command
    /// replaces the working directory and the stack head in place. Back-tick
    /// spans are resolved
    /// through `env`; when a substitution fails (or spans keep appearing past
    /// the round bound) the line yields nothing and the state is unchanged.
    /// The outcome always satisfies [`line_post`]: on a deterministic line,
    /// with the existence check disabled and no full-path resolution, it is
    /// exactly `line_eval`, and under the existence check the records are an
    /// order-preserving selection of the line's surviving candidates. In
    /// every case each returned record is well formed, carries no `output`,
    /// is not excluded, and follows the configured output style.
    pub fn parse_line<E: BuildEnv>(&mut self, line: &str, config: &Config, env: &mut E) -> (r: Vec<
        CompileCommand,
    >)
        ensures
            final(self)@.cpat == old(self)@.cpat,
            final(self)@.fpat == old(self)@.fpat,
            final(self)@.excls == old(self)@.excls,
            forall|i: int|
                0 <= i < r@.len() ==> {
                    &&& record_well_formed(#[trigger] r@[i]@)
                    &&& r@[i]@.output is None
                    &&& !excluded(pcfg(old(self)@, *config), r@[i]@.file)
                    &&& (r@[i]@.command is Some <==> config.command_style)
                },
            line_post(
                old(self)@.st,
                line@,
                pcfg(old(self)@, *config),
                final(self)@.st,
                rviews(r@),
            ),
            state_inv(old(self)@.st) ==> state_inv(final(self)@.st),
    {
        let ghost pm0 = self@;
        let ghost k = pcfg(self@, *config);
        let ghost st0 = self@.st;
        let lc = chars_of_str(line);
        let lt = trim_chars(&lc);
        let ghost lt0 = lt@;
        if lt.len() == 0 {
            let r: Vec<CompileCommand> = Vec::new();
            proof {
                assert(rviews(r@) =~= line_eval(st0, line@, k).1);
            }
            return r;
        }
        if checking_banner_exec(&lt) {
            let r: Vec<CompileCommand> = Vec::new();
            proof {
                assert(rviews(r@) =~= line_eval(st0, line@, k).1);
            }
            return r;
        }
        if self.update_dirs(&lt) {
            let r: Vec<CompileCommand> = Vec::new();
            proof {
                assert(rviews(r@) =~= line_eval(st0, line@, k).1);
                if state_inv(st0) {
                    lemma_dir_step_inv(st0, lt@);
                }
            }
            return r;
        }
        if !pattern_matches(&self.compile_pat, &lt) {
            let r: Vec<CompileCommand> = Vec::new();
            proof {
                assert(rviews(r@) =~= line_eval(st0, line@, k).1);
            }
            return r;
        }
        // Back-tick substitution, capped at SUBST_ROUNDS rounds.
        let mut cur = lt;
        let ghost mut outs: Seq<Option<Seq<char>>> = Seq::empty();
        let mut done = false;
        let mut failed = false;
        let mut round: usize = 0;
        proof {
            assert forall|rest: Seq<Option<Seq<char>>>| #[trigger]
                subst(cur@, rest) == subst(lt0, outs + rest) by {
                assert(outs + rest =~= rest);
            }
        }
        while round < SUBST_ROUNDS && !done && !failed
            invariant
                0 <= round <= SUBST_ROUNDS,
                outs.len() <= round,
                outs.len() == 0 ==> cur@ == lt0,
                no_span(lt0) ==> outs.len() == 0,
                !done && !failed ==> forall|rest: Seq<Option<Seq<char>>>| #[trigger]
                    subst(cur@, rest) == subst(lt0, outs + rest),
                done ==> subst(lt0, outs) == Some(cur@),
                failed ==> subst(lt0, outs) is None,
            decreases SUBST_ROUNDS - round,
        {
            match first_span_exec(&cur, 0) {
                None => {
                    proof {
                        assert(subst(cur@, Seq::<Option<Seq<char>>>::empty()) == Some(cur@));
                        assert(outs + Seq::<Option<Seq<char>>>::empty() =~= outs);
                    }
                    done = true;
                },
                Some((a, b)) => {
                    proof {
                        if no_span(lt0) {
                            assert(outs.len() == 0 && cur@ == lt0);
                            assert(false);
                        }
                    }
                    let content = copy_range(&cur, a + 1, b);
                    let cs = string_of(&content);
                    match env.run_capture(cs.as_str()) {
                        None => {
                            proof {
                                let one = seq![None::<Seq<char>>];
                                assert(one[0] is None);
                                assert(subst(cur@, one) is None);
                                assert(outs + one =~= outs.push(None::<Seq<char>>));
                                outs = outs.push(None::<Seq<char>>);
                            }
                            failed = true;
                        },
                        Some(o) => {
                            let oc = chars_of_str(o.as_str());
                            let ot = trim_chars(&oc);
                            let ghost ov = o@;
                            let newcur = splice(&cur, a, b + 1, &ot);
                            proof {
                                let ghost prevouts = outs;
                                let ghost prevcur = cur@;
                                assert forall|rest: Seq<Option<Seq<char>>>| #[trigger]
                                    subst(newcur@, rest) == subst(
                                        lt0,
                                        prevouts.push(Some(ov)) + rest,
                                    ) by {
                                    let one = seq![Some(ov)];
                                    assert((one + rest)[0] == Some(ov));
                                    assert((one + rest).skip(1) =~= rest);
                                    assert((one + rest).len() > 0);
                                    assert(subst(prevcur, one + rest) == subst(newcur@, rest));
                                    assert(prevouts + (one + rest) =~= prevouts.push(Some(ov))
                                        + rest);
                                }
                                outs = outs.push(Some(ov));
                            }
                            cur = newcur;
                        },
                    }
                },
            }
            round = round + 1;
        }
        if failed {
            let r: Vec<CompileCommand> = Vec::new();
            return r;
        }
        if !done {
            match first_span_exec(&cur, 0) {
                Some(_) => {
                    proof {
                        assert(subst(cur@, Seq::<Option<Seq<char>>>::empty()) is None);
                        assert(outs + Seq::<Option<Seq<char>>>::empty() =~= outs);
                    }
                    let r: Vec<CompileCommand> = Vec::new();
                    return r;
                },
                None => {
                    proof {
                        assert(subst(cur@, Seq::<Option<Seq<char>>>::empty()) == Some(cur@));
                        assert(outs + Seq::<Option<Seq<char>>>::empty() =~= outs);
                    }
                },
            }
        }
        assert(subst(lt0, outs) == Some(cur@));
        // Escape cleanup, splitting, and the per-fragment walk.
        let le = unescape_exec(&cur, 0);
        let raw = split_ops_exec(&le, 0);
        let frags = clean_frags_exec(&raw, 0);
        proof {
            assert(sv(raw@).skip(0) =~= sv(raw@));
            assert(sv(frags@) == line_frags(cur@));
        }
        let ghost fsq = sv(frags@);
        let ghost wd0 = st0.wd;
        let ghost detcfg = config.no_strict && !config.full_path;
        let ghost mut cpre: Seq<SitedCand> = Seq::empty();
        let mut recs: Vec<CompileCommand> = Vec::new();
        let nf = frags.len();
        let mut fi: usize = 0;
        proof {
            assert(fsq.skip(0) =~= fsq);
            assert(rviews(recs@) =~= Seq::<RecordModel>::empty());
            assert(dets(frags_cands(wd0, fsq, k), k).len() == frags_cands(wd0, fsq, k).len());
            assert(cpre + frags_cands(wd0, fsq, k) =~= frags_cands(wd0, fsq, k));
        }
        while fi < nf
            invariant
                0 <= fi <= nf,
                nf == frags@.len(),
                fsq == sv(frags@),
                k == pcfg(pm0, *config),
                detcfg == (config.no_strict && !config.full_path),
                self@.cpat == pm0.cpat,
                self@.fpat == pm0.fpat,
                self@.excls == pm0.excls,
                frags_st(st0, fsq, k) == frags_st(self@.st, fsq.skip(fi as int), k),
                config.no_strict ==> recs@.len() == cpre.len(),
                frags_cands(wd0, fsq, k).len() >= recs@.len() + frags_cands(
                    self@.st.wd,
                    fsq.skip(fi as int),
                    k,
                ).len(),
                detcfg ==> dets(frags_cands(wd0, fsq, k), k) == rviews(recs@) + dets(
                    frags_cands(self@.st.wd, fsq.skip(fi as int), k),
                    k,
                ),
                frags_cands(wd0, fsq, k) == cpre + frags_cands(
                    self@.st.wd,
                    fsq.skip(fi as int),
                    k,
                ),
                selection_of(rviews(recs@), cpre, k),
                forall|i: int|
                    0 <= i < recs@.len() ==> {
                        &&& record_well_formed(#[trigger] recs@[i]@)
                        &&& recs@[i]@.output is None
                        &&& !excluded(k, recs@[i]@.file)
                        &&& (recs@[i]@.command is Some <==> config.command_style)
                    },
            decreases nf - fi,
        {
            let ghost tail = fsq.skip(fi as int);
            let ghost stp = self@.st;
            let ghost wdc = self@.st.wd;
            proof {
                assert(tail[0] == frags@[fi as int]@);
                assert(tail.skip(1) =~= fsq.skip(fi + 1));
            }
            if let Some(d) = cd_capture_exec(&frags[fi]) {
                let nwd = if is_abs_exec(&d) {
                    d
                } else {
                    path_join_exec(&self.working_dir, &d)
                };
                if self.dir_stack.len() > 0 {
                    let hd = copy_range(&nwd, 0, nwd.len());
                    assert(hd@ =~= nwd@);
                    replace_at(&mut self.dir_stack, 0, hd);
                }
                self.working_dir = nwd;
                proof {
                    assert(self@.st == st_after_frag(stp, tail[0], k));
                    assert(self@.st.wd == wd_after_frag(wdc, tail[0], k));
                    assert(frag_rec(wdc, tail[0], k) is None);
                }
            } else if pattern_matches(&self.compile_pat, &frags[fi]) {
                proof {
                    assert(self@.st == st_after_frag(stp, tail[0], k));
                    assert(self@.st.wd == wd_after_frag(wdc, tail[0], k));
                }
                match self.process_compile_command(&frags[fi], config, env) {
                    Some(rec) => {
                        proof {
                            let cdx = cand_of(tail[0], wdc, k)->Some_0;
                            assert(frag_rec(wdc, tail[0], k) == Some(cdx));
                            lemma_rviews_push(recs@, rec);
                            let sc = SitedCand { wd: wdc, c: cdx };
                            let rest = frags_cands(
                                wd_after_frag(wdc, tail[0], k),
                                tail.skip(1),
                                k,
                            );
                            lemma_dets_cons(sc, rest, k);
                            let w = choose|w: Option<Seq<char>>|
                                rec@ == rec_of(cdx, wdc, k, w) && (w is None || k.full_path);
                            assert(rec@ == rec_of(sc.c, sc.wd, k, w) && (w is None
                                || k.full_path));
                            assert(rec_matches(rec@, sc, k));
                            lemma_selection_push_match(rviews(recs@), cpre, rec@, sc, k);
                            assert(cpre + (seq![sc] + rest) =~= cpre.push(sc) + rest);
                            cpre = cpre.push(sc);
                        }
                        recs.push(rec);
                    },
                    None => {
                        proof {
                            if config.no_strict {
                                assert(frag_rec(wdc, tail[0], k) is None);
                            }
                            match frag_rec(wdc, tail[0], k) {
                                Some(cdx) => {
                                    let sc = SitedCand { wd: wdc, c: cdx };
                                    let rest = frags_cands(
                                        wd_after_frag(wdc, tail[0], k),
                                        tail.skip(1),
                                        k,
                                    );
                                    lemma_dets_cons(sc, rest, k);
                                    lemma_selection_push_skip(rviews(recs@), cpre, sc, k);
                                    assert(cpre + (seq![sc] + rest) =~= cpre.push(sc) + rest);
                                    cpre = cpre.push(sc);
                                },
                                None => {},
                            }
                        }
                    },
                }
            } else {
                proof {
                    assert(self@.st == st_after_frag(stp, tail[0], k));
                    assert(self@.st.wd == wd_after_frag(wdc, tail[0], k));
                    assert(frag_rec(wdc, tail[0], k) is None);
                }
            }
            fi = fi + 1;
        }
        proof {
            assert(fsq.skip(nf as int) =~= Seq::<Seq<char>>::empty());
            assert(frags_cands(self@.st.wd, fsq.skip(nf as int), k) =~= Seq::<SitedCand>::empty());
            assert(dets(Seq::<SitedCand>::empty(), k) =~= Seq::<RecordModel>::empty());
            assert(cpre + Seq::<SitedCand>::empty() =~= cpre);
            assert(selection_of(rviews(recs@), frags_cands(wd0, fsq, k), k));
            assert(frags_st(self@.st, fsq.skip(nf as int), k) == self@.st);
            assert(self@.st == frags_st(st0, fsq, k));
            if state_inv(st0) {
                lemma_frags_st_inv(st0, fsq, k);
            }
            if detcfg {
                assert(rviews(recs@) + Seq::<RecordModel>::empty() =~= rviews(recs@));
            }
            if !line_quiet(line@, k) && no_span(lt0) {
                assert(outs.len() == 0);
                assert(outs =~= Seq::<Option<Seq<char>>>::empty());
                assert(cur@ == lt0);
            }
        }
        recs
    }

    /// Fold `parse_line` over an ordered sequence of lines, preserving input
    /// order in the output order. The outcome always satisfies
    /// [`stream_post`]: some sequence of intermediate states and per-line
    /// record blocks ties every line to [`line_post`], with the output their
    /// in-order concatenation. On deterministic input, with the existence
    /// check disabled and no full-path resolution, the outcome is exactly
    /// `stream_eval` of the lines, so two runs over the same lines from equal
    /// states agree.
    pub fn parse_lines<E: BuildEnv>(
        &mut self,
        lines: &Vec<String>,
        config: &Config,
        env: &mut E,
    ) -> (r: Vec<CompileCommand>)
        ensures
            final(self)@.cpat == old(self)@.cpat,
            final(self)@.fpat == old(self)@.fpat,
            final(self)@.excls == old(self)@.excls,
            forall|i: int|
                0 <= i < r@.len() ==> {
                    &&& record_well_formed(#[trigger] r@[i]@)
                    &&& r@[i]@.output is None
                    &&& !excluded(pcfg(old(self)@, *config), r@[i]@.file)
                    &&& (r@[i]@.command is Some <==> config.command_style)
                },
            stream_post(
                old(self)@.st,
                svs(lines@),
                pcfg(old(self)@, *config),
                final(self)@.st,
                rviews(r@),
            ),
            state_inv(old(self)@.st) ==> state_inv(final(self)@.st),
            (config.no_strict && !config.full_path && (forall|i: int|
                0 <= i < lines@.len() ==> line_det(
                    #[trigger] lines@[i]@,
                    pcfg(old(self)@, *config),
                ))) ==> final(self)@.st == stream_eval(
                old(self)@.st,
                svs(lines@),
                pcfg(old(self)@, *config),
            ).0 && rviews(r@) == stream_eval(
                old(self)@.st,
                svs(lines@),
                pcfg(old(self)@, *config),
            ).1,
    {
        let ghost pm0 = self@;
        let ghost k = pcfg(self@, *config);
        let ghost st0 = self@.st;
        let ghost lsq = svs(lines@);
        let ghost detall = config.no_strict && !config.full_path && (forall|i: int|
            0 <= i < lines@.len() ==> line_det(#[trigger] lines@[i]@, pcfg(pm0, *config)));
        let ghost mut sts: Seq<StateModel> = seq![st0];
        let ghost mut blocks: Seq<Seq<RecordModel>> = Seq::empty();
        let mut recs: Vec<CompileCommand> = Vec::new();
        let nl = lines.len();
        let mut li: usize = 0;
        proof {
            assert(lsq.skip(0) =~= lsq);
            assert(rviews(recs@) =~= Seq::<RecordModel>::empty());
            assert(cat(blocks) =~= Seq::<RecordModel>::empty());
        }
        while li < nl
            invariant
                0 <= li <= nl,
                nl == lines@.len(),
                lsq == svs(lines@),
                k == pcfg(pm0, *config),
                detall == (config.no_strict && !config.full_path && (forall|i: int|
                    0 <= i < lines@.len() ==> line_det(#[trigger] lines@[i]@, k))),
                self@.cpat == pm0.cpat,
                self@.fpat == pm0.fpat,
                self@.excls == pm0.excls,
                detall ==> stream_eval(st0, lsq, k).0 == stream_eval(
                    self@.st,
                    lsq.skip(li as int),
                    k,
                ).0,
                detall ==> stream_eval(st0, lsq, k).1 == rviews(recs@) + stream_eval(
                    self@.st,
                    lsq.skip(li as int),
                    k,
                ).1,
                sts.len() == li + 1,
                blocks.len() == li,
                sts[0] == st0,
                sts[li as int] == self@.st,
                state_inv(st0) ==> state_inv(self@.st),
                rviews(recs@) == cat(blocks),
                forall|i: int|
                    0 <= i < li ==> line_post(sts[i], #[trigger] lsq[i], k, sts[i + 1], blocks[i]),
                forall|i: int|
                    0 <= i < recs@.len() ==> {
                        &&& record_well_formed(#[trigger] recs@[i]@)
                        &&& recs@[i]@.output is None
                        &&& !excluded(k, recs@[i]@.file)
                        &&& (recs@[i]@.command is Some <==> config.command_style)
                    },
            decreases nl - li,
        {
            let ghost tail = lsq.skip(li as int);
            let ghost stc = self@.st;
            proof {
                assert(tail[0] == lines@[li as int]@);
                assert(tail.skip(1) =~= lsq.skip(li + 1));
            }
            let mut out = self.parse_line(lines[li].as_str(), config, env);
            let ghost outv = out@;
            let ghost stn = self@.st;
            proof {
                let ghost prev = recs@;
                assert(line_post(stc, tail[0], k, stn, rviews(outv)));
                if detall {
                    assert(line_det(lines@[li as int]@, k));
                    assert(rviews(out@) == line_eval(stc, tail[0], k).1);
                    assert(self@.st == line_eval(stc, tail[0], k).0);
                }
                lemma_rviews_concat(prev, out@);
            }
            let ghost prevrecs = recs@;
            recs.append(&mut out);
            proof {
                assert(recs@ == prevrecs + outv);
                lemma_rviews_concat(prevrecs, outv);
                if detall {
                    assert((rviews(prevrecs) + rviews(outv)) + stream_eval(
                        self@.st,
                        lsq.skip(li + 1),
                        k,
                    ).1 =~= rviews(prevrecs) + (rviews(outv) + stream_eval(
                        self@.st,
                        lsq.skip(li + 1),
                        k,
                    ).1));
                }
                assert forall|i: int| 0 <= i < recs@.len() implies {
                    &&& record_well_formed(#[trigger] recs@[i]@)
                    &&& recs@[i]@.output is None
                    &&& !excluded(k, recs@[i]@.file)
                    &&& (recs@[i]@.command is Some <==> config.command_style)
                } by {
                    if i < prevrecs.len() {
                        assert(recs@[i] == prevrecs[i]);
                    } else {
                        assert(recs@[i] == outv[i - prevrecs.len()]);
                        assert(rviews(outv)[i - prevrecs.len()] == outv[i - prevrecs.len()]@);
                    }
                }
                let ghost prevsts = sts;
                let ghost prevblocks = blocks;
                sts = sts.push(stn);
                blocks = blocks.push(rviews(outv));
                lemma_cat_push(prevblocks, rviews(outv));
                assert(rviews(recs@) == cat(blocks));
                assert forall|i: int|
                    0 <= i < li + 1 implies line_post(
                    sts[i],
                    #[trigger] lsq[i],
                    k,
                    sts[i + 1],
                    blocks[i],
                ) by {
                    if i < li {
                        assert(sts[i] == prevsts[i] && sts[i + 1] == prevsts[i + 1] && blocks[i]
                            == prevblocks[i]);
                    } else {
                        assert(sts[i] == prevsts[i as int] && prevsts[i as int] == stc);
                        assert(sts[i + 1] == stn);
                        assert(blocks[i] == rviews(outv));
                    }
                }
            }
            li = li + 1;
        }
        proof {
            assert(lsq.skip(nl as int) =~= Seq::<Seq<char>>::empty());
            if detall {
                assert(rviews(recs@) + Seq::<RecordModel>::empty() =~= rviews(recs@));
            }
            assert(stream_witness(st0, lsq, k, self@.st, rviews(recs@), sts, blocks));
            assert(stream_post(st0, lsq, k, self@.st, rviews(recs@)));
        }
        recs
    }
}

} // verus!

