//! PROCEDURE DIVISION statements: recognizing one statement line.
//!
//! Each recognizer reads a trimmed line and looks for its statement's pattern at the first
//! position where the whole pattern can be read, keywords compared ignoring ASCII case.
use vstd::prelude::*;
use vstd::string::StrSliceExecFns;

use crate::data_division::kw_at;
use crate::text::{
    at_exec, has_char, run, skip_class, str_chars, string_of, sub_vec, trim, trim_bounds, trim_char,
    trim_end_char, upper, words,
    upper_vec, ws_end, CharClass,
};
use crate::types::{
    ArithmeticStatement, DisplayItem, MoveStatement, PerformStatement, PerformTarget, Statement,
    VaryingClause,
};

verus! {

// ---------------------------------------------------------------------------
// Searching for the first position where a pattern can be read
// ---------------------------------------------------------------------------

/// The reading at the first position in `[p, n]` where `f` gives one.
pub open spec fn first_some<T>(n: int, p: int, f: spec_fn(int) -> Option<T>) -> Option<T>
    decreases n + 1 - p,
{
    if p < 0 || p > n {
        None
    } else if f(p) is Some {
        f(p)
    } else {
        first_some(n, p + 1, f)
    }
}

pub open spec fn ws_end_v(t: Seq<char>, x: int) -> int {
    ws_end(t, x)
}

fn ws_end_exec(t: &Vec<char>, x: usize) -> (r: usize)
    requires
        x <= t@.len(),
    ensures
        r == ws_end(t@, x as int),
        x <= r <= t@.len(),
{
    skip_class(t, x, CharClass::Space)
}

/// Where `kw` ends when it occurs at `x` in `up`.
fn kw_after(up: &Vec<char>, x: usize, kw: &str) -> (r: Option<usize>)
    ensures
        r is Some <==> crate::text::matches_at(up@, kw@, x as int),
        r matches Some(y) ==> y == x + kw@.len() && y <= up@.len(),
{
    let _n = up.len();
    if at_exec(up, x, kw) {
        Some(x + kw.unicode_len())
    } else {
        None
    }
}

// ---------------------------------------------------------------------------
// ADD / SUBTRACT / MULTIPLY
// ---------------------------------------------------------------------------

/// `VERB operand PREP target` read at `p`: the bounds of operand and target.
pub open spec fn arith_at(t: Seq<char>, p: int, verb: Seq<char>, prep: Seq<char>) -> Option<(int, int, int, int)> {
    let q = ws_end(t, p + verb.len());
    let b = q + run(t, q, CharClass::Name);
    let c = ws_end(t, b);
    let d = ws_end(t, c + prep.len());
    let e = d + run(t, d, CharClass::Name);
    if kw_at(t, p, verb) && q > p + verb.len() && b > q && c > b && kw_at(t, c, prep) && d > c
        + prep.len() && e > d {
        Some((q, b, d, e))
    } else {
        None
    }
}

pub open spec fn arith_f(t: Seq<char>, verb: Seq<char>, prep: Seq<char>) -> spec_fn(int) -> Option<(int, int, int, int)> {
    |p: int| arith_at(t, p, verb, prep)
}

/// The statement that `ADD a TO b` (and its kin) is read into.
pub open spec fn arith_parts(t: Seq<char>, verb: Seq<char>, prep: Seq<char>) -> Option<(Seq<char>, Seq<char>)> {
    match first_some(t.len() as int, 0, arith_f(t, verb, prep)) {
        Some((q, b, d, e)) => Some((t.subrange(q, b), t.subrange(d, e))),
        None => None,
    }
}

fn arith_at_exec(t: &Vec<char>, up: &Vec<char>, p: usize, verb: &str, prep: &str) -> (r: Option<(usize, usize, usize, usize)>)
    requires
        up@ == upper(t@),
        p <= t@.len(),
    ensures
        match r {
            Some((q, b, d, e)) => arith_at(t@, p as int, verb@, prep@) == Some(
                (q as int, b as int, d as int, e as int),
            ) && q <= b <= d <= e <= t@.len(),
            None => arith_at(t@, p as int, verb@, prep@) is None,
        },
{
    let _n = t.len();
    let pv = match kw_after(up, p, verb) {
        Some(y) => y,
        None => return None,
    };
    let q = ws_end_exec(t, pv);
    if !(q > pv) {
        return None;
    }
    let b = skip_class(t, q, CharClass::Name);
    if !(b > q) {
        return None;
    }
    let c = ws_end_exec(t, b);
    if !(c > b) {
        return None;
    }
    let cp = match kw_after(up, c, prep) {
        Some(y) => y,
        None => return None,
    };
    let d = ws_end_exec(t, cp);
    if !(d > cp) {
        return None;
    }
    let e = skip_class(t, d, CharClass::Name);
    if !(e > d) {
        return None;
    }
    Some((q, b, d, e))
}

fn arith_find(t: &Vec<char>, up: &Vec<char>, verb: &str, prep: &str) -> (r: Option<(usize, usize, usize, usize)>)
    requires
        up@ == upper(t@),
    ensures
        match r {
            Some((q, b, d, e)) => first_some(t@.len() as int, 0, arith_f(t@, verb@, prep@)) == Some(
                (q as int, b as int, d as int, e as int),
            ) && q <= b <= d <= e <= t@.len(),
            None => first_some(t@.len() as int, 0, arith_f(t@, verb@, prep@)) is None,
        },
{
    let n = t.len();
    let mut p: usize = 0;
    while p < n
        invariant
            n == t@.len(),
            p <= n,
            up@ == upper(t@),
            first_some(n as int, 0, arith_f(t@, verb@, prep@)) == first_some(
                n as int,
                p as int,
                arith_f(t@, verb@, prep@),
            ),
        decreases n - p,
    {
        if let Some(m) = arith_at_exec(t, up, p, verb, prep) {
            return Some(m);
        }
        p = p + 1;
    }
    proof {
        assert(first_some(n as int, n + 1, arith_f(t@, verb@, prep@)) is None);
    }
    arith_at_exec(t, up, n, verb, prep)
}

/// The three statements of the form `VERB operand PREP target`.
#[derive(Clone, Copy, PartialEq, Eq, Structural)]
pub enum ArithKind {
    Add,
    Subtract,
    Multiply,
}

pub open spec fn arith_words(k: ArithKind) -> (Seq<char>, Seq<char>) {
    match k {
        ArithKind::Add => ("ADD"@, "TO"@),
        ArithKind::Subtract => ("SUBTRACT"@, "FROM"@),
        ArithKind::Multiply => ("MULTIPLY"@, "BY"@),
    }
}

/// Operand and target of a `VERB operand PREP target` line.
pub open spec fn arith_model(line: Seq<char>, k: ArithKind) -> Option<(Seq<char>, Seq<char>)> {
    match arith_parts(trim(line), arith_words(k).0, arith_words(k).1) {
        Some((a, b)) => Some((a, trim_end_char(b, '.'))),
        None => None,
    }
}

/// `s` is the arithmetic statement of kind `k` with operand `a` and target `b`.
pub open spec fn arith_is(s: Statement, k: ArithKind, a: Seq<char>, b: Seq<char>) -> bool {
    match s {
        Statement::Add(x) => k == ArithKind::Add && x.operand@ == a && x.to@ == b && x.giving is None,
        Statement::Subtract(x) => k == ArithKind::Subtract && x.operand@ == a && x.to@ == b
            && x.giving is None,
        Statement::Multiply(x) => k == ArithKind::Multiply && x.operand@ == a && x.to@ == b
            && x.giving is None,
        _ => false,
    }
}

/// `w` is an upper-case keyword: no white space in it and no lower-case letter.
pub open spec fn plain_keyword(w: Seq<char>) -> bool {
    &&& w.len() > 0
    &&& upper(w) == w
    &&& forall|j: int| 0 <= j < w.len() ==> !crate::text::is_ws(#[trigger] w[j])
}

proof fn lemma_keyword_at(t: Seq<char>, x: int, w: Seq<char>)
    requires
        plain_keyword(w),
        0 <= x,
        x + w.len() <= t.len(),
        forall|j: int| 0 <= j < w.len() ==> t[x + j] == #[trigger] w[j],
    ensures
        kw_at(t, x, w),
{
    assert forall|j: int| 0 <= j < w.len() implies upper(t).subrange(x, x + w.len())[j] == w[j] by {
        assert(upper(w)[j] == w[j]);
        assert(upper(w)[j] == crate::text::upper_char(w[j]));
        assert(t[x + j] == w[j]);
    }
    assert(upper(t).subrange(x, x + w.len()) =~= w);
}

/// The reading of `VERB a PREP b` from its parts' positions.
#[verifier::rlimit(30)]
#[verifier::spinoff_prover]
proof fn lemma_arith_at_parts(t: Seq<char>, verb: Seq<char>, prep: Seq<char>, al: int, bl: int)
    requires
        plain_keyword(verb),
        plain_keyword(prep),
        al > 0,
        bl > 0,
        t.len() == verb.len() + 1 + al + 1 + prep.len() + 1 + bl,
        forall|j: int| 0 <= j < verb.len() ==> t[j] == #[trigger] verb[j],
        t[verb.len() as int] == ' ',
        forall|j: int|
            verb.len() + 1 <= j < verb.len() + 1 + al ==> crate::text::is_name_char(#[trigger] t[j]),
        t[verb.len() + 1 + al] == ' ',
        forall|j: int| 0 <= j < prep.len() ==> t[verb.len() + 2 + al + j] == #[trigger] prep[j],
        t[verb.len() + 2 + al + prep.len()] == ' ',
        forall|j: int|
            verb.len() + 3 + al + prep.len() <= j < t.len() ==> crate::text::is_name_char(
                #[trigger] t[j],
            ),
    ensures
        arith_at(t, 0, verb, prep) == Some(
            (
                verb.len() + 1int,
                verb.len() + 1 + al,
                verb.len() + 3 + al + prep.len(),
                t.len() as int,
            ),
        ),
{
    let vl = verb.len() as int;
    let pl = prep.len() as int;
    lemma_keyword_at(t, 0, verb);
    lemma_keyword_at(t, vl + 2 + al, prep);
    assert(crate::text::is_name_char(t[vl + 1]));
    assert(!crate::text::is_ws(t[vl + 2 + al])) by {
        assert(t[vl + 2 + al + 0] == prep[0]);
    }
    assert(crate::text::is_name_char(t[vl + 3 + al + pl]));
    lemma_run_exact(t, vl, CharClass::Space, 1);
    lemma_run_exact(t, vl + 1, CharClass::Name, al);
    lemma_run_exact(t, vl + 1 + al, CharClass::Space, 1);
    lemma_run_exact(t, vl + 2 + al + pl, CharClass::Space, 1);
    lemma_run_exact(t, vl + 3 + al + pl, CharClass::Name, bl);
}

/// An ADD, SUBTRACT or MULTIPLY line written as `VERB operand PREP target` (`ADD a TO b`,
/// `SUBTRACT a FROM b`, `MULTIPLY a BY b`), with an operand and a target of name
/// characters, is read back into that operand and that target.
#[verifier::rlimit(40)]
#[verifier::spinoff_prover]
pub proof fn lemma_arith_round_trip(k: ArithKind, operand: Seq<char>, target: Seq<char>)
    requires
        operand.len() > 0,
        forall|j: int| 0 <= j < operand.len() ==> crate::text::is_name_char(#[trigger] operand[j]),
        target.len() > 0,
        forall|j: int| 0 <= j < target.len() ==> crate::text::is_name_char(#[trigger] target[j]),
    ensures
        arith_model(
            arith_words(k).0 + " "@ + operand + " "@ + arith_words(k).1 + " "@ + target,
            k,
        ) == Some((operand, target)),
{
    reveal_strlit(" ");
    reveal_strlit("ADD");
    reveal_strlit("TO");
    reveal_strlit("SUBTRACT");
    reveal_strlit("FROM");
    reveal_strlit("MULTIPLY");
    reveal_strlit("BY");
    let verb = arith_words(k).0;
    let prep = arith_words(k).1;
    assert(upper(verb) =~= verb);
    assert(upper(prep) =~= prep);
    assert(plain_keyword(verb));
    assert(plain_keyword(prep));
    let vl = verb.len() as int;
    let pl = prep.len() as int;
    let al = operand.len() as int;
    let bl = target.len() as int;
    let t = verb + " "@ + operand + " "@ + prep + " "@ + target;
    assert(forall|j: int| 0 <= j < vl ==> t[j] == verb[j]);
    assert(t[vl] == ' ');
    assert forall|j: int| vl + 1 <= j < vl + 1 + al implies crate::text::is_name_char(#[trigger] t[j]) by {
        assert(t[j] == operand[j - vl - 1]);
    }
    assert(t[vl + 1 + al] == ' ');
    assert(forall|j: int| 0 <= j < pl ==> t[vl + 2 + al + j] == prep[j]);
    assert(t[vl + 2 + al + pl] == ' ');
    assert forall|j: int| vl + 3 + al + pl <= j < t.len() implies crate::text::is_name_char(
        #[trigger] t[j],
    ) by {
        assert(t[j] == target[j - (vl + 3 + al + pl)]);
    }
    lemma_arith_at_parts(t, verb, prep, al, bl);
    assert(!crate::text::is_ws(t[0])) by {
        assert(t[0] == verb[0]);
    }
    assert(crate::text::is_name_char(target[bl - 1]));
    assert(t.last() == target[bl - 1]);
    lemma_trim_unchanged(t);
    assert(t.subrange(vl + 1, vl + 1 + al) =~= operand);
    assert(t.subrange(vl + 3 + al + pl, t.len() as int) =~= target);
    assert(target[bl - 1] == target.last());
    lemma_name_trim_chars(target, '.');
}

/// Parse an ADD, SUBTRACT or MULTIPLY statement line.
fn parse_arith_statement(line: &str, k: ArithKind) -> (r: Statement)
    ensures
        match arith_model(line@, k) {
            Some((a, b)) => arith_is(r, k, a, b),
            None => r matches Statement::Unknown(u) && u@ == trim(line@),
        },
{
    let (verb, prep) = match k {
        ArithKind::Add => ("ADD", "TO"),
        ArithKind::Subtract => ("SUBTRACT", "FROM"),
        ArithKind::Multiply => ("MULTIPLY", "BY"),
    };
    let (t, up) = trimmed_chars(line);
    match arith_find(&t, &up, verb, prep) {
        Some((q, b, d, e)) => {
            let e2 = crate::text::skip_char_backward(&t, d, e, '.');
            let st = ArithmeticStatement {
                operand: string_of(&t, q, b),
                to: string_of(&t, d, e2),
                giving: None,
            };
            match k {
                ArithKind::Add => Statement::Add(st),
                ArithKind::Subtract => Statement::Subtract(st),
                ArithKind::Multiply => Statement::Multiply(st),
            }
        },
        None => {
            proof {
                assert(t@.subrange(0, t@.len() as int) =~= t@);
            }
            Statement::Unknown(string_of(&t, 0, t.len()))
        },
    }
}

} // verus!

verus! {

// ---------------------------------------------------------------------------
// Shared pieces
// ---------------------------------------------------------------------------

/// Where a text that runs to the end of the trimmed line `t` from `s` ends: before the
/// line's final period when there is one and the text is not just that period.
pub open spec fn text_end(t: Seq<char>, s: int) -> int {
    let n = t.len() as int;
    if n >= 1 && t[n - 1] == '.' && s <= n - 2 {
        n - 1
    } else {
        n
    }
}

fn text_end_exec(t: &Vec<char>, s: usize) -> (r: usize)
    requires
        s <= t@.len(),
    ensures
        r == text_end(t@, s as int),
        r <= t@.len(),
{
    let n = t.len();
    if n >= 1 && t[n - 1] == '.' && n >= 2 && s <= n - 2 {
        n - 1
    } else {
        n
    }
}

/// The trimmed copy of `line`, and its ASCII upper-case copy.
fn trimmed_chars(line: &str) -> (r: (Vec<char>, Vec<char>))
    ensures
        r.0@ == trim(line@),
        r.1@ == upper(trim(line@)),
{
    let v = str_chars(line);
    let (ta, tb) = trim_bounds(&v, 0, v.len());
    let t = sub_vec(&v, ta, tb);
    proof {
        assert(v@.subrange(0, v@.len() as int) =~= v@);
    }
    let up = upper_vec(&t);
    (t, up)
}

// ---------------------------------------------------------------------------
// COMPUTE
// ---------------------------------------------------------------------------

/// `COMPUTE target [ROUNDED] = expression` read at `p`: target bounds, whether ROUNDED is
/// there, and the bounds of the expression.
pub open spec fn compute_at(t: Seq<char>, p: int) -> Option<(int, int, bool, int, int)> {
    let q = ws_end(t, p + 7);
    let b = q + run(t, q, CharClass::Name);
    let b1 = ws_end(t, b);
    let rounded = b1 > b && kw_at(t, b1, "ROUNDED"@);
    let after = if rounded {
        b1 + 7
    } else {
        b
    };
    let e1 = ws_end(t, after);
    let e2 = ws_end(t, e1 + 1);
    if kw_at(t, p, "COMPUTE"@) && q > p + 7 && b > q && e1 < t.len() && t[e1] == '=' && e2
        < t.len() && !t.subrange(e2, text_end(t, e2)).contains('\n') {
        Some((q, b, rounded, e2, text_end(t, e2)))
    } else {
        None
    }
}

pub open spec fn compute_f(t: Seq<char>) -> spec_fn(int) -> Option<(int, int, bool, int, int)> {
    |p: int| compute_at(t, p)
}

/// Target, expression and ROUNDED flag of a COMPUTE statement line.
pub open spec fn compute_parts(line: Seq<char>) -> Option<(Seq<char>, Seq<char>, bool)> {
    let t = trim(line);
    match first_some(t.len() as int, 0, compute_f(t)) {
        Some((q, b, rounded, s, e)) => Some((t.subrange(q, b), trim(t.subrange(s, e)), rounded)),
        None => None,
    }
}

fn compute_at_exec(t: &Vec<char>, up: &Vec<char>, p: usize) -> (r: Option<(usize, usize, bool, usize, usize)>)
    requires
        up@ == upper(t@),
        p <= t@.len(),
    ensures
        match r {
            Some((q, b, rd, s, e)) => compute_at(t@, p as int) == Some(
                (q as int, b as int, rd, s as int, e as int),
            ) && q <= b <= t@.len() && s <= e <= t@.len(),
            None => compute_at(t@, p as int) is None,
        },
{
    let n = t.len();
    let pv = match kw_after(up, p, "COMPUTE") {
        Some(y) => y,
        None => return None,
    };
    proof {
        reveal_strlit("COMPUTE");
    }
    let q = ws_end_exec(t, pv);
    let b = skip_class(t, q, CharClass::Name);
    if !(q > pv && b > q) {
        return None;
    }
    let b1 = ws_end_exec(t, b);
    let mut after = b;
    let mut rounded = false;
    if b1 > b {
        if let Some(y) = kw_after(up, b1, "ROUNDED") {
            proof {
                reveal_strlit("ROUNDED");
            }
            after = y;
            rounded = true;
        }
    }
    let e1 = ws_end_exec(t, after);
    if !(e1 < n && t[e1] == '=') {
        return None;
    }
    let e2 = ws_end_exec(t, e1 + 1);
    if !(e2 < n) {
        return None;
    }
    let m = text_end_exec(t, e2);
    if has_char(t, e2, m, '\n') {
        return None;
    }
    Some((q, b, rounded, e2, m))
}

fn compute_find(t: &Vec<char>, up: &Vec<char>) -> (r: Option<(usize, usize, bool, usize, usize)>)
    requires
        up@ == upper(t@),
    ensures
        match r {
            Some((q, b, rd, s, e)) => first_some(t@.len() as int, 0, compute_f(t@)) == Some(
                (q as int, b as int, rd, s as int, e as int),
            ) && q <= b <= t@.len() && s <= e <= t@.len(),
            None => first_some(t@.len() as int, 0, compute_f(t@)) is None,
        },
{
    let n = t.len();
    let mut p: usize = 0;
    while p < n
        invariant
            n == t@.len(),
            p <= n,
            up@ == upper(t@),
            first_some(n as int, 0, compute_f(t@)) == first_some(n as int, p as int, compute_f(t@)),
        decreases n - p,
    {
        if let Some(m) = compute_at_exec(t, up, p) {
            return Some(m);
        }
        p = p + 1;
    }
    proof {
        assert(first_some(n as int, n + 1, compute_f(t@)) is None);
    }
    compute_at_exec(t, up, n)
}

/// The run of class `k` from `i` is exactly `n` long.
proof fn lemma_run_exact(s: Seq<char>, i: int, k: CharClass, n: int)
    requires
        0 <= i,
        0 <= n,
        i + n <= s.len(),
        forall|j: int| i <= j < i + n ==> crate::text::in_class(#[trigger] s[j], k),
        i + n == s.len() || !crate::text::in_class(s[i + n], k),
    ensures
        run(s, i, k) == n,
    decreases n,
{
    if n > 0 {
        lemma_run_exact(s, i + 1, k, n - 1);
    }
}

/// Text with no white space at either end is its own trim.
proof fn lemma_trim_unchanged(s: Seq<char>)
    requires
        s.len() > 0,
        !crate::text::is_ws(s[0]),
        !crate::text::is_ws(s.last()),
    ensures
        trim(s) == s,
{
    crate::text::lemma_lead_ws(s, 0);
    assert(s.skip(0) =~= s);
    crate::text::lemma_trail_ws(s, 0);
    assert(s.take(s.len() as int) =~= s);
}

/// The reading of a COMPUTE line from the positions of its parts: the keyword, one space,
/// a target of `tl` name characters, one space, `ROUNDED` and one space when `rounded`,
/// `=`, one space, then the expression up to the end.
#[verifier::spinoff_prover]
proof fn lemma_compute_at_parts(t: Seq<char>, tl: int, rounded: bool)
    requires
        tl > 0,
        kw_at(t, 0, "COMPUTE"@),
        t[7] == ' ',
        forall|j: int| 8 <= j < 8 + tl ==> crate::text::is_name_char(#[trigger] t[j]),
        t[8 + tl] == ' ',
        rounded ==> kw_at(t, 9 + tl, "ROUNDED"@) && t[16 + tl] == ' ' && t[17 + tl] == '='
            && t[18 + tl] == ' ',
        !rounded ==> t[9 + tl] == '=' && t[10 + tl] == ' ',
        (if rounded {
            19 + tl
        } else {
            11 + tl
        }) < t.len(),
        !crate::text::is_ws(
            t[if rounded {
                19 + tl
            } else {
                11 + tl
            }],
        ),
        t.last() != '.',
        !t.subrange(
            if rounded {
                19 + tl
            } else {
                11 + tl
            },
            t.len() as int,
        ).contains('\n'),
    ensures
        compute_at(t, 0) == Some(
            (
                8int,
                8 + tl,
                rounded,
                if rounded {
                    19 + tl
                } else {
                    11 + tl
                },
                t.len() as int,
            ),
        ),
{
    reveal_strlit("ROUNDED");
    let n = t.len() as int;
    assert(crate::text::is_name_char(t[8]));
    lemma_run_exact(t, 7, CharClass::Space, 1);
    assert(!crate::text::in_class(t[8 + tl], CharClass::Name));
    lemma_run_exact(t, 8, CharClass::Space, 0);
    lemma_run_exact(t, 8, CharClass::Name, tl);
    if rounded {
        assert(upper(t).subrange(9 + tl, 16 + tl)[0] == upper(t)[9 + tl]);
        assert(upper(t)[9 + tl] == crate::text::upper_char(t[9 + tl]));
        assert(t[9 + tl] == 'R' || t[9 + tl] == 'r');
        lemma_run_exact(t, 8 + tl, CharClass::Space, 1);
        lemma_run_exact(t, 9 + tl, CharClass::Space, 0);
        lemma_run_exact(t, 16 + tl, CharClass::Space, 1);
        lemma_run_exact(t, 18 + tl, CharClass::Space, 1);
    } else {
        lemma_run_exact(t, 8 + tl, CharClass::Space, 1);
        lemma_run_exact(t, 9 + tl, CharClass::Space, 0);
        assert(upper(t)[9 + tl] == '=');
        if kw_at(t, 9 + tl, "ROUNDED"@) {
            assert(upper(t).subrange(9 + tl, 16 + tl)[0] == upper(t)[9 + tl]);
            assert("ROUNDED"@[0] == 'R');
        }
        lemma_run_exact(t, 10 + tl, CharClass::Space, 1);
    }
}

/// A COMPUTE line written as `COMPUTE target = expression`, or with `ROUNDED` after the
/// target, is read back into that target, that expression and that ROUNDED flag, for a
/// target made of name characters and an expression without line feeds, surrounding
/// white space or a final period.
#[verifier::rlimit(40)]
#[verifier::spinoff_prover]
pub proof fn lemma_compute_round_trip(target: Seq<char>, expr: Seq<char>, rounded: bool)
    requires
        target.len() > 0,
        forall|j: int| 0 <= j < target.len() ==> crate::text::is_name_char(#[trigger] target[j]),
        expr.len() > 0,
        !crate::text::is_ws(expr[0]),
        !crate::text::is_ws(expr.last()),
        expr.last() != '.',
        !expr.contains('\n'),
    ensures
        compute_parts(
            "COMPUTE "@ + target + (if rounded {
                " ROUNDED = "@
            } else {
                " = "@
            }) + expr,
        ) == Some((target, expr, rounded)),
{
    reveal_strlit("COMPUTE ");
    reveal_strlit("COMPUTE");
    reveal_strlit("ROUNDED");
    reveal_strlit(" ROUNDED = ");
    reveal_strlit(" = ");
    let mid: Seq<char> = if rounded {
        " ROUNDED = "@
    } else {
        " = "@
    };
    let head = "COMPUTE "@ + target + mid;
    let t = head + expr;
    let tl = target.len() as int;
    let hl = head.len() as int;
    let n = t.len() as int;
    assert(hl == 8 + tl + mid.len());
    assert(forall|j: int| 0 <= j < hl ==> t[j] == head[j]);
    assert(forall|j: int| 0 <= j < expr.len() ==> t[hl + j] == expr[j]);
    assert(t.last() == expr.last());
    assert(t[0] == 'C');
    lemma_trim_unchanged(t);
    assert(upper(t).subrange(0, 7) =~= "COMPUTE"@) by {
        assert(forall|j: int| 0 <= j < 7 ==> t[j] == "COMPUTE"@[j]);
    }
    assert(t[7] == ' ');
    assert forall|j: int| 8 <= j < 8 + tl implies crate::text::is_name_char(#[trigger] t[j]) by {
        assert(head[j] == target[j - 8]);
    }
    assert(head[8 + tl] == mid[0]);
    if rounded {
        assert(forall|j: int| 0 <= j < 11 ==> head[8 + tl + j] == mid[j]);
        assert(upper(t).subrange(9 + tl, 16 + tl) =~= "ROUNDED"@) by {
            assert(forall|j: int| 0 <= j < 7 ==> t[9 + tl + j] == "ROUNDED"@[j]);
        }
    } else {
        assert(forall|j: int| 0 <= j < 3 ==> head[8 + tl + j] == mid[j]);
    }
    assert(!t.subrange(hl, n).contains('\n')) by {
        assert(t.subrange(hl, n) =~= expr);
    }
    lemma_compute_at_parts(t, tl, rounded);
    assert(text_end(t, hl) == n);
    assert(t.subrange(8, 8 + tl) =~= target);
    assert(t.subrange(hl, n) =~= expr);
    lemma_trim_unchanged(expr);
}

/// Parse a `COMPUTE target [ROUNDED] = expression` statement line.
pub fn parse_compute_statement(line: &str) -> (r: Statement)
    ensures
        match compute_parts(line@) {
            Some((target, expr, rounded)) => r matches Statement::Compute(c) && c.target@ == target
                && c.expression@ == expr && c.rounded == rounded,
            None => r matches Statement::Unknown(u) && u@ == trim(line@),
        },
{
    let (t, up) = trimmed_chars(line);
    let n = t.len();
    let found = compute_find(&t, &up);
    match found {
        Some((q, b, rounded, s, e)) => {
            let target = string_of(&t, q, b);
            let (ea, eb) = trim_bounds(&t, s, e);
            let expression = string_of(&t, ea, eb);
            Statement::Compute(crate::types::ComputeStatement { target, expression, rounded })
        },
        None => {
            proof {
                assert(t@.subrange(0, n as int) =~= t@);
            }
            Statement::Unknown(string_of(&t, 0, n))
        },
    }
}

} // verus!

verus! {

// ---------------------------------------------------------------------------
// MOVE
// ---------------------------------------------------------------------------

/// Where the text after a ` TO ` separator at `k` starts.
pub open spec fn sep_text(t: Seq<char>, k: int) -> int {
    ws_end(t, ws_end(t, k) + 2)
}

/// A ` TO ` separator starts at `k`: white space, `TO`, white space, then more text.
pub open spec fn to_sep(t: Seq<char>, k: int) -> bool {
    let c = ws_end(t, k);
    c > k && kw_at(t, c, "TO"@) && sep_text(t, k) > c + 2 && sep_text(t, k) < t.len()
}

/// The first separator at or after `k`.
pub open spec fn first_sep(t: Seq<char>, k: int) -> Option<int>
    decreases t.len() + 1 - k,
{
    if k < 0 || k > t.len() {
        None
    } else if to_sep(t, k) {
        Some(k)
    } else {
        first_sep(t, k + 1)
    }
}

/// `MOVE source TO targets` read at `p`: the bounds of the source and of the targets'
/// text. The source is the shortest text after `MOVE` and its white space that a
/// separator follows; when there is none, a single white-space character before a
/// separator that directly follows `MOVE` and its white space.
pub open spec fn move_at(t: Seq<char>, p: int) -> Option<(int, int, int, int)> {
    let r = p + 4;
    let q = ws_end(t, r);
    if kw_at(t, p, "MOVE"@) && q > r {
        match first_sep(t, q + 1) {
            Some(k) => Some((q, k, sep_text(t, k), text_end(t, sep_text(t, k)))),
            None => if q - 2 >= r + 1 && to_sep(t, q - 1) {
                Some((q - 2, q - 1, sep_text(t, q - 1), text_end(t, sep_text(t, q - 1))))
            } else {
                None
            },
        }
    } else {
        None
    }
}

pub open spec fn move_f(t: Seq<char>) -> spec_fn(int) -> Option<(int, int, int, int)> {
    |p: int| move_at(t, p)
}

/// Source and targets of a MOVE statement line.
pub open spec fn move_parts(line: Seq<char>) -> Option<(Seq<char>, Seq<Seq<char>>)> {
    let t = trim(line);
    match first_some(t.len() as int, 0, move_f(t)) {
        Some((fs, fe, ts, te)) => Some(
            (
                trim_char(trim(t.subrange(fs, fe)), '"'),
                words(t.subrange(ts, te)).map_values(|w: Seq<char>| trim_end_char(w, '.')),
            ),
        ),
        None => None,
    }
}

proof fn lemma_words_one(w: Seq<char>)
    requires
        w.len() > 0,
        forall|j: int| 0 <= j < w.len() ==> !crate::text::is_ws(#[trigger] w[j]),
    ensures
        words(w) == seq![w],
    decreases w.len(),
{
    if w.len() == 1 {
        assert(w.drop_last() =~= Seq::<char>::empty());
        assert(!crate::text::is_ws(w[0]));
        assert(seq![w.last()] =~= w);
        assert(words(Seq::<char>::empty()) =~= Seq::<Seq<char>>::empty());
        assert(words(w.drop_last()) =~= Seq::<Seq<char>>::empty());
        assert(words(w) =~= seq![w]);
    } else {
        lemma_words_one(w.drop_last());
        assert(!crate::text::is_ws(w[w.len() - 2]));
        assert(!crate::text::is_ws(w[w.len() - 1]));
        assert(w.drop_last().push(w.last()) =~= w);
        assert(words(w) =~= seq![w]);
    }
}

/// A name without `c` at either end is its own `trim_char` and `trim_end_char` by `c`.
proof fn lemma_name_trim_chars(w: Seq<char>, c: char)
    requires
        w.len() > 0,
        w[0] != c,
        w.last() != c,
    ensures
        trim_char(w, c) == w,
        trim_end_char(w, c) == w,
{
    crate::text::lemma_lead_char(w, c, 0);
    assert(w.skip(0) =~= w);
    crate::text::lemma_trail_char(w, c, 0);
    assert(w.take(w.len() as int) =~= w);
}

/// The reading of a MOVE line from the positions of its parts: the keyword, one space, a
/// source of `sl` name characters, one space, `TO`, one space, then the target text up to
/// the end.
#[verifier::rlimit(30)]
#[verifier::spinoff_prover]
proof fn lemma_move_at_parts(t: Seq<char>, sl: int)
    requires
        sl > 0,
        kw_at(t, 0, "MOVE"@),
        t[4] == ' ',
        forall|j: int| 5 <= j < 5 + sl ==> crate::text::is_name_char(#[trigger] t[j]),
        t[5 + sl] == ' ',
        kw_at(t, 6 + sl, "TO"@),
        t[8 + sl] == ' ',
        9 + sl < t.len(),
        !crate::text::is_ws(t[9 + sl]),
        t.last() != '.',
    ensures
        move_at(t, 0) == Some((5int, 5 + sl, 9 + sl, t.len() as int)),
{
    reveal_strlit("TO");
    let n = t.len() as int;
    let k = 5 + sl;
    assert(crate::text::is_name_char(t[5]));
    assert(upper(t).subrange(k + 1, k + 3)[0] == upper(t)[k + 1]);
    assert(upper(t)[k + 1] == crate::text::upper_char(t[k + 1]));
    assert(t[k + 1] == 'T' || t[k + 1] == 't');
    lemma_run_exact(t, 4, CharClass::Space, 1);
    lemma_run_exact(t, k, CharClass::Space, 1);
    lemma_run_exact(t, k + 3, CharClass::Space, 1);
    assert(to_sep(t, k));
    assert forall|j: int| 6 <= j < k implies !to_sep(t, j) by {
        lemma_run_exact(t, j, CharClass::Space, 0);
    }
    lemma_first_sep_at(t, 6, k);
}

/// A MOVE line written as `MOVE source TO target`, with a source and a target of name
/// characters, is read back into that source and the one target.
#[verifier::rlimit(40)]
#[verifier::spinoff_prover]
pub proof fn lemma_move_round_trip(source: Seq<char>, target: Seq<char>)
    requires
        source.len() > 0,
        forall|j: int| 0 <= j < source.len() ==> crate::text::is_name_char(#[trigger] source[j]),
        target.len() > 0,
        forall|j: int| 0 <= j < target.len() ==> crate::text::is_name_char(#[trigger] target[j]),
    ensures
        move_parts("MOVE "@ + source + " TO "@ + target) == Some((source, seq![target])),
{
    reveal_strlit("MOVE ");
    reveal_strlit("MOVE");
    reveal_strlit(" TO ");
    reveal_strlit("TO");
    let sl = source.len() as int;
    let gl = target.len() as int;
    let t = "MOVE "@ + source + " TO "@ + target;
    let n = t.len() as int;
    assert(n == 9 + sl + gl);
    assert(forall|j: int| 0 <= j < 5 ==> t[j] == "MOVE "@[j]);
    assert forall|j: int| 5 <= j < 5 + sl implies crate::text::is_name_char(#[trigger] t[j]) by {
        assert(t[j] == source[j - 5]);
    }
    assert(forall|j: int| 0 <= j < 4 ==> t[5 + sl + j] == " TO "@[j]);
    assert(forall|j: int| 0 <= j < gl ==> t[9 + sl + j] == target[j]);
    assert(crate::text::is_name_char(source[0]));
    assert(crate::text::is_name_char(target[0]));
    assert(crate::text::is_name_char(target[gl - 1]));
    assert(t[0] == 'M');
    assert(t.last() == target[gl - 1]);
    lemma_trim_unchanged(t);
    assert(upper(t).subrange(0, 4) =~= "MOVE"@);
    assert(upper(t).subrange(6 + sl, 8 + sl) =~= "TO"@);
    lemma_move_at_parts(t, sl);
    assert(text_end(t, 9 + sl) == n);
    assert(t.subrange(5, 5 + sl) =~= source);
    assert(t.subrange(9 + sl, n) =~= target);
    lemma_trim_unchanged(source);
    assert(source[sl - 1] == source.last());
    lemma_name_trim_chars(source, '"');
    assert forall|j: int| 0 <= j < gl implies !crate::text::is_ws(#[trigger] target[j]) by {
        assert(crate::text::is_name_char(target[j]));
    }
    lemma_words_one(target);
    assert(target[gl - 1] == target.last());
    lemma_name_trim_chars(target, '.');
    assert(seq![target].map_values(|w: Seq<char>| trim_end_char(w, '.')) =~= seq![target]);
}

proof fn lemma_first_sep_at(t: Seq<char>, from: int, k: int)
    requires
        0 <= from <= k <= t.len(),
        to_sep(t, k),
        forall|j: int| from <= j < k ==> !to_sep(t, j),
    ensures
        first_sep(t, from) == Some(k),
    decreases k - from,
{
    if from < k {
        lemma_first_sep_at(t, from + 1, k);
    }
}

fn to_sep_exec(t: &Vec<char>, up: &Vec<char>, k: usize) -> (r: Option<usize>)
    requires
        up@ == upper(t@),
        k <= t@.len(),
    ensures
        r is Some == to_sep(t@, k as int),
        r matches Some(s) ==> s == sep_text(t@, k as int) && k < s < t@.len(),
{
    let n = t.len();
    let c = ws_end_exec(t, k);
    if !(c > k) {
        return None;
    }
    match kw_after(up, c, "TO") {
        Some(y) => {
            proof {
                reveal_strlit("TO");
            }
            let s = ws_end_exec(t, y);
            if s > y && s < n {
                Some(s)
            } else {
                None
            }
        },
        None => None,
    }
}

fn move_at_exec(t: &Vec<char>, up: &Vec<char>, p: usize) -> (r: Option<(usize, usize, usize, usize)>)
    requires
        up@ == upper(t@),
        p <= t@.len(),
    ensures
        match r {
            Some((fs, fe, ts, te)) => move_at(t@, p as int) == Some(
                (fs as int, fe as int, ts as int, te as int),
            ) && fs <= fe <= t@.len() && ts <= te <= t@.len(),
            None => move_at(t@, p as int) is None,
        },
{
    let n = t.len();
    let r0 = match kw_after(up, p, "MOVE") {
        Some(y) => y,
        None => return None,
    };
    proof {
        reveal_strlit("MOVE");
    }
    let q = ws_end_exec(t, r0);
    if !(q > r0) {
        return None;
    }
    let mut k = q;
    while k < n
        invariant
            up@ == upper(t@),
            n == t@.len(),
            q <= k <= n,
            p <= n,
            kw_at(t@, p as int, "MOVE"@),
            r0 == p + 4,
            q == ws_end(t@, r0 as int),
            q > r0,
            first_sep(t@, q + 1) == first_sep(t@, k + 1),
        decreases n - k,
    {
        if let Some(s) = to_sep_exec(t, up, k + 1) {
            proof {
                assert(first_sep(t@, k + 1) == Some(k + 1));
                assert(first_sep(t@, q + 1) == Some(k + 1));
            }
            return Some((q, k + 1, s, text_end_exec(t, s)));
        }
        k = k + 1;
    }
    proof {
        assert(first_sep(t@, k + 1) is None);
    }
    if q - r0 >= 3 {
        if let Some(s) = to_sep_exec(t, up, q - 1) {
            return Some((q - 2, q - 1, s, text_end_exec(t, s)));
        }
    }
    None
}

} // verus!

verus! {

// ---------------------------------------------------------------------------
// PERFORM
// ---------------------------------------------------------------------------

/// A keyword after white space at `x`, then white space and a run of class `k`: the run's
/// bounds.
pub open spec fn kw_run(t: Seq<char>, x: int, kw: Seq<char>, k: CharClass) -> Option<(int, int)> {
    let c = ws_end(t, x);
    let d = ws_end(t, c + kw.len());
    let e = d + run(t, d, k);
    if c > x && kw_at(t, c, kw) && d > c + kw.len() && e > d {
        Some((d, e))
    } else {
        None
    }
}

pub type Span = (int, int);

/// `VARYING v FROM f BY b UNTIL condition` after `x`: the bounds of its four parts.
pub open spec fn varying_rest(t: Seq<char>, x: int) -> Option<(Span, Span, Span, Span)> {
    match kw_run(t, x, "VARYING"@, CharClass::Name) {
        Some(v) => match kw_run(t, v.1, "FROM"@, CharClass::Word) {
            Some(f) => match kw_run(t, f.1, "BY"@, CharClass::Word) {
                Some(b) => {
                    let c5 = ws_end(t, b.1);
                    let d5 = ws_end(t, c5 + 5);
                    if c5 > b.1 && kw_at(t, c5, "UNTIL"@) && d5 > c5 + 5 && d5 < t.len()
                        && !t.subrange(d5, text_end(t, d5)).contains('\n') {
                        Some((v, f, b, (d5, text_end(t, d5))))
                    } else {
                        None
                    }
                },
                None => None,
            },
            None => None,
        },
        None => None,
    }
}

/// `PERFORM name` read at `p`: the bounds of the paragraph name.
pub open spec fn perform_head(t: Seq<char>, p: int) -> Option<Span> {
    let q = ws_end(t, p + 7);
    let b = q + run(t, q, CharClass::Name);
    if kw_at(t, p, "PERFORM"@) && q > p + 7 && b > q {
        Some((q, b))
    } else {
        None
    }
}

/// `PERFORM name [THRU name] VARYING ...` read at `p`.
pub open spec fn varying_at(t: Seq<char>, p: int) -> Option<(Span, Option<Span>, (Span, Span, Span, Span))> {
    match perform_head(t, p) {
        Some(h) => match (match kw_run(t, h.1, "THRU"@, CharClass::Name) {
            Some(th) => match varying_rest(t, th.1) {
                Some(rest) => Some((Some(th), rest)),
                None => None,
            },
            None => None,
        }) {
            Some((th, rest)) => Some((h, th, rest)),
            None => match varying_rest(t, h.1) {
                Some(rest) => Some((h, None, rest)),
                None => None,
            },
        },
        None => None,
    }
}

/// `PERFORM name count TIMES` read at `p`: the name and the count.
pub open spec fn times_at(t: Seq<char>, p: int) -> Option<(Span, Span)> {
    match perform_head(t, p) {
        Some(h) => {
            let c = ws_end(t, h.1);
            let e = c + run(t, c, CharClass::Word);
            let f = ws_end(t, e);
            if c > h.1 && e > c && f > e && kw_at(t, f, "TIMES"@) {
                Some((h, (c, e)))
            } else {
                None
            }
        },
        None => None,
    }
}

/// From `x` the line holds only white space, with at most one period in it.
pub open spec fn simple_tail(t: Seq<char>, x: int) -> bool {
    let y = ws_end(t, x);
    y == t.len() || (y < t.len() && t[y] == '.' && ws_end(t, y + 1) == t.len())
}

/// `PERFORM name [THRU name] [.]` read at `p`.
pub open spec fn simple_at(t: Seq<char>, p: int) -> Option<(Span, Option<Span>)> {
    match perform_head(t, p) {
        Some(h) => match kw_run(t, h.1, "THRU"@, CharClass::Name) {
            Some(th) if simple_tail(t, th.1) => Some((h, Some(th))),
            _ => if simple_tail(t, h.1) {
                Some((h, None))
            } else {
                None
            },
        },
        None => None,
    }
}

pub open spec fn varying_f(t: Seq<char>) -> spec_fn(int) -> Option<(Span, Option<Span>, (Span, Span, Span, Span))> {
    |p: int| varying_at(t, p)
}

pub open spec fn times_f(t: Seq<char>) -> spec_fn(int) -> Option<(Span, Span)> {
    |p: int| times_at(t, p)
}

pub open spec fn simple_f(t: Seq<char>) -> spec_fn(int) -> Option<(Span, Option<Span>)> {
    |p: int| simple_at(t, p)
}

pub open spec fn sub_span(t: Seq<char>, s: Span) -> Seq<char> {
    t.subrange(s.0, s.1)
}

pub open spec fn opt_span(t: Seq<char>, s: Option<Span>) -> Option<Seq<char>> {
    match s {
        Some(x) => Some(t.subrange(x.0, x.1)),
        None => None,
    }
}

/// What a PERFORM line is read into: target, varying clause, until, times and thru.
pub struct PerformModel {
    pub target: Seq<char>,
    pub varying: Option<(Seq<char>, Seq<char>, Seq<char>)>,
    pub until: Option<Seq<char>>,
    pub times: Option<Seq<char>>,
    pub thru: Option<Seq<char>>,
}

pub open spec fn perform_parts(line: Seq<char>) -> Option<PerformModel> {
    let t = trim(line);
    let n = t.len() as int;
    match first_some(n, 0, varying_f(t)) {
        Some((h, th, (v, f, b, u))) => Some(
            PerformModel {
                target: sub_span(t, h),
                varying: Some((sub_span(t, v), sub_span(t, f), sub_span(t, b))),
                until: Some(trim_end_char(sub_span(t, u), '.')),
                times: None,
                thru: opt_span(t, th),
            },
        ),
        None => match first_some(n, 0, times_f(t)) {
            Some((h, c)) => Some(
                PerformModel {
                    target: sub_span(t, h),
                    varying: None,
                    until: None,
                    times: Some(sub_span(t, c)),
                    thru: None,
                },
            ),
            None => match first_some(n, 0, simple_f(t)) {
                Some((h, th)) => Some(
                    PerformModel {
                        target: sub_span(t, h),
                        varying: None,
                        until: None,
                        times: None,
                        thru: opt_span(t, th),
                    },
                ),
                None => None,
            },
        },
    }
}

} // verus!

verus! {

pub open spec fn sp(s: (usize, usize)) -> Span {
    (s.0 as int, s.1 as int)
}

pub open spec fn osp(s: Option<(usize, usize)>) -> Option<Span> {
    match s {
        Some(x) => Some(sp(x)),
        None => None,
    }
}

pub open spec fn span_ok(s: (usize, usize), n: int) -> bool {
    s.0 <= s.1 <= n
}

fn kw_run_exec(t: &Vec<char>, up: &Vec<char>, x: usize, kw: &str, k: CharClass) -> (r: Option<(usize, usize)>)
    requires
        up@ == upper(t@),
        x <= t@.len(),
    ensures
        match r {
            Some(s) => kw_run(t@, x as int, kw@, k) == Some(sp(s)) && x < s.0 < s.1 <= t@.len(),
            None => kw_run(t@, x as int, kw@, k) is None,
        },
{
    let c = ws_end_exec(t, x);
    if !(c > x) {
        return None;
    }
    let ce = match kw_after(up, c, kw) {
        Some(y) => y,
        None => return None,
    };
    let d = ws_end_exec(t, ce);
    if !(d > ce) {
        return None;
    }
    let e = skip_class(t, d, k);
    if !(e > d) {
        return None;
    }
    Some((d, e))
}

fn varying_rest_exec(t: &Vec<char>, up: &Vec<char>, x: usize) -> (r: Option<((usize, usize), (usize, usize), (usize, usize), (usize, usize))>)
    requires
        up@ == upper(t@),
        x <= t@.len(),
    ensures
        match r {
            Some((v, f, b, u)) => varying_rest(t@, x as int) == Some((sp(v), sp(f), sp(b), sp(u)))
                && span_ok(v, t@.len() as int) && span_ok(f, t@.len() as int) && span_ok(b, t@.len() as int)
                && span_ok(u, t@.len() as int),
            None => varying_rest(t@, x as int) is None,
        },
{
    let n = t.len();
    let v = match kw_run_exec(t, up, x, "VARYING", CharClass::Name) {
        Some(s) => s,
        None => return None,
    };
    let f = match kw_run_exec(t, up, v.1, "FROM", CharClass::Word) {
        Some(s) => s,
        None => return None,
    };
    let b = match kw_run_exec(t, up, f.1, "BY", CharClass::Word) {
        Some(s) => s,
        None => return None,
    };
    let c5 = ws_end_exec(t, b.1);
    if !(c5 > b.1) {
        return None;
    }
    let ue = match kw_after(up, c5, "UNTIL") {
        Some(y) => y,
        None => return None,
    };
    proof {
        reveal_strlit("UNTIL");
    }
    let d5 = ws_end_exec(t, ue);
    if !(d5 > ue && d5 < n) {
        return None;
    }
    let m = text_end_exec(t, d5);
    if has_char(t, d5, m, '\n') {
        return None;
    }
    Some((v, f, b, (d5, m)))
}

fn perform_head_exec(t: &Vec<char>, up: &Vec<char>, p: usize) -> (r: Option<(usize, usize)>)
    requires
        up@ == upper(t@),
        p <= t@.len(),
    ensures
        match r {
            Some(h) => perform_head(t@, p as int) == Some(sp(h)) && h.0 < h.1 <= t@.len(),
            None => perform_head(t@, p as int) is None,
        },
{
    let pe = match kw_after(up, p, "PERFORM") {
        Some(y) => y,
        None => return None,
    };
    proof {
        reveal_strlit("PERFORM");
    }
    let q = ws_end_exec(t, pe);
    let b = skip_class(t, q, CharClass::Name);
    if q > pe && b > q {
        Some((q, b))
    } else {
        None
    }
}

fn varying_at_exec(t: &Vec<char>, up: &Vec<char>, p: usize) -> (r: Option<((usize, usize), Option<(usize, usize)>, ((usize, usize), (usize, usize), (usize, usize), (usize, usize)))>)
    requires
        up@ == upper(t@),
        p <= t@.len(),
    ensures
        match r {
            Some((h, th, (v, f, b, u))) => varying_at(t@, p as int) == Some(
                (sp(h), osp(th), (sp(v), sp(f), sp(b), sp(u))),
            ) && span_ok(h, t@.len() as int) && (th matches Some(x) ==> span_ok(x, t@.len() as int))
                && span_ok(v, t@.len() as int) && span_ok(f, t@.len() as int) && span_ok(b, t@.len() as int)
                && span_ok(u, t@.len() as int),
            None => varying_at(t@, p as int) is None,
        },
{
    let h = match perform_head_exec(t, up, p) {
        Some(h) => h,
        None => return None,
    };
    if let Some(th) = kw_run_exec(t, up, h.1, "THRU", CharClass::Name) {
        if let Some(rest) = varying_rest_exec(t, up, th.1) {
            return Some((h, Some(th), rest));
        }
    }
    match varying_rest_exec(t, up, h.1) {
        Some(rest) => Some((h, None, rest)),
        None => None,
    }
}

fn times_at_exec(t: &Vec<char>, up: &Vec<char>, p: usize) -> (r: Option<((usize, usize), (usize, usize))>)
    requires
        up@ == upper(t@),
        p <= t@.len(),
    ensures
        match r {
            Some((h, c)) => times_at(t@, p as int) == Some((sp(h), sp(c))) && span_ok(
                h,
                t@.len() as int,
            ) && span_ok(c, t@.len() as int),
            None => times_at(t@, p as int) is None,
        },
{
    let h = match perform_head_exec(t, up, p) {
        Some(h) => h,
        None => return None,
    };
    let c = ws_end_exec(t, h.1);
    let e = skip_class(t, c, CharClass::Word);
    let f = ws_end_exec(t, e);
    if c > h.1 && e > c && f > e && kw_after(up, f, "TIMES").is_some() {
        Some((h, (c, e)))
    } else {
        None
    }
}

fn simple_tail_exec(t: &Vec<char>, x: usize) -> (r: bool)
    requires
        x <= t@.len(),
    ensures
        r == simple_tail(t@, x as int),
{
    let n = t.len();
    let y = ws_end_exec(t, x);
    y == n || (y < n && t[y] == '.' && ws_end_exec(t, y + 1) == n)
}

fn simple_at_exec(t: &Vec<char>, up: &Vec<char>, p: usize) -> (r: Option<((usize, usize), Option<(usize, usize)>)>)
    requires
        up@ == upper(t@),
        p <= t@.len(),
    ensures
        match r {
            Some((h, th)) => simple_at(t@, p as int) == Some((sp(h), osp(th))) && span_ok(
                h,
                t@.len() as int,
            ) && (th matches Some(x) ==> span_ok(x, t@.len() as int)),
            None => simple_at(t@, p as int) is None,
        },
{
    let h = match perform_head_exec(t, up, p) {
        Some(h) => h,
        None => return None,
    };
    if let Some(th) = kw_run_exec(t, up, h.1, "THRU", CharClass::Name) {
        if simple_tail_exec(t, th.1) {
            return Some((h, Some(th)));
        }
    }
    if simple_tail_exec(t, h.1) {
        Some((h, None))
    } else {
        None
    }
}

} // verus!

verus! {

fn varying_find(t: &Vec<char>, up: &Vec<char>) -> (r: Option<((usize, usize), Option<(usize, usize)>, ((usize, usize), (usize, usize), (usize, usize), (usize, usize)))>)
    requires
        up@ == upper(t@),
    ensures
        match r {
            Some((h, th, (v, f, b, u))) => first_some(t@.len() as int, 0, varying_f(t@)) == Some(
                (sp(h), osp(th), (sp(v), sp(f), sp(b), sp(u))),
            ) && span_ok(h, t@.len() as int) && (th matches Some(x) ==> span_ok(x, t@.len() as int))
                && span_ok(v, t@.len() as int) && span_ok(f, t@.len() as int) && span_ok(b, t@.len() as int)
                && span_ok(u, t@.len() as int),
            None => first_some(t@.len() as int, 0, varying_f(t@)) is None,
        },
{
    let n = t.len();
    let mut p: usize = 0;
    while p < n
        invariant
            n == t@.len(),
            p <= n,
            up@ == upper(t@),
            first_some(n as int, 0, varying_f(t@)) == first_some(n as int, p as int, varying_f(t@)),
        decreases n - p,
    {
        if let Some(m) = varying_at_exec(t, up, p) {
            return Some(m);
        }
        p = p + 1;
    }
    proof {
        assert(first_some(n as int, n + 1, varying_f(t@)) is None);
    }
    varying_at_exec(t, up, n)
}

fn times_find(t: &Vec<char>, up: &Vec<char>) -> (r: Option<((usize, usize), (usize, usize))>)
    requires
        up@ == upper(t@),
    ensures
        match r {
            Some((h, c)) => first_some(t@.len() as int, 0, times_f(t@)) == Some((sp(h), sp(c)))
                && span_ok(h, t@.len() as int) && span_ok(c, t@.len() as int),
            None => first_some(t@.len() as int, 0, times_f(t@)) is None,
        },
{
    let n = t.len();
    let mut p: usize = 0;
    while p < n
        invariant
            n == t@.len(),
            p <= n,
            up@ == upper(t@),
            first_some(n as int, 0, times_f(t@)) == first_some(n as int, p as int, times_f(t@)),
        decreases n - p,
    {
        if let Some(m) = times_at_exec(t, up, p) {
            return Some(m);
        }
        p = p + 1;
    }
    proof {
        assert(first_some(n as int, n + 1, times_f(t@)) is None);
    }
    times_at_exec(t, up, n)
}

fn simple_find(t: &Vec<char>, up: &Vec<char>) -> (r: Option<((usize, usize), Option<(usize, usize)>)>)
    requires
        up@ == upper(t@),
    ensures
        match r {
            Some((h, th)) => first_some(t@.len() as int, 0, simple_f(t@)) == Some((sp(h), osp(th)))
                && span_ok(h, t@.len() as int) && (th matches Some(x) ==> span_ok(x, t@.len() as int)),
            None => first_some(t@.len() as int, 0, simple_f(t@)) is None,
        },
{
    let n = t.len();
    let mut p: usize = 0;
    while p < n
        invariant
            n == t@.len(),
            p <= n,
            up@ == upper(t@),
            first_some(n as int, 0, simple_f(t@)) == first_some(n as int, p as int, simple_f(t@)),
        decreases n - p,
    {
        if let Some(m) = simple_at_exec(t, up, p) {
            return Some(m);
        }
        p = p + 1;
    }
    proof {
        assert(first_some(n as int, n + 1, simple_f(t@)) is None);
    }
    simple_at_exec(t, up, n)
}

fn move_find(t: &Vec<char>, up: &Vec<char>) -> (r: Option<(usize, usize, usize, usize)>)
    requires
        up@ == upper(t@),
    ensures
        match r {
            Some((fs, fe, ts, te)) => first_some(t@.len() as int, 0, move_f(t@)) == Some(
                (fs as int, fe as int, ts as int, te as int),
            ) && fs <= fe <= t@.len() && ts <= te <= t@.len(),
            None => first_some(t@.len() as int, 0, move_f(t@)) is None,
        },
{
    let n = t.len();
    let mut p: usize = 0;
    while p < n
        invariant
            n == t@.len(),
            p <= n,
            up@ == upper(t@),
            first_some(n as int, 0, move_f(t@)) == first_some(n as int, p as int, move_f(t@)),
        decreases n - p,
    {
        if let Some(m) = move_at_exec(t, up, p) {
            return Some(m);
        }
        p = p + 1;
    }
    proof {
        assert(first_some(n as int, n + 1, move_f(t@)) is None);
    }
    move_at_exec(t, up, n)
}

fn opt_string_of(t: &Vec<char>, s: Option<(usize, usize)>) -> (r: Option<String>)
    requires
        s matches Some(x) ==> span_ok(x, t@.len() as int),
    ensures
        crate::exec_sql::opt_str(r) == opt_span(t@, osp(s)),
{
    match s {
        Some((a, b)) => Some(string_of(t, a, b)),
        None => None,
    }
}

/// `s` is the PERFORM statement `m`.
pub open spec fn perform_is(s: PerformStatement, m: PerformModel) -> bool {
    &&& s.target matches PerformTarget::Paragraph(name) && name@ == m.target
    &&& match m.varying {
        Some((v, f, b)) => s.varying matches Some(c) && c.variable@ == v && c.from@ == f && c.by@
            == b,
        None => s.varying is None,
    }
    &&& crate::exec_sql::opt_str(s.until) == m.until
    &&& crate::exec_sql::opt_str(s.times) == m.times
    &&& crate::exec_sql::opt_str(s.thru) == m.thru
}

/// Parse a PERFORM statement line: `VARYING` form, then `TIMES` form, then the plain form.
fn parse_perform_statement(line: &str) -> (r: Statement)
    ensures
        match perform_parts(line@) {
            Some(m) => r matches Statement::Perform(p) && perform_is(p, m),
            None => r matches Statement::Unknown(u) && u@ == trim(line@),
        },
{
    let (t, up) = trimmed_chars(line);
    if let Some((h, th, (v, f, b, u))) = varying_find(&t, &up) {
        let (ua, ub0) = u;
        let ub = crate::text::skip_char_backward(&t, ua, ub0, '.');
        return Statement::Perform(
            PerformStatement {
                target: PerformTarget::Paragraph(string_of(&t, h.0, h.1)),
                varying: Some(
                    VaryingClause {
                        variable: string_of(&t, v.0, v.1),
                        from: string_of(&t, f.0, f.1),
                        by: string_of(&t, b.0, b.1),
                    },
                ),
                until: Some(string_of(&t, ua, ub)),
                times: None,
                thru: opt_string_of(&t, th),
            },
        );
    }
    if let Some((h, c)) = times_find(&t, &up) {
        return Statement::Perform(
            PerformStatement {
                target: PerformTarget::Paragraph(string_of(&t, h.0, h.1)),
                varying: None,
                until: None,
                times: Some(string_of(&t, c.0, c.1)),
                thru: None,
            },
        );
    }
    if let Some((h, th)) = simple_find(&t, &up) {
        return Statement::Perform(
            PerformStatement {
                target: PerformTarget::Paragraph(string_of(&t, h.0, h.1)),
                varying: None,
                until: None,
                times: None,
                thru: opt_string_of(&t, th),
            },
        );
    }
    proof {
        assert(t@.subrange(0, t@.len() as int) =~= t@);
    }
    Statement::Unknown(string_of(&t, 0, t.len()))
}

/// The MOVE statement that `move_parts` describes.
pub open spec fn move_is(s: MoveStatement, from: Seq<char>, to: Seq<Seq<char>>) -> bool {
    s.from@ == from && crate::text::strs(s.to@) == to
}

/// Parse a `MOVE source TO target...` statement line, which holds no line feed.
fn parse_move_statement(line: &str) -> (r: Statement)
    requires
        !line@.contains('\n'),
    ensures
        match move_parts(line@) {
            Some((from, to)) => r matches Statement::Move(m) && move_is(m, from, to),
            None => r matches Statement::Unknown(u) && u@ == trim(line@),
        },
{
    let (t, up) = trimmed_chars(line);
    match move_find(&t, &up) {
        Some((fs, fe, ts, te)) => {
            let (a, b) = trim_bounds(&t, fs, fe);
            let a2 = crate::text::skip_char_forward(&t, a, b, '"');
            let b2 = crate::text::skip_char_backward(&t, a2, b, '"');
            let from = string_of(&t, a2, b2);
            let tv = sub_vec(&t, ts, te);
            let ws = crate::text::word_bounds(&tv);
            let mut to: Vec<String> = Vec::new();
            let ghost wds = words(tv@);
            let mut k: usize = 0;
            while k < ws.len()
                invariant
                    k <= ws@.len(),
                    crate::text::pieces_of(tv@, ws@) == wds,
                    forall|m: int| 0 <= m < ws@.len() ==> (#[trigger] ws@[m]).0 <= ws@[m].1 <= tv@.len(),
                    crate::text::strs(to@) =~= wds.take(k as int).map_values(
                        |w: Seq<char>| trim_end_char(w, '.'),
                    ),
                decreases ws@.len() - k,
            {
                let (wa, wb) = ws[k];
                let we = crate::text::skip_char_backward(&tv, wa, wb, '.');
                let ghost before = crate::text::strs(to@);
                to.push(string_of(&tv, wa, we));
                proof {
                    assert(crate::text::strs(to@) =~= before.push(tv@.subrange(wa as int, we as int)));
                    assert(wds.take(k + 1) =~= wds.take(k as int).push(wds[k as int]));
                }
                k = k + 1;
            }
            proof {
                assert(wds.take(ws@.len() as int) =~= wds);
            }
            Statement::Move(MoveStatement { from, to })
        },
        None => {
            proof {
                assert(t@.subrange(0, t@.len() as int) =~= t@);
            }
            Statement::Unknown(string_of(&t, 0, t.len()))
        },
    }
}

} // verus!

verus! {

// ---------------------------------------------------------------------------
// DISPLAY
// ---------------------------------------------------------------------------

pub enum DispModel {
    Variable(Seq<char>),
    Literal(Seq<char>),
}

pub open spec fn disp_view(d: DisplayItem) -> DispModel {
    match d {
        DisplayItem::Variable(s) => DispModel::Variable(s@),
        DisplayItem::Literal(s) => DispModel::Literal(s@),
    }
}

pub open spec fn disps_view(v: Seq<DisplayItem>) -> Seq<DispModel> {
    v.map_values(|d: DisplayItem| disp_view(d))
}

/// What follows `DISPLAY` (or `display`) on the trimmed line, trimmed and without
/// trailing periods; nothing for any other line.
pub open spec fn display_content(line: Seq<char>) -> Seq<char> {
    let t = trim(line);
    let c = if crate::text::starts_with(t, "DISPLAY"@) || crate::text::starts_with(t, "display"@) {
        t.skip(7)
    } else {
        Seq::empty()
    };
    trim_end_char(trim(c), '.')
}

/// The state of the DISPLAY item scanner: items so far, the pending text, whether inside
/// quotes, and the quote character that opened them.
pub struct DispState {
    pub items: Seq<DispModel>,
    pub cur: Seq<char>,
    pub in_quote: bool,
    pub quote: char,
}

/// One character through the scanner: quotes delimit literals, spaces end variables.
pub open spec fn disp_step(st: DispState, ch: char) -> DispState {
    if st.in_quote {
        if ch == st.quote {
            DispState {
                items: st.items.push(DispModel::Literal(st.cur)),
                cur: Seq::empty(),
                in_quote: false,
                quote: st.quote,
            }
        } else {
            DispState { cur: st.cur.push(ch), ..st }
        }
    } else if ch == '"' || ch == '\'' {
        DispState { in_quote: true, quote: ch, ..st }
    } else if ch == ' ' {
        if st.cur.len() > 0 {
            DispState {
                items: st.items.push(DispModel::Variable(st.cur)),
                cur: Seq::empty(),
                ..st
            }
        } else {
            st
        }
    } else {
        DispState { cur: st.cur.push(ch), ..st }
    }
}

pub open spec fn disp_run(c: Seq<char>) -> DispState
    decreases c.len(),
{
    if c.len() == 0 {
        DispState { items: Seq::empty(), cur: Seq::empty(), in_quote: false, quote: '"' }
    } else {
        disp_step(disp_run(c.drop_last()), c.last())
    }
}

/// The items that the content of a DISPLAY line is read into.
pub open spec fn display_items(c: Seq<char>) -> Seq<DispModel> {
    let st = disp_run(c);
    if st.cur.len() > 0 {
        st.items.push(DispModel::Variable(st.cur))
    } else {
        st.items
    }
}

/// The scanner run over `c` from state `st`.
pub open spec fn disp_from(st: DispState, c: Seq<char>) -> DispState
    decreases c.len(),
{
    if c.len() == 0 {
        st
    } else {
        disp_step(disp_from(st, c.drop_last()), c.last())
    }
}

proof fn lemma_disp_split(a: Seq<char>, b: Seq<char>)
    ensures
        disp_run(a + b) == disp_from(disp_run(a), b),
    decreases b.len(),
{
    if b.len() == 0 {
        assert(a + b =~= a);
    } else {
        lemma_disp_split(a, b.drop_last());
        assert((a + b).drop_last() =~= a + b.drop_last());
        assert((a + b).last() == b.last());
    }
}

proof fn lemma_disp_from_split(st: DispState, a: Seq<char>, b: Seq<char>)
    ensures
        disp_from(st, a + b) == disp_from(disp_from(st, a), b),
    decreases b.len(),
{
    if b.len() == 0 {
        assert(a + b =~= a);
    } else {
        lemma_disp_from_split(st, a, b.drop_last());
        assert((a + b).drop_last() =~= a + b.drop_last());
        assert((a + b).last() == b.last());
    }
}

/// Inside quotes, characters other than the closing quote are collected.
proof fn lemma_disp_quoted(st: DispState, lit: Seq<char>)
    requires
        st.in_quote,
        !lit.contains(st.quote),
    ensures
        disp_from(st, lit) == (DispState { cur: st.cur + lit, ..st }),
    decreases lit.len(),
{
    if lit.len() == 0 {
        assert(st.cur + lit =~= st.cur);
    } else {
        assert(!lit.drop_last().contains(st.quote)) by {
            if lit.drop_last().contains(st.quote) {
                let k = choose|k: int| 0 <= k < lit.drop_last().len() && lit.drop_last()[k] == st.quote;
                assert(lit[k] == st.quote);
            }
        }
        lemma_disp_quoted(st, lit.drop_last());
        assert(lit.last() != st.quote) by {
            assert(lit[lit.len() - 1] == lit.last());
        }
        assert((st.cur + lit.drop_last()).push(lit.last()) =~= st.cur + lit);
    }
}

/// Outside quotes, characters other than quotes and spaces are collected.
proof fn lemma_disp_bare(st: DispState, w: Seq<char>)
    requires
        !st.in_quote,
        forall|j: int| 0 <= j < w.len() ==> #[trigger] w[j] != ' ' && w[j] != '"' && w[j] != '\'',
    ensures
        disp_from(st, w) == (DispState { cur: st.cur + w, ..st }),
    decreases w.len(),
{
    if w.len() == 0 {
        assert(st.cur + w =~= st.cur);
    } else {
        lemma_disp_bare(st, w.drop_last());
        assert(w.last() == w[w.len() - 1]);
        assert((st.cur + w.drop_last()).push(w.last()) =~= st.cur + w);
    }
}

/// `"literal" NAME` on a DISPLAY line gives the literal's text, then the variable: a
/// double-quoted literal holding no double quote, a space, and a name holding no space
/// or quote.
#[verifier::spinoff_prover]
pub proof fn lemma_display_literal_then_variable(lit: Seq<char>, name: Seq<char>)
    requires
        !lit.contains('"'),
        name.len() > 0,
        forall|j: int| 0 <= j < name.len() ==> #[trigger] name[j] != ' ' && name[j] != '"'
            && name[j] != '\'',
    ensures
        display_items(seq!['"'] + lit + seq!['"', ' '] + name) == seq![
            DispModel::Literal(lit),
            DispModel::Variable(name),
        ],
{
    let s0 = disp_run(Seq::<char>::empty());
    assert(s0 == DispState { items: Seq::empty(), cur: Seq::empty(), in_quote: false, quote: '"' });
    let c = seq!['"'] + lit + seq!['"', ' '] + name;
    let open = seq!['"'];
    assert(disp_run(open) == disp_step(disp_run(Seq::<char>::empty()), '"')) by {
        assert(open.drop_last() =~= Seq::<char>::empty());
    }
    let s1 = disp_run(open);
    assert(s1 == DispState { in_quote: true, quote: '"', ..s0 });
    lemma_disp_quoted(s1, lit);
    let s2 = disp_from(s1, lit);
    assert(s2.cur =~= lit);
    let close = seq!['"', ' '];
    assert(disp_from(s2, seq!['"']) == disp_step(s2, '"')) by {
        assert(seq!['"'].drop_last() =~= Seq::<char>::empty());
        assert(disp_from(s2, Seq::<char>::empty()) == s2);
        assert(seq!['"'].last() == '"');
    }
    assert(disp_from(s2, close) == disp_step(disp_step(s2, '"'), ' ')) by {
        assert(close.drop_last() =~= seq!['"']);
        assert(close.last() == ' ');
    }
    let s3 = disp_from(s2, close);
    assert(s3.items =~= seq![DispModel::Literal(lit)]);
    assert(s3.cur.len() == 0);
    assert(!s3.in_quote);
    lemma_disp_bare(s3, name);
    let s4 = disp_from(s3, name);
    assert(s4.cur =~= name);
    lemma_disp_split(open, lit + close + name);
    assert(c =~= open + (lit + close + name));
    lemma_disp_from_split(s1, lit, close + name);
    assert(lit + close + name =~= lit + (close + name));
    lemma_disp_from_split(s2, close, name);
    assert(disp_run(c) == s4);
    assert(display_items(c) =~= seq![DispModel::Literal(lit), DispModel::Variable(name)]);
}

/// Parse a DISPLAY statement line into its literal and variable items.
pub fn parse_display_statement(line: &str) -> (r: Statement)
    ensures
        r matches Statement::Display(items) && disps_view(items@) == display_items(
            display_content(line@),
        ),
{
    let (t, _up) = trimmed_chars(line);
    let n = t.len();
    let has_prefix = crate::text::starts_with_exec(&t, 0, n, "DISPLAY") || crate::text::starts_with_exec(
        &t,
        0,
        n,
        "display",
    );
    proof {
        assert(t@.subrange(0, n as int) =~= t@);
        reveal_strlit("DISPLAY");
        reveal_strlit("display");
    }
    let (ca, cb0) = if has_prefix {
        trim_bounds(&t, 7, n)
    } else {
        (0, 0)
    };
    let cb = crate::text::skip_char_backward(&t, ca, cb0, '.');
    let c = sub_vec(&t, ca, cb);
    proof {
        if has_prefix {
            assert(t@.skip(7) =~= t@.subrange(7, n as int));
        } else {
            assert(t@.subrange(0, 0) =~= Seq::<char>::empty());
            assert(trim(Seq::<char>::empty()) =~= Seq::<char>::empty());
        }
        assert(c@ == display_content(line@));
    }
    let mut items: Vec<DisplayItem> = Vec::new();
    let mut current = String::new();
    let mut in_quote = false;
    let mut quote_char = '"';
    let mut i: usize = 0;
    proof {
        assert(c@.take(0) =~= Seq::<char>::empty());
        assert(disps_view(items@) =~= Seq::<DispModel>::empty());
    }
    while i < c.len()
        invariant
            i <= c@.len(),
            disp_run(c@.take(i as int)) == (DispState {
                items: disps_view(items@),
                cur: current@,
                in_quote,
                quote: quote_char,
            }),
        decreases c@.len() - i,
    {
        let ch = c[i];
        proof {
            assert(c@.take(i + 1).drop_last() =~= c@.take(i as int));
            assert(c@.take(i + 1).last() == ch);
        }
        let ghost before = disps_view(items@);
        if in_quote {
            if ch == quote_char {
                items.push(DisplayItem::Literal(current));
                current = String::new();
                in_quote = false;
                proof {
                    assert(disps_view(items@) =~= before.push(DispModel::Literal(
                        disp_run(c@.take(i as int)).cur,
                    )));
                }
            } else {
                crate::text::push_char(&mut current, ch);
            }
        } else if ch == '"' || ch == '\'' {
            in_quote = true;
            quote_char = ch;
        } else if ch == ' ' {
            if current.unicode_len() > 0 {
                items.push(DisplayItem::Variable(current));
                current = String::new();
                proof {
                    assert(disps_view(items@) =~= before.push(DispModel::Variable(
                        disp_run(c@.take(i as int)).cur,
                    )));
                }
            }
        } else {
            crate::text::push_char(&mut current, ch);
        }
        i = i + 1;
    }
    proof {
        assert(c@.take(c@.len() as int) =~= c@);
    }
    if current.unicode_len() > 0 {
        let ghost before = disps_view(items@);
        items.push(DisplayItem::Variable(current));
        proof {
            assert(disps_view(items@) =~= before.push(DispModel::Variable(disp_run(c@).cur)));
        }
    }
    Statement::Display(items)
}

} // verus!

verus! {

// ---------------------------------------------------------------------------
// Any statement
// ---------------------------------------------------------------------------

/// What a statement line is read into.
pub enum StmtModel {
    Display(Seq<DispModel>),
    Move(Seq<char>, Seq<Seq<char>>),
    Compute(Seq<char>, Seq<char>, bool),
    Arith(ArithKind, Seq<char>, Seq<char>),
    Perform(PerformModel),
    StopRun,
    GoBack,
    Unknown(Seq<char>),
}

/// The statement's keyword text: the upper-cased, trimmed line without trailing periods.
pub open spec fn stmt_key(line: Seq<char>) -> Seq<char> {
    trim_end_char(trim(upper(line)), '.')
}

pub open spec fn arith_stmt(line: Seq<char>, k: ArithKind) -> StmtModel {
    match arith_model(line, k) {
        Some((a, b)) => StmtModel::Arith(k, a, b),
        None => StmtModel::Unknown(trim(line)),
    }
}

/// The statement on a line of the PROCEDURE DIVISION, chosen by its leading keyword;
/// none for a line with nothing but periods.
pub open spec fn statement_of(line: Seq<char>) -> Option<StmtModel> {
    let u = stmt_key(line);
    let sw = |k: Seq<char>| crate::text::starts_with(u, k);
    if sw("DISPLAY"@) {
        Some(StmtModel::Display(display_items(display_content(line))))
    } else if sw("MOVE"@) {
        Some(
            match move_parts(line) {
                Some((f, t)) => StmtModel::Move(f, t),
                None => StmtModel::Unknown(trim(line)),
            },
        )
    } else if sw("COMPUTE"@) {
        Some(
            match compute_parts(line) {
                Some((t, e, r)) => StmtModel::Compute(t, e, r),
                None => StmtModel::Unknown(trim(line)),
            },
        )
    } else if sw("ADD"@) {
        Some(arith_stmt(line, ArithKind::Add))
    } else if sw("SUBTRACT"@) {
        Some(arith_stmt(line, ArithKind::Subtract))
    } else if sw("MULTIPLY"@) {
        Some(arith_stmt(line, ArithKind::Multiply))
    } else if sw("PERFORM"@) {
        Some(
            match perform_parts(line) {
                Some(m) => StmtModel::Perform(m),
                None => StmtModel::Unknown(trim(line)),
            },
        )
    } else if u == "STOP RUN"@ {
        Some(StmtModel::StopRun)
    } else if u == "GOBACK"@ {
        Some(StmtModel::GoBack)
    } else if u.len() == 0 {
        None
    } else {
        Some(StmtModel::Unknown(trim(line)))
    }
}

/// `s` is the statement `m`.
pub open spec fn stmt_is(s: Statement, m: StmtModel) -> bool {
    match m {
        StmtModel::Display(ds) => s matches Statement::Display(items) && disps_view(items@) == ds,
        StmtModel::Move(f, t) => s matches Statement::Move(mv) && move_is(mv, f, t),
        StmtModel::Compute(tg, ex, rd) => s matches Statement::Compute(c) && c.target@ == tg
            && c.expression@ == ex && c.rounded == rd,
        StmtModel::Arith(k, a, b) => arith_is(s, k, a, b),
        StmtModel::Perform(pm) => s matches Statement::Perform(p) && perform_is(p, pm),
        StmtModel::StopRun => s is StopRun,
        StmtModel::GoBack => s is GoBack,
        StmtModel::Unknown(u) => s matches Statement::Unknown(x) && x@ == u,
    }
}

/// Read one PROCEDURE DIVISION line, which holds no line feed, into a statement.
#[verifier::rlimit(40)]
#[verifier::spinoff_prover]
pub fn parse_statement(line: &str) -> (r: Option<Statement>)
    requires
        !line@.contains('\n'),
    ensures
        match statement_of(line@) {
            Some(m) => r matches Some(s) && stmt_is(s, m),
            None => r is None,
        },
{
    let v = str_chars(line);
    let uv = upper_vec(&v);
    let (a, b0) = trim_bounds(&uv, 0, uv.len());
    let b = crate::text::skip_char_backward(&uv, a, b0, '.');
    proof {
        assert(uv@.subrange(0, uv@.len() as int) =~= uv@);
        assert(uv@.subrange(a as int, b as int) == stmt_key(line@));
    }
    let sw = |k: &str| -> (r: bool)
        requires
            a <= b <= uv@.len(),
        ensures
            r == crate::text::starts_with(uv@.subrange(a as int, b as int), k@),
        { crate::text::starts_with_exec(&uv, a, b, k) };
    if sw("DISPLAY") {
        Some(parse_display_statement(line))
    } else if sw("MOVE") {
        Some(parse_move_statement(line))
    } else if sw("COMPUTE") {
        Some(parse_compute_statement(line))
    } else if sw("ADD") {
        Some(parse_arith_statement(line, ArithKind::Add))
    } else if sw("SUBTRACT") {
        Some(parse_arith_statement(line, ArithKind::Subtract))
    } else if sw("MULTIPLY") {
        Some(parse_arith_statement(line, ArithKind::Multiply))
    } else if sw("PERFORM") {
        Some(parse_perform_statement(line))
    } else if crate::text::equals_exec(&uv, a, b, "STOP RUN") {
        Some(Statement::StopRun)
    } else if crate::text::equals_exec(&uv, a, b, "GOBACK") {
        Some(Statement::GoBack)
    } else if a == b {
        None
    } else {
        let (ta, tb) = trim_bounds(&v, 0, v.len());
        proof {
            assert(v@.subrange(0, v@.len() as int) =~= v@);
        }
        Some(Statement::Unknown(string_of(&v, ta, tb)))
    }
}

} // verus!
