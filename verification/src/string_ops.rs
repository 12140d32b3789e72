//! STRING/UNSTRING statements and their Rust equivalents.
//!
//! ```text
//! STRING WS-FIRST DELIMITED BY SPACE
//!        WS-LAST  DELIMITED BY SIZE
//!        INTO WS-FULL-NAME.
//! ```
//! becomes `format!` with `trim_end()` on the space-delimited source;
//!
//! ```text
//! UNSTRING WS-INPUT DELIMITED BY ","
//!          INTO WS-FIELD1, WS-FIELD2, WS-FIELD3.
//! ```
//! becomes `ws_input.splitn(3, ',')`.
use vstd::prelude::*;
use vstd::string::StringExecFns;

use crate::sql_gen::{rust_var, to_rust_var};
use crate::text::{
    debug_str, debug_string, decimal, lemma_join_split, lemma_occurs_between, occurs_in, eq_ignore_case, eq_ignore_case_exec, find, find_chars, find_upper, join, join_exec,
    lemma_find_sub, lemma_found, list_items, list_items_exec, pieces_of, push_decimal,
    skip_char_backward, skip_char_forward, starts_with, starts_with_exec, str_chars, string_of,
    strs, sub_vec, trim, trim_bounds, trim_char, trim_end_char, trimmed_string, upper, upper_vec,
    word_bounds, words,
};

verus! {

/// Describes one source field in a STRING statement.
#[derive(Debug, Clone, PartialEq, Eq)]
pub struct StringSource {
    pub variable: String,
    pub delimiter: StringDelimiter,
}

/// Delimiter type for STRING statement sources.
#[derive(Debug, Clone, PartialEq, Eq)]
pub enum StringDelimiter {
    /// `DELIMITED BY SPACE`: trim trailing spaces before concatenating
    Space,
    /// `DELIMITED BY SIZE`: use full field value without trimming
    Size,
    /// `DELIMITED BY literal`: stop at the first occurrence of the literal
    Literal(String),
}

/// Parsed STRING statement.
#[derive(Debug, Clone)]
pub struct StringStatement {
    pub sources: Vec<StringSource>,
    pub into_var: String,
}

/// Parsed UNSTRING statement.
#[derive(Debug, Clone)]
pub struct UnstringStatement {
    pub source_var: String,
    pub delimiter: String,
    pub into_vars: Vec<String>,
}

pub enum DelimModel {
    Space,
    Size,
    Literal(Seq<char>),
}

impl View for StringDelimiter {
    type V = DelimModel;

    open spec fn view(&self) -> DelimModel {
        match self {
            StringDelimiter::Space => DelimModel::Space,
            StringDelimiter::Size => DelimModel::Size,
            StringDelimiter::Literal(l) => DelimModel::Literal(l@),
        }
    }
}

pub open spec fn sources_view(v: Seq<StringSource>) -> Seq<(Seq<char>, DelimModel)> {
    v.map_values(|s: StringSource| (s.variable@, s.delimiter@))
}

// ---------------------------------------------------------------------------
// Code generation
// ---------------------------------------------------------------------------

/// The Rust expression for one STRING source.
pub open spec fn source_expr(v: Seq<char>, d: DelimModel) -> Seq<char> {
    let field = rust_var(v);
    match d {
        DelimModel::Space => field + ".trim_end()"@,
        DelimModel::Size => field,
        DelimModel::Literal(lit) => field + ".split("@ + debug_str(lit) + ").next().unwrap_or(\"\")"@,
    }
}

pub open spec fn source_exprs(ss: Seq<(Seq<char>, DelimModel)>) -> Seq<Seq<char>> {
    ss.map_values(|s: (Seq<char>, DelimModel)| source_expr(s.0, s.1))
}

/// `{}` repeated `n` times.
pub open spec fn holes(n: nat) -> Seq<char>
    decreases n,
{
    if n == 0 {
        Seq::empty()
    } else {
        holes((n - 1) as nat) + "{}"@
    }
}

pub open spec fn format_code(ss: Seq<(Seq<char>, DelimModel)>, into: Seq<char>) -> Seq<char> {
    "let "@ + rust_var(into) + " = format!(\""@ + holes(ss.len()) + "\", "@ + join(
        source_exprs(ss),
        ", "@,
    ) + ");"@
}

/// In the generated `format!`, each source stands as one argument, written by its delimiter:
/// a source delimited by a literal is the part of the field before the literal's first
/// occurrence (the first item of `split`), one delimited by SPACE has its trailing spaces
/// trimmed, and one delimited by SIZE is the whole field.
pub proof fn lemma_format_arguments(ss: Seq<(Seq<char>, DelimModel)>, into: Seq<char>, i: int)
    requires
        0 <= i < ss.len(),
    ensures
        ss[i].1 matches DelimModel::Literal(lit) ==> occurs_in(
            rust_var(ss[i].0) + ".split("@ + debug_str(lit) + ").next().unwrap_or(\"\")"@,
            format_code(ss, into),
        ),
        ss[i].1 is Space ==> occurs_in(rust_var(ss[i].0) + ".trim_end()"@, format_code(ss, into)),
        ss[i].1 is Size ==> occurs_in(rust_var(ss[i].0), format_code(ss, into)),
{
    let es = source_exprs(ss);
    let (a, b) = lemma_join_split(es, ", "@, i);
    assert(es[i] == source_expr(ss[i].0, ss[i].1));
    let pre = "let "@ + rust_var(into) + " = format!(\""@ + holes(ss.len()) + "\", "@;
    assert(format_code(ss, into) =~= (pre + a) + es[i] + (b + ");"@));
    lemma_occurs_between(pre + a, es[i], b + ");"@);
}

pub open spec fn splitn_assignments(src: Seq<char>, vars: Seq<Seq<char>>) -> Seq<Seq<char>> {
    Seq::new(
        vars.len(),
        |k: int|
            "let "@ + rust_var(vars[k]) + " = "@ + rust_var(src) + "_parts"@ + ".get("@ + decimal(
                k as nat,
            ) + ").copied().unwrap_or(\"\").trim().to_string();"@,
    )
}

pub open spec fn splitn_code(src: Seq<char>, delim: Seq<char>, vars: Seq<Seq<char>>) -> Seq<char> {
    let parts = rust_var(src) + "_parts"@;
    "let "@ + parts + ": Vec<&str> = "@ + rust_var(src) + ".splitn("@ + decimal(vars.len())
        + ", "@ + debug_str(delim) + ").collect();\n"@ + join(splitn_assignments(src, vars), "\n"@)
}

/// In the generated UNSTRING code the source is split at the delimiter into at most as many
/// pieces as there are INTO fields, and the k-th INTO field is given the k-th piece.
pub proof fn lemma_splitn_pieces(src: Seq<char>, delim: Seq<char>, vars: Seq<Seq<char>>, k: int)
    requires
        0 <= k < vars.len(),
    ensures
        occurs_in(
            rust_var(src) + ".splitn("@ + decimal(vars.len()) + ", "@ + debug_str(delim) + ")"@,
            splitn_code(src, delim, vars),
        ),
        occurs_in(
            "let "@ + rust_var(vars[k]) + " = "@ + rust_var(src) + "_parts"@ + ".get("@ + decimal(
                k as nat,
            ) + ")"@,
            splitn_code(src, delim, vars),
        ),
{
    reveal_strlit(")");
    reveal_strlit(").collect();\n");
    reveal_strlit(").copied().unwrap_or(\"\").trim().to_string();");
    let parts = rust_var(src) + "_parts"@;
    let asg = splitn_assignments(src, vars);
    let code = splitn_code(src, delim, vars);
    let c1 = ").collect();\n"@;
    assert(c1 =~= ")"@ + c1.skip(1));
    let p1 = rust_var(src) + ".splitn("@ + decimal(vars.len()) + ", "@ + debug_str(delim) + ")"@;
    assert(code =~= ("let "@ + parts + ": Vec<&str> = "@) + p1 + (c1.skip(1) + join(asg, "\n"@)));
    lemma_occurs_between("let "@ + parts + ": Vec<&str> = "@, p1, c1.skip(1) + join(asg, "\n"@));
    let (a, b) = lemma_join_split(asg, "\n"@, k);
    let c2 = ").copied().unwrap_or(\"\").trim().to_string();"@;
    assert(c2 =~= ")"@ + c2.skip(1));
    let p2 = "let "@ + rust_var(vars[k]) + " = "@ + rust_var(src) + "_parts"@ + ".get("@ + decimal(
        k as nat,
    ) + ")"@;
    assert(asg[k] =~= p2 + c2.skip(1));
    let pre = "let "@ + parts + ": Vec<&str> = "@ + p1 + c1.skip(1);
    assert(code =~= (pre + a) + p2 + (c2.skip(1) + b));
    lemma_occurs_between(pre + a, p2, c2.skip(1) + b);
}

impl StringStatement {
    /// The Rust `format!` expression for this STRING statement.
    pub fn to_rust_format(&self) -> (r: String)
        ensures
            r@ == format_code(sources_view(self.sources@), self.into_var@),
    {
        let ghost sv = sources_view(self.sources@);
        let mut exprs: Vec<String> = Vec::new();
        let mut holes_s = String::new();
        let mut i: usize = 0;
        while i < self.sources.len()
            invariant
                i <= self.sources@.len(),
                sv == sources_view(self.sources@),
                strs(exprs@) =~= source_exprs(sv).take(i as int),
                holes_s@ == holes(i as nat),
            decreases self.sources@.len() - i,
        {
            let src = &self.sources[i];
            let mut e = to_rust_var(src.variable.as_str());
            match &src.delimiter {
                StringDelimiter::Space => {
                    e.append(".trim_end()");
                },
                StringDelimiter::Size => {},
                StringDelimiter::Literal(lit) => {
                    e.append(".split(");
                    let d = debug_string(lit.as_str());
                    e.append(d.as_str());
                    e.append(").next().unwrap_or(\"\")");
                },
            }
            let ghost e0 = strs(exprs@);
            exprs.push(e);
            holes_s.append("{}");
            proof {
                assert(strs(exprs@) =~= e0.push(e@));
                assert(source_exprs(sv).take(i + 1) =~= source_exprs(sv).take(i as int).push(e@));
            }
            i = i + 1;
        }
        proof {
            assert(source_exprs(sv).take(self.sources@.len() as int) =~= source_exprs(sv));
        }
        let target = to_rust_var(self.into_var.as_str());
        let args = join_exec(&exprs, ", ");
        let mut r = String::new();
        r.append("let ");
        r.append(target.as_str());
        r.append(" = format!(\"");
        r.append(holes_s.as_str());
        r.append("\", ");
        r.append(args.as_str());
        r.append(");");
        r
    }
}

impl UnstringStatement {
    /// The Rust `splitn` expression for this UNSTRING statement.
    pub fn to_rust_splitn(&self) -> (r: String)
        ensures
            r@ == splitn_code(self.source_var@, self.delimiter@, strs(self.into_vars@)),
    {
        let source = to_rust_var(self.source_var.as_str());
        let mut parts_var = source.clone();
        parts_var.append("_parts");
        let ghost vs = strs(self.into_vars@);
        let mut lines: Vec<String> = Vec::new();
        let mut i: usize = 0;
        while i < self.into_vars.len()
            invariant
                i <= self.into_vars@.len(),
                vs == strs(self.into_vars@),
                parts_var@ == rust_var(self.source_var@) + "_parts"@,
                strs(lines@) =~= splitn_assignments(self.source_var@, vs).take(i as int),
            decreases self.into_vars@.len() - i,
        {
            let mut l = String::new();
            l.append("let ");
            let f = to_rust_var(self.into_vars[i].as_str());
            l.append(f.as_str());
            l.append(" = ");
            l.append(parts_var.as_str());
            l.append(".get(");
            push_decimal(&mut l, i);
            l.append(").copied().unwrap_or(\"\").trim().to_string();");
            let ghost l0 = strs(lines@);
            lines.push(l);
            proof {
                let a = splitn_assignments(self.source_var@, vs);
                assert(strs(lines@) =~= l0.push(l@));
                assert(a[i as int] =~= l@);
                assert(a.take(i + 1) =~= a.take(i as int).push(l@));
            }
            i = i + 1;
        }
        proof {
            let a = splitn_assignments(self.source_var@, vs);
            assert(a.take(self.into_vars@.len() as int) =~= a);
        }
        let assignments = join_exec(&lines, "\n");
        let d = debug_string(self.delimiter.as_str());
        let mut r = String::new();
        r.append("let ");
        r.append(parts_var.as_str());
        r.append(": Vec<&str> = ");
        r.append(source.as_str());
        r.append(".splitn(");
        push_decimal(&mut r, self.into_vars.len());
        r.append(", ");
        r.append(d.as_str());
        r.append(").collect();\n");
        r.append(assignments.as_str());
        r
    }
}

} // verus!

verus! {

// ---------------------------------------------------------------------------
// Parsing
// ---------------------------------------------------------------------------

/// The statement text: upper case, trimmed, trailing `.` removed.
pub open spec fn stmt_body(line: Seq<char>) -> Seq<char> {
    trim_end_char(trim(upper(line)), '.')
}

/// The delimiter a `DELIMITED BY` token names.
pub open spec fn delim_of(tok: Seq<char>) -> DelimModel {
    if eq_ignore_case(tok, "SPACE"@) {
        DelimModel::Space
    } else if eq_ignore_case(tok, "SIZE"@) {
        DelimModel::Size
    } else {
        DelimModel::Literal(trim_char(tok, '"'))
    }
}

/// Sources from token `i` on: `VAR DELIMITED BY D` or a bare `VAR` (taken by size).
pub open spec fn pair_sources(ts: Seq<Seq<char>>, i: int) -> Seq<(Seq<char>, DelimModel)>
    decreases ts.len() - i,
{
    if i < 0 || i >= ts.len() {
        Seq::empty()
    } else if i + 3 < ts.len() && eq_ignore_case(ts[i + 1], "DELIMITED"@) && eq_ignore_case(
        ts[i + 2],
        "BY"@,
    ) {
        seq![(ts[i], delim_of(ts[i + 3]))] + pair_sources(ts, i + 4)
    } else {
        seq![(ts[i], DelimModel::Size)] + pair_sources(ts, i + 1)
    }
}

/// The target of STRING/UNSTRING: the original-case text after the first ` INTO `.
pub open spec fn into_text(line: Seq<char>) -> Seq<char> {
    trim_end_char(trim(line.skip(find(upper(line), " INTO "@)->0 + 6)), '.')
}

/// What `parse_string_statement` gives: the sources (in upper case) and the target.
pub open spec fn spec_string_stmt(line: Seq<char>) -> Option<(Seq<(Seq<char>, DelimModel)>, Seq<char>)> {
    let t = stmt_body(line);
    if !starts_with(t, "STRING "@) {
        None
    } else {
        match find(t, " INTO "@) {
            None => None,
            Some(ip) => Some((pair_sources(words(t.subrange(7, ip)), 0), trim(into_text(line)))),
        }
    }
}

/// The sources end after `STRING ` (the parser slices from there).
pub open spec fn string_ok(line: Seq<char>) -> bool {
    let t = stmt_body(line);
    starts_with(t, "STRING "@) ==> (find(t, " INTO "@) matches Some(ip) ==> 7 <= ip)
}

pub open spec fn opt_string_stmt(r: Option<StringStatement>) -> Option<(Seq<(Seq<char>, DelimModel)>, Seq<char>)> {
    match r {
        Some(s) => Some((sources_view(s.sources@), s.into_var@)),
        None => None,
    }
}

/// The statement body `up[a..b]` (upper case, trimmed, trailing `.` removed).
fn body_bounds(up: &Vec<char>) -> (r: (usize, usize))
    ensures
        r.0 <= r.1 <= up@.len(),
        up@.subrange(r.0 as int, r.1 as int) == trim_end_char(trim(up@), '.'),
{
    let (a, b) = trim_bounds(up, 0, up.len());
    let b2 = skip_char_backward(up, a, b, '.');
    proof {
        assert(up@.subrange(0, up@.len() as int) =~= up@);
    }
    (a, b2)
}

fn delim_exec(v: &Vec<char>, a: usize, b: usize) -> (r: StringDelimiter)
    requires
        a <= b <= v@.len(),
    ensures
        r@ == delim_of(v@.subrange(a as int, b as int)),
{
    if eq_ignore_case_exec(v, a, b, "SPACE") {
        StringDelimiter::Space
    } else if eq_ignore_case_exec(v, a, b, "SIZE") {
        StringDelimiter::Size
    } else {
        let i = skip_char_forward(v, a, b, '"');
        let j = skip_char_backward(v, i, b, '"');
        StringDelimiter::Literal(string_of(v, i, j))
    }
}

/// The original-case target after the first ` INTO `, given that there is one.
fn into_exec(v: &Vec<char>) -> (r: (usize, usize))
    requires
        find(upper(v@), " INTO "@) is Some,
    ensures
        r.0 <= r.1 <= v@.len(),
        v@.subrange(r.0 as int, r.1 as int) == into_text(v@),
{
    let op = match find_upper(v, " INTO ") {
        Some(p) => p,
        None => {
            proof {
                assert(false);
            }
            0
        },
    };
    proof {
        reveal_strlit(" INTO ");
        assert(v@.skip(op + 6) =~= v@.subrange(op + 6, v@.len() as int));
    }
    let (c, d) = trim_bounds(v, op + 6, v.len());
    let d2 = skip_char_backward(v, c, d, '.');
    (c, d2)
}

/// Parse a COBOL STRING statement:
/// `STRING src1 DELIMITED BY SPACE src2 DELIMITED BY SIZE INTO target`.
pub fn parse_string_statement(line: &str) -> (r: Option<StringStatement>)
    requires
        string_ok(line@),
    ensures
        opt_string_stmt(r) == spec_string_stmt(line@),
{
    let v = str_chars(line);
    let up = upper_vec(&v);
    let (a, b) = body_bounds(&up);
    if !starts_with_exec(&up, a, b, "STRING ") {
        return None;
    }
    let t = sub_vec(&up, a, b);
    let ip = match find_chars(&t, " INTO ") {
        Some(p) => p,
        None => return None,
    };
    proof {
        reveal_strlit(" INTO ");
        lemma_found(t@, " INTO "@, ip as int);
        lemma_find_sub(upper(v@), a as int, b as int, " INTO "@);
    }
    let sp = sub_vec(&t, 7, ip);
    let wb = word_bounds(&sp);
    let ghost ts = words(sp@);
    let n = wb.len();
    let mut sources: Vec<StringSource> = Vec::new();
    let mut i: usize = 0;
    while i < n
        invariant
            n == wb@.len() == ts.len(),
            ts == pieces_of(sp@, wb@),
            forall|k: int| 0 <= k < wb@.len() ==> (#[trigger] wb@[k]).0 <= wb@[k].1 <= sp@.len(),
            i <= n + 3,
            sources_view(sources@) + pair_sources(ts, i as int) == pair_sources(ts, 0),
        decreases n + 3 - i,
    {
        let (va, vb) = wb[i];
        let var = string_of(&sp, va, vb);
        let ghost s0 = sources_view(sources@);
        if n - i > 3 && eq_ignore_case_exec(&sp, wb[i + 1].0, wb[i + 1].1, "DELIMITED")
            && eq_ignore_case_exec(&sp, wb[i + 2].0, wb[i + 2].1, "BY") {
            let delimiter = delim_exec(&sp, wb[i + 3].0, wb[i + 3].1);
            let src = StringSource { variable: var, delimiter };
            sources.push(src);
            proof {
                assert(sources_view(sources@) =~= s0.push((src.variable@, src.delimiter@)));
            }
            i = i + 4;
        } else {
            let src = StringSource { variable: var, delimiter: StringDelimiter::Size };
            sources.push(src);
            proof {
                assert(sources_view(sources@) =~= s0.push((src.variable@, src.delimiter@)));
            }
            i = i + 1;
        }
    }
    let (c, d) = into_exec(&v);
    let into_var = trimmed_string(&v, c, d);
    proof {
        assert(pair_sources(ts, i as int) =~= Seq::<(Seq<char>, DelimModel)>::empty());
        assert(sources_view(sources@) =~= sources_view(sources@) + Seq::<(Seq<char>, DelimModel)>::empty());
        assert(t@ == stmt_body(line@));
    }
    Some(StringStatement { sources, into_var })
}

/// What `parse_unstring_statement` gives: source variable, delimiter, targets.
pub open spec fn spec_unstring_stmt(line: Seq<char>) -> Option<(Seq<char>, Seq<char>, Seq<Seq<char>>)> {
    let t = stmt_body(line);
    if !starts_with(t, "UNSTRING "@) {
        None
    } else {
        match find(t, " DELIMITED BY "@) {
            None => None,
            Some(dp) => match find(t, " INTO "@) {
                None => None,
                Some(ip) => Some(
                    (
                        trim(line.subrange(9, find(upper(line), " DELIMITED BY "@)->0)),
                        trim_char(trim(t.subrange(dp + 14, ip)), '"'),
                        list_items(into_text(line), false),
                    ),
                ),
            },
        }
    }
}

/// The parser's slices are in order (it panics otherwise).
pub open spec fn unstring_ok(line: Seq<char>) -> bool {
    let t = stmt_body(line);
    (starts_with(t, "UNSTRING "@) && find(t, " DELIMITED BY "@) is Some && find(t, " INTO "@) is Some)
        ==> (9 <= find(t, " DELIMITED BY "@)->0 && find(t, " DELIMITED BY "@)->0 + 14 <= find(
        t,
        " INTO "@,
    )->0 && 9 <= find(upper(line), " DELIMITED BY "@)->0)
}

pub open spec fn opt_unstring_stmt(r: Option<UnstringStatement>) -> Option<(Seq<char>, Seq<char>, Seq<Seq<char>>)> {
    match r {
        Some(s) => Some((s.source_var@, s.delimiter@, strs(s.into_vars@))),
        None => None,
    }
}

/// Parse a COBOL UNSTRING statement: `UNSTRING src DELIMITED BY "," INTO var1, var2, var3`.
pub fn parse_unstring_statement(line: &str) -> (r: Option<UnstringStatement>)
    requires
        unstring_ok(line@),
    ensures
        opt_unstring_stmt(r) == spec_unstring_stmt(line@),
{
    let v = str_chars(line);
    let up = upper_vec(&v);
    let (a, b) = body_bounds(&up);
    if !starts_with_exec(&up, a, b, "UNSTRING ") {
        return None;
    }
    let t = sub_vec(&up, a, b);
    let dp = match find_chars(&t, " DELIMITED BY ") {
        Some(p) => p,
        None => return None,
    };
    let ip = match find_chars(&t, " INTO ") {
        Some(p) => p,
        None => return None,
    };
    proof {
        reveal_strlit(" INTO ");
        reveal_strlit(" DELIMITED BY ");
        lemma_found(t@, " INTO "@, ip as int);
        lemma_found(t@, " DELIMITED BY "@, dp as int);
        lemma_find_sub(upper(v@), a as int, b as int, " INTO "@);
        lemma_find_sub(upper(v@), a as int, b as int, " DELIMITED BY "@);
        assert(t@ == stmt_body(line@));
    }
    let (da, db) = trim_bounds(&t, dp + 14, ip);
    let di = skip_char_forward(&t, da, db, '"');
    let dj = skip_char_backward(&t, di, db, '"');
    let delimiter = string_of(&t, di, dj);
    let (c, d) = into_exec(&v);
    let into_vars = list_items_exec(&v, c, d, false);
    let odp = match find_upper(&v, " DELIMITED BY ") {
        Some(p) => p,
        None => {
            proof {
                assert(false);
            }
            0
        },
    };
    let source_var = trimmed_string(&v, 9, odp);
    Some(UnstringStatement { source_var, delimiter, into_vars })
}

} // verus!
