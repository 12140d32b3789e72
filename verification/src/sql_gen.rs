//! Rust `sqlx` code for COBOL `EXEC SQL` statements.
//!
//! - SELECT INTO becomes `sqlx::query_scalar!` or `sqlx::query!`
//! - INSERT/UPDATE/DELETE become `sqlx::query!(...).execute`
//! - cursor operations become `sqlx::query!(...).fetch()`
//! - COMMIT/ROLLBACK become `tx.commit()` / `tx.rollback()`
use vstd::prelude::*;
use vstd::string::StringExecFns;

use crate::exec_sql::{ActionModel, SelectModel, SqlModel, opt_str};
use crate::text::{
    to_lowercase_string, unicode_lower, decimal, is_digit, join, join_exec, push_char, trim,
    push_decimal, replace_char, str_chars, string_of, strs, upper, occurs_in, lemma_decimal_digits,
};
use crate::types::{ExecSqlStatement, SqlSelect, SqlWheneverAction, SqlWheneverCondition};

verus! {

// ---------------------------------------------------------------------------
// Host variables
// ---------------------------------------------------------------------------

/// A COBOL hyphenated name as a Rust snake_case name: hyphens become underscores, then
/// the Unicode lower-case mapping.
pub open spec fn rust_var(s: Seq<char>) -> Seq<char> {
    unicode_lower(replace_char(s, '-', '_'))
}

/// Convert a COBOL hyphenated name to Rust snake_case.
pub fn to_rust_var(name: &str) -> (res: String)
    ensures
        res@ == rust_var(name@),
{
    let v = str_chars(name);
    let mut replaced = String::new();
    let mut i: usize = 0;
    while i < v.len()
        invariant
            i <= v@.len(),
            replaced@ =~= replace_char(v@.take(i as int), '-', '_'),
        decreases v@.len() - i,
    {
        let c = if v[i] == '-' {
            '_'
        } else {
            v[i]
        };
        push_char(&mut replaced, c);
        proof {
            assert(v@.take(i + 1) =~= v@.take(i as int).push(v@[i as int]));
        }
        i = i + 1;
    }
    proof {
        assert(v@.take(v@.len() as int) =~= v@);
    }
    to_lowercase_string(replaced.as_str())
}

pub open spec fn upper_letter(c: char) -> bool {
    'A' <= c && c <= 'Z'
}

pub open spec fn letter(c: char) -> bool {
    ('A' <= c && c <= 'Z') || ('a' <= c && c <= 'z')
}

/// Characters after the first of a host variable: upper-case letters, digits, `_`, `-`
/// (or, with `any_case`, letters of either case).
pub open spec fn name_tail(c: char, any_case: bool) -> bool {
    (if any_case {
        letter(c)
    } else {
        upper_letter(c)
    }) || is_digit(c) || c == '_' || c == '-'
}

/// Length of the run of name characters at the start of `s`.
pub open spec fn tail_len(s: Seq<char>, any_case: bool) -> nat
    decreases s.len(),
{
    if s.len() > 0 && name_tail(s[0], any_case) {
        1 + tail_len(s.drop_first(), any_case)
    } else {
        0
    }
}

/// `:NAME` starts at the beginning of `s`.
pub open spec fn host_var_at(s: Seq<char>, any_case: bool) -> bool {
    s.len() >= 2 && s[0] == ':' && (if any_case {
        letter(s[1])
    } else {
        upper_letter(s[1])
    })
}

/// Length of the host variable reference at the start of `s`, colon included.
pub open spec fn host_var_len(s: Seq<char>, any_case: bool) -> int {
    2 + tail_len(s.skip(2), any_case) as int
}

pub proof fn lemma_tail_len_bound(s: Seq<char>, any_case: bool)
    ensures
        tail_len(s, any_case) <= s.len(),
    decreases s.len(),
{
    if s.len() > 0 && name_tail(s[0], any_case) {
        lemma_tail_len_bound(s.drop_first(), any_case);
    }
}

/// `s` with each `:NAME` (leftmost first) replaced by `$n`, `$n+1`, ...
pub open spec fn numbered(s: Seq<char>, n: nat) -> Seq<char>
    decreases s.len(),
{
    if s.len() == 0 {
        Seq::empty()
    } else if host_var_at(s, true) {
        proof {
            lemma_tail_len_bound(s.skip(2), true);
        }
        seq!['$'] + decimal(n) + numbered(s.skip(host_var_len(s, true)), n + 1)
    } else {
        seq![s[0]] + numbered(s.drop_first(), n)
    }
}

/// Number of host variable references in `s`.
pub open spec fn param_count(s: Seq<char>, any_case: bool) -> nat
    decreases s.len(),
{
    if s.len() == 0 {
        0
    } else if host_var_at(s, any_case) {
        proof {
            lemma_tail_len_bound(s.skip(2), any_case);
        }
        1 + param_count(s.skip(host_var_len(s, any_case)), any_case)
    } else {
        param_count(s.drop_first(), any_case)
    }
}

/// The names of the host variable references in `s`, colon removed.
pub open spec fn host_vars(s: Seq<char>) -> Seq<Seq<char>>
    decreases s.len(),
{
    if s.len() == 0 {
        Seq::empty()
    } else if host_var_at(s, true) {
        proof {
            lemma_tail_len_bound(s.skip(2), true);
        }
        seq![s.subrange(1, host_var_len(s, true))] + host_vars(s.skip(host_var_len(s, true)))
    } else {
        host_vars(s.drop_first())
    }
}

pub proof fn lemma_tail_len(s: Seq<char>, any_case: bool, n: int)
    requires
        0 <= n <= s.len(),
        forall|j: int| 0 <= j < n ==> name_tail(#[trigger] s[j], any_case),
        n == s.len() || !name_tail(s[n], any_case),
    ensures
        tail_len(s, any_case) == n,
    decreases n,
{
    if n > 0 {
        lemma_tail_len(s.drop_first(), any_case, n - 1);
    }
}

fn name_tail_exec(c: char, any_case: bool) -> (r: bool)
    ensures
        r == name_tail(c, any_case),
{
    (if any_case {
        ('A' <= c && c <= 'Z') || ('a' <= c && c <= 'z')
    } else {
        'A' <= c && c <= 'Z'
    }) || ('0' <= c && c <= '9') || c == '_' || c == '-'
}

/// End of the host variable reference starting at `v[i]`, when there is one.
fn host_var_end(v: &Vec<char>, i: usize, any_case: bool) -> (r: Option<usize>)
    requires
        i <= v@.len(),
    ensures
        r is Some == host_var_at(v@.skip(i as int), any_case),
        r matches Some(e) ==> e == i + host_var_len(v@.skip(i as int), any_case) && i + 2 <= e
            <= v@.len(),
{
    let n = v.len();
    let ghost s = v@.skip(i as int);
    if n - i < 2 || v[i] != ':' || !(if any_case {
        ('A' <= v[i + 1] && v[i + 1] <= 'Z') || ('a' <= v[i + 1] && v[i + 1] <= 'z')
    } else {
        'A' <= v[i + 1] && v[i + 1] <= 'Z'
    }) {
        proof {
            if n - i >= 2 {
                assert(s[0] == v@[i as int]);
                assert(s[1] == v@[i + 1]);
            }
        }
        return None;
    }
    proof {
        assert(s[0] == v@[i as int]);
        assert(s[1] == v@[i + 1]);
    }
    let mut j = i + 2;
    while j < n && name_tail_exec(v[j], any_case)
        invariant
            n == v@.len(),
            i + 2 <= j <= n,
            forall|k: int| i + 2 <= k < j ==> name_tail(#[trigger] v@[k], any_case),
        decreases n - j,
    {
        j = j + 1;
    }
    proof {
        let t = s.skip(2);
        assert forall|k: int| 0 <= k < j - i - 2 implies name_tail(#[trigger] t[k], any_case) by {
            assert(t[k] == v@[i + 2 + k]);
        }
        if j < n {
            assert(t[j - i - 2] == v@[j as int]);
        }
        lemma_tail_len(t, any_case, j - i - 2);
    }
    Some(j)
}

/// Replace COBOL `:VARIABLE` references with sqlx `$N` positional parameters, numbering
/// from `start_at`; every other character is kept as written.
/// e.g. "ACCT_ID = :WS-ID" → "ACCT_ID = $1"
pub fn replace_cobol_params(sql: &str, start_at: usize) -> (res: String)
    requires
        start_at + param_count(sql@, true) <= usize::MAX,
    ensures
        res@ == numbered(sql@, start_at as nat),
{
    let v = str_chars(sql);
    let n = v.len();
    let mut res = String::new();
    let mut counter = start_at;
    let mut i: usize = 0;
    proof {
        assert(v@.skip(0) =~= v@);
    }
    while i < n
        invariant
            n == v@.len(),
            v@ == sql@,
            i <= n,
            res@ + numbered(v@.skip(i as int), counter as nat) == numbered(v@, start_at as nat),
            counter + param_count(v@.skip(i as int), true) == start_at + param_count(v@, true),
            start_at + param_count(v@, true) <= usize::MAX,
        decreases n - i,
    {
        let ghost s = v@.skip(i as int);
        match host_var_end(&v, i, true) {
            Some(e) => {
                let ghost r0 = res@;
                push_char(&mut res, '$');
                push_decimal(&mut res, counter);
                proof {
                    assert(s.skip(host_var_len(s, true)) =~= v@.skip(e as int));
                    assert(res@ + numbered(v@.skip(e as int), (counter + 1) as nat) =~= r0 + numbered(s, counter as nat));
                }
                counter = counter + 1;
                i = e;
            },
            None => {
                let ghost r0 = res@;
                push_char(&mut res, v[i]);
                proof {
                    assert(s.drop_first() =~= v@.skip(i + 1));
                    assert(s[0] == v@[i as int]);
                    assert(res@ + numbered(v@.skip(i + 1), counter as nat) =~= r0 + numbered(s, counter as nat));
                }
                i = i + 1;
            },
        }
    }
    proof {
        assert(v@.skip(n as int) =~= Seq::<char>::empty());
        assert(res@ + Seq::<char>::empty() =~= res@);
    }
    res
}

/// Extract COBOL `:VARIABLE` names from a SQL fragment, keeping their case.
pub fn extract_cobol_vars(sql: &str) -> (res: Vec<String>)
    ensures
        strs(res@) == host_vars(sql@),
{
    let v = str_chars(sql);
    let n = v.len();
    let mut res: Vec<String> = Vec::new();
    let mut i: usize = 0;
    proof {
        assert(v@.skip(0) =~= v@);
    }
    while i < n
        invariant
            n == v@.len(),
            v@ == sql@,
            i <= n,
            strs(res@) + host_vars(v@.skip(i as int)) == host_vars(v@),
        decreases n - i,
    {
        let ghost s = v@.skip(i as int);
        match host_var_end(&v, i, true) {
            Some(e) => {
                let ghost r0 = strs(res@);
                let name = string_of(&v, i + 1, e);
                res.push(name);
                proof {
                    assert(s.skip(host_var_len(s, true)) =~= v@.skip(e as int));
                    assert(s.subrange(1, host_var_len(s, true)) =~= v@.subrange(i + 1, e as int));
                    assert(strs(res@) =~= r0.push(name@));
                    assert(strs(res@) + host_vars(v@.skip(e as int)) =~= r0 + host_vars(s));
                }
                i = e;
            },
            None => {
                proof {
                    assert(s.drop_first() =~= v@.skip(i + 1));
                }
                i = i + 1;
            },
        }
    }
    proof {
        assert(v@.skip(n as int) =~= Seq::<char>::empty());
        assert(strs(res@) + Seq::<Seq<char>>::empty() =~= strs(res@));
    }
    res
}

} // verus!

verus! {

// ---------------------------------------------------------------------------
// Generated code
// ---------------------------------------------------------------------------

/// The generated Rust code for a single EXEC SQL statement.
#[derive(Debug, Clone)]
pub struct SqlxCode {
    /// The generated Rust expression/statement
    pub code: String,
    /// Whether this requires `async` context
    pub is_async: bool,
    /// Whether the generated code uses a struct (needs struct definition)
    pub needs_row_struct: bool,
    /// Optional row struct name
    pub row_struct_name: Option<String>,
}

pub struct SqlxModel {
    pub code: Seq<char>,
    pub is_async: bool,
    pub needs_row_struct: bool,
    pub row_struct_name: Option<Seq<char>>,
}

impl View for SqlxCode {
    type V = SqlxModel;

    open spec fn view(&self) -> SqlxModel {
        SqlxModel {
            code: self.code@,
            is_async: self.is_async,
            needs_row_struct: self.needs_row_struct,
            row_struct_name: opt_str(self.row_struct_name),
        }
    }
}

/// Code that needs no row struct.
pub open spec fn plain(code: Seq<char>, is_async: bool) -> SqlxModel {
    SqlxModel { code, is_async, needs_row_struct: false, row_struct_name: None }
}

pub open spec fn rust_vars(ss: Seq<Seq<char>>) -> Seq<Seq<char>> {
    ss.map_values(|s: Seq<char>| rust_var(s))
}

/// ` WHERE cond` with host variables numbered from `start`, or nothing.
pub open spec fn where_sql(w: Option<Seq<char>>) -> Seq<char> {
    match w {
        Some(w) => " WHERE "@ + numbered(w, 1),
        None => Seq::empty(),
    }
}

/// The Rust names of the host variables of an optional condition.
pub open spec fn where_vars(w: Option<Seq<char>>) -> Seq<Seq<char>> {
    match w {
        Some(w) => rust_vars(host_vars(w)),
        None => Seq::empty(),
    }
}

/// Extra macro arguments: nothing, or `,\n    ` and the names joined by it.
pub open spec fn params_str(vars: Seq<Seq<char>>) -> Seq<char> {
    if vars.len() == 0 {
        Seq::empty()
    } else {
        ",\n    "@ + join(vars, ",\n    "@)
    }
}

/// What one column name becomes as a field: its (Unicode) lower-case mapping with `(` as
/// `_`, `)` dropped and `*` as `star`.
pub open spec fn col_ident(c: Seq<char>) -> Seq<char> {
    ident_chars(unicode_lower(c))
}

/// `(` as `_`, `)` dropped, `*` as `star`, other characters kept.
pub open spec fn ident_chars(c: Seq<char>) -> Seq<char>
    decreases c.len(),
{
    if c.len() == 0 {
        Seq::empty()
    } else {
        let x = c.last();
        ident_chars(c.drop_last()) + (if x == '(' {
            seq!['_']
        } else if x == ')' {
            Seq::empty()
        } else if x == '*' {
            "star"@
        } else {
            seq![x]
        })
    }
}

/// `let var = row.col;` for each pair of INTO variable and column, as far as both go.
pub open spec fn select_bindings(vars: Seq<Seq<char>>, cols: Seq<Seq<char>>) -> Seq<Seq<char>> {
    Seq::new(
        if vars.len() <= cols.len() {
            vars.len()
        } else {
            cols.len()
        },
        |k: int| "let "@ + rust_var(vars[k]) + " = row."@ + col_ident(cols[k]) + ";"@,
    )
}

/// `"SELECT cols FROM table[ WHERE ...]"[, params]`
pub open spec fn select_query(sel: SelectModel) -> Seq<char> {
    "\"SELECT "@ + join(sel.columns, ", "@) + " FROM "@ + sel.table + where_sql(sel.where_clause)
        + "\""@ + params_str(where_vars(sel.where_clause))
}

pub open spec fn spec_select_code(sel: SelectModel) -> SqlxModel {
    let b = select_bindings(sel.into_vars, sel.columns);
    if sel.into_vars.len() == 1 {
        plain(
            "let "@ + rust_var(sel.into_vars[0]) + ": _ = sqlx::query_scalar!("@ + select_query(sel)
                + ").fetch_one(&pool).await?;\n"@ + b[0],
            true,
        )
    } else {
        plain(
            "let row = sqlx::query!("@ + select_query(sel) + ").fetch_one(&pool).await?;\n"@ + join(
                b,
                "\n"@,
            ),
            true,
        )
    }
}

/// The generator indexes the first binding of a one-variable SELECT, and numbers host
/// variables in a `usize`.
pub open spec fn select_code_ok(sel: SelectModel) -> bool {
    &&& (sel.into_vars.len() == 1 ==> sel.columns.len() >= 1)
    &&& (sel.where_clause matches Some(w) ==> w.len() < usize::MAX)
}

pub proof fn lemma_param_count_bound(s: Seq<char>, any_case: bool)
    ensures
        param_count(s, any_case) <= s.len(),
    decreases s.len(),
{
    if s.len() > 0 {
        if host_var_at(s, any_case) {
            lemma_tail_len_bound(s.skip(2), any_case);
            lemma_param_count_bound(s.skip(host_var_len(s, any_case)), any_case);
        } else {
            lemma_param_count_bound(s.drop_first(), any_case);
        }
    }
}

proof fn lemma_count_skips_prefix(p: Seq<char>, r: Seq<char>)
    requires
        !p.contains(':'),
    ensures
        param_count(p + r, true) == param_count(r, true),
    decreases p.len(),
{
    if p.len() > 0 {
        assert((p + r)[0] == p[0]);
        assert((p + r).drop_first() =~= p.drop_first() + r);
        assert(!p.drop_first().contains(':')) by {
            if p.drop_first().contains(':') {
                let k = choose|k: int| 0 <= k < p.drop_first().len() && p.drop_first()[k] == ':';
                assert(p[k + 1] == ':');
            }
        }
        lemma_count_skips_prefix(p.drop_first(), r);
    } else {
        assert(p + r =~= r);
    }
}

proof fn lemma_decimal_no_colon(n: nat)
    ensures
        !decimal(n).contains(':'),
    decreases n,
{
    if n >= 10 {
        lemma_decimal_no_colon(n / 10);
        let d = decimal(n / 10).push(crate::text::digit_char(n % 10));
        assert forall|k: int| 0 <= k < d.len() implies d[k] != ':' by {
            if k < d.len() - 1 {
                assert(d[k] == decimal(n / 10)[k]);
            }
        }
    }
}

proof fn lemma_numbered_no_host_var(s: Seq<char>, n: nat)
    ensures
        param_count(numbered(s, n), true) == 0,
        numbered(s, n).len() > 0 ==> !letter(numbered(s, n)[0]) || (s.len() > 0 && numbered(s, n)[0]
            == s[0] && !host_var_at(s, true)),
    decreases s.len(),
{
    if s.len() > 0 {
        if host_var_at(s, true) {
            lemma_tail_len_bound(s.skip(2), true);
            let rest = s.skip(host_var_len(s, true));
            lemma_numbered_no_host_var(rest, n + 1);
            let o = numbered(s, n);
            let tail = decimal(n) + numbered(rest, n + 1);
            assert(o =~= seq!['$'] + tail);
            assert(o.drop_first() =~= tail);
            lemma_decimal_no_colon(n);
            lemma_count_skips_prefix(decimal(n), numbered(rest, n + 1));
        } else {
            let rest = s.drop_first();
            lemma_numbered_no_host_var(rest, n);
            let o = numbered(s, n);
            let r = numbered(rest, n);
            assert(o =~= seq![s[0]] + r);
            assert(o.drop_first() =~= r);
            if s[0] == ':' && r.len() > 0 {
                assert(s.len() >= 2);
                assert(!letter(s[1]));
                if host_var_at(rest, true) {
                    assert(r[0] == '$');
                } else {
                    assert(rest[0] == s[1]);
                }
                assert(!letter(r[0]));
            }
        }
    }
}

/// After numbering, no host variable reference is left: each `:NAME` became `$n`, and
/// no `:` of the result is followed by a letter.
pub proof fn lemma_no_host_var_left(sql: Seq<char>, start_at: nat)
    ensures
        param_count(numbered(sql, start_at), true) == 0,
        host_vars(numbered(sql, start_at)).len() == 0,
{
    lemma_numbered_no_host_var(sql, start_at);
    lemma_host_vars_len(numbered(sql, start_at));
}

proof fn lemma_host_vars_len(s: Seq<char>)
    ensures
        host_vars(s).len() == param_count(s, true),
    decreases s.len(),
{
    if s.len() > 0 {
        if host_var_at(s, true) {
            lemma_tail_len_bound(s.skip(2), true);
            lemma_host_vars_len(s.skip(host_var_len(s, true)));
        } else {
            lemma_host_vars_len(s.drop_first());
        }
    }
}

/// The Rust names of a list of COBOL names.
fn rust_vars_exec(v: &Vec<String>) -> (res: Vec<String>)
    ensures
        strs(res@) == rust_vars(strs(v@)),
{
    let mut res: Vec<String> = Vec::new();
    let mut i: usize = 0;
    while i < v.len()
        invariant
            i <= v@.len(),
            strs(res@) =~= rust_vars(strs(v@)).take(i as int),
        decreases v@.len() - i,
    {
        let r = to_rust_var(v[i].as_str());
        let ghost r0 = strs(res@);
        res.push(r);
        proof {
            assert(strs(res@) =~= r0.push(r@));
            assert(rust_vars(strs(v@)).take(i + 1) =~= rust_vars(strs(v@)).take(i as int).push(rust_var(v@[i as int]@)));
        }
        i = i + 1;
    }
    proof {
        assert(rust_vars(strs(v@)).take(v@.len() as int) =~= rust_vars(strs(v@)));
    }
    res
}

/// ` WHERE ...` and the Rust names of its host variables.
fn where_parts(w: &Option<String>) -> (r: (String, Vec<String>))
    requires
        w matches Some(w) ==> w@.len() < usize::MAX,
    ensures
        r.0@ == where_sql(opt_str(*w)),
        strs(r.1@) == where_vars(opt_str(*w)),
{
    match w {
        Some(w) => {
            proof {
                lemma_param_count_bound(w@, true);
            }
            let mut s = String::new();
            s.append(" WHERE ");
            let p = replace_cobol_params(w.as_str(), 1);
            s.append(p.as_str());
            let vars = extract_cobol_vars(w.as_str());
            (s, rust_vars_exec(&vars))
        },
        None => {
            proof {
                assert(rust_vars(Seq::<Seq<char>>::empty()) =~= Seq::<Seq<char>>::empty());
            }
            (String::new(), Vec::new())
        },
    }
}

fn params_str_exec(vars: &Vec<String>) -> (r: String)
    ensures
        r@ == params_str(strs(vars@)),
{
    let mut s = String::new();
    if vars.len() > 0 {
        s.append(",\n    ");
        let j = join_exec(vars, ",\n    ");
        s.append(j.as_str());
    }
    s
}

fn col_ident_exec(c: &str) -> (r: String)
    ensures
        r@ == col_ident(c@),
{
    let low = to_lowercase_string(c);
    let v = str_chars(low.as_str());
    let mut r = String::new();
    let mut i: usize = 0;
    while i < v.len()
        invariant
            i <= v@.len(),
            r@ == ident_chars(v@.take(i as int)),
        decreases v@.len() - i,
    {
        let x = v[i];
        proof {
            assert(v@.take(i + 1).drop_last() =~= v@.take(i as int));
        }
        if x == '(' {
            push_char(&mut r, '_');
        } else if x == ')' {
        } else if x == '*' {
            r.append("star");
        } else {
            push_char(&mut r, x);
        }
        proof {
            assert(r@ =~= ident_chars(v@.take(i + 1)));
        }
        i = i + 1;
    }
    proof {
        assert(v@.take(v@.len() as int) =~= v@);
    }
    r
}

fn select_bindings_exec(vars: &Vec<String>, cols: &Vec<String>) -> (r: Vec<String>)
    ensures
        strs(r@) == select_bindings(strs(vars@), strs(cols@)),
{
    let n = if vars.len() <= cols.len() {
        vars.len()
    } else {
        cols.len()
    };
    let mut r: Vec<String> = Vec::new();
    let mut i: usize = 0;
    while i < n
        invariant
            n <= vars@.len(),
            n <= cols@.len(),
            i <= n,
            n == select_bindings(strs(vars@), strs(cols@)).len(),
            strs(r@) =~= select_bindings(strs(vars@), strs(cols@)).take(i as int),
        decreases n - i,
    {
        let mut s = String::new();
        s.append("let ");
        let rv = to_rust_var(vars[i].as_str());
        s.append(rv.as_str());
        s.append(" = row.");
        let ci = col_ident_exec(cols[i].as_str());
        s.append(ci.as_str());
        s.append(";");
        let ghost r0 = strs(r@);
        r.push(s);
        proof {
            let b = select_bindings(strs(vars@), strs(cols@));
            assert(strs(r@) =~= r0.push(s@));
            assert(b[i as int] =~= s@);
            assert(b.take(i + 1) =~= b.take(i as int).push(b[i as int]));
        }
        i = i + 1;
    }
    proof {
        let b = select_bindings(strs(vars@), strs(cols@));
        assert(b.take(n as int) =~= b);
    }
    r
}

fn select_query_exec(sel: &SqlSelect) -> (r: String)
    requires
        sel.where_clause matches Some(w) ==> w@.len() < usize::MAX,
    ensures
        r@ == select_query(sel@),
{
    let (wsql, wvars) = where_parts(&sel.where_clause);
    let mut s = String::new();
    s.append("\"SELECT ");
    let cols = join_exec(&sel.columns, ", ");
    s.append(cols.as_str());
    s.append(" FROM ");
    s.append(sel.table.as_str());
    s.append(wsql.as_str());
    s.append("\"");
    let ps = params_str_exec(&wvars);
    s.append(ps.as_str());
    s
}

/// Code for a SELECT INTO: `query_scalar!` for one variable, `query!` otherwise.
pub fn generate_select(sel: &SqlSelect) -> (r: SqlxCode)
    requires
        select_code_ok(sel@),
    ensures
        r@ == spec_select_code(sel@),
{
    let q = select_query_exec(sel);
    let b = select_bindings_exec(&sel.into_vars, &sel.columns);
    let mut code = String::new();
    if sel.into_vars.len() == 1 {
        code.append("let ");
        let rv = to_rust_var(sel.into_vars[0].as_str());
        code.append(rv.as_str());
        code.append(": _ = sqlx::query_scalar!(");
        code.append(q.as_str());
        code.append(").fetch_one(&pool).await?;\n");
        code.append(b[0].as_str());
    } else {
        code.append("let row = sqlx::query!(");
        code.append(q.as_str());
        code.append(").fetch_one(&pool).await?;\n");
        let j = join_exec(&b, "\n");
        code.append(j.as_str());
    }
    SqlxCode { code, is_async: true, needs_row_struct: false, row_struct_name: None }
}

} // verus!

verus! {

/// `$from`, `$from+1`, ... (`n` of them).
pub open spec fn placeholders(n: nat, from: nat) -> Seq<Seq<char>> {
    Seq::new(n, |k: int| "$"@ + decimal((from + k) as nat))
}

/// The condition of an UPDATE or DELETE, `1=1` when there is none.
pub open spec fn cond_or_true(w: Option<Seq<char>>) -> Seq<char> {
    match w {
        Some(w) => w,
        None => "1=1"@,
    }
}

pub open spec fn set_parts(sc: Seq<(Seq<char>, Seq<char>)>) -> Seq<Seq<char>> {
    Seq::new(sc.len(), |k: int| trim(sc[k].0) + " = $"@ + decimal((k + 1) as nat))
}

pub open spec fn set_params(sc: Seq<(Seq<char>, Seq<char>)>) -> Seq<Seq<char>> {
    Seq::new(sc.len(), |k: int| rust_var(sc[k].1))
}

pub open spec fn fetch_bindings(vars: Seq<Seq<char>>) -> Seq<Seq<char>> {
    Seq::new(vars.len(), |k: int| "let "@ + rust_var(vars[k]) + " = row."@ + decimal(k as nat) + ";"@)
}

pub open spec fn condition_text(c: SqlWheneverCondition) -> Seq<char> {
    match c {
        SqlWheneverCondition::NotFound => "sqlx::Error::RowNotFound"@,
        SqlWheneverCondition::SqlError => "sqlx::Error"@,
        SqlWheneverCondition::SqlWarning => "// SQLWARNING"@,
    }
}

/// What `generate_sqlx` gives for a statement.
pub open spec fn spec_sqlx(m: SqlModel) -> SqlxModel {
    match m {
        SqlModel::Select(sel) => spec_select_code(sel),
        SqlModel::Insert { table, columns, values } => plain(
            "sqlx::query!(\n    \"INSERT INTO "@ + table + " ("@ + join(columns, ", "@) + ") VALUES ("@
                + join(placeholders(values.len(), 1), ", "@) + ")\",\n    "@ + join(
                rust_vars(values),
                ",\n    "@,
            ) + "\n).execute(&pool).await?;"@,
            true,
        ),
        SqlModel::Update { table, set_clauses, where_clause } => {
            let wc = cond_or_true(where_clause);
            plain(
                "sqlx::query!(\n    \"UPDATE "@ + table + " SET "@ + join(set_parts(set_clauses), ", "@)
                    + " WHERE "@ + numbered(wc, set_clauses.len() + 1) + "\",\n    "@ + join(
                    set_params(set_clauses) + rust_vars(host_vars(wc)),
                    ",\n    "@,
                ) + "\n).execute(&pool).await?;"@,
                true,
            )
        },
        SqlModel::Delete { table, where_clause } => {
            let wc = cond_or_true(where_clause);
            plain(
                "sqlx::query!(\"DELETE FROM "@ + table + " WHERE "@ + numbered(wc, 1) + "\""@
                    + params_str(rust_vars(host_vars(wc))) + ").execute(&pool).await?;"@,
                true,
            )
        },
        SqlModel::DeclareCursor { cursor_name, select } => plain(
            "let mut "@ + rust_var(cursor_name) + " = sqlx::query!("@ + select_query(select)
                + ").fetch(&pool);"@,
            true,
        ),
        SqlModel::OpenCursor(_) => plain(
            "// OPEN cursor: cursor was already prepared via sqlx query builder"@,
            false,
        ),
        SqlModel::FetchCursor { cursor_name, into_vars } => plain(
            "if let Some(row) = "@ + rust_var(cursor_name) + ".try_next().await? {\n    "@ + join(
                fetch_bindings(into_vars),
                "\n    "@,
            ) + "\n}"@,
            true,
        ),
        SqlModel::CloseCursor(name) => plain("drop("@ + rust_var(name) + ");"@, false),
        SqlModel::Commit => plain("tx.commit().await?;"@, true),
        SqlModel::Rollback => plain("tx.rollback().await?;"@, true),
        SqlModel::Whenever { condition, action } => {
            let c = condition_text(condition);
            match action {
                ActionModel::GoTo(label) => plain(
                    "// WHENEVER "@ + c + " GOTO "@ + rust_var(label) + " → handle in match/if-let"@,
                    false,
                ),
                ActionModel::Continue => plain(
                    "// WHENEVER "@ + c + ": if err matches "@ + c + " "@ + "{ /* continue */ }"@,
                    false,
                ),
                ActionModel::Stop => plain(
                    "// WHENEVER "@ + c + ": if err matches "@ + c + " "@
                        + "{ std::process::exit(1); }"@,
                    false,
                ),
            }
        },
        SqlModel::Unknown(raw) => plain("// EXEC SQL (unrecognized): "@ + raw, false),
    }
}

/// The inputs `generate_sqlx` handles without panicking: the first binding of a
/// one-variable SELECT exists, and host-variable numbers fit in a `usize`.
pub open spec fn sqlx_ok(m: SqlModel) -> bool {
    match m {
        SqlModel::Select(sel) => select_code_ok(sel),
        SqlModel::Update { set_clauses, where_clause, .. } => set_clauses.len() + 1 + cond_or_true(
            where_clause,
        ).len() < usize::MAX,
        SqlModel::Delete { where_clause, .. } => cond_or_true(where_clause).len() < usize::MAX,
        SqlModel::DeclareCursor { select, .. } => select.where_clause matches Some(w) ==> w.len()
            < usize::MAX,
        _ => true,
    }
}

fn placeholders_exec(n: usize) -> (r: Vec<String>)
    ensures
        strs(r@) == placeholders(n as nat, 1),
{
    let mut r: Vec<String> = Vec::new();
    let mut i: usize = 0;
    while i < n
        invariant
            i <= n,
            strs(r@) =~= placeholders(n as nat, 1).take(i as int),
        decreases n - i,
    {
        let mut s = String::new();
        s.append("$");
        push_decimal(&mut s, i + 1);
        let ghost r0 = strs(r@);
        r.push(s);
        proof {
            let p = placeholders(n as nat, 1);
            assert(strs(r@) =~= r0.push(s@));
            assert(p[i as int] =~= s@);
            assert(p.take(i + 1) =~= p.take(i as int).push(p[i as int]));
        }
        i = i + 1;
    }
    proof {
        let p = placeholders(n as nat, 1);
        assert(p.take(n as int) =~= p);
    }
    r
}

fn set_parts_exec(sc: &Vec<(String, String)>) -> (r: (Vec<String>, Vec<String>))
    ensures
        strs(r.0@) == set_parts(crate::exec_sql::pairs_view(sc@)),
        strs(r.1@) == set_params(crate::exec_sql::pairs_view(sc@)),
{
    let ghost pv = crate::exec_sql::pairs_view(sc@);
    let mut parts: Vec<String> = Vec::new();
    let mut params: Vec<String> = Vec::new();
    let mut i: usize = 0;
    while i < sc.len()
        invariant
            i <= sc@.len(),
            pv == crate::exec_sql::pairs_view(sc@),
            strs(parts@) =~= set_parts(pv).take(i as int),
            strs(params@) =~= set_params(pv).take(i as int),
        decreases sc@.len() - i,
    {
        let col = str_chars(sc[i].0.as_str());
        let mut s = crate::text::trimmed_string(&col, 0, col.len());
        proof {
            assert(col@.subrange(0, col@.len() as int) =~= col@);
        }
        s.append(" = $");
        push_decimal(&mut s, i + 1);
        let p = to_rust_var(sc[i].1.as_str());
        let ghost r0 = strs(parts@);
        let ghost q0 = strs(params@);
        parts.push(s);
        params.push(p);
        proof {
            assert(strs(parts@) =~= r0.push(s@));
            assert(strs(params@) =~= q0.push(p@));
            assert(set_parts(pv)[i as int] =~= s@);
            assert(set_parts(pv).take(i + 1) =~= set_parts(pv).take(i as int).push(s@));
            assert(set_params(pv).take(i + 1) =~= set_params(pv).take(i as int).push(p@));
        }
        i = i + 1;
    }
    proof {
        assert(set_parts(pv).take(sc@.len() as int) =~= set_parts(pv));
        assert(set_params(pv).take(sc@.len() as int) =~= set_params(pv));
    }
    (parts, params)
}

fn fetch_bindings_exec(vars: &Vec<String>) -> (r: Vec<String>)
    ensures
        strs(r@) == fetch_bindings(strs(vars@)),
{
    let mut r: Vec<String> = Vec::new();
    let mut i: usize = 0;
    while i < vars.len()
        invariant
            i <= vars@.len(),
            strs(r@) =~= fetch_bindings(strs(vars@)).take(i as int),
        decreases vars@.len() - i,
    {
        let mut s = String::new();
        s.append("let ");
        let rv = to_rust_var(vars[i].as_str());
        s.append(rv.as_str());
        s.append(" = row.");
        push_decimal(&mut s, i);
        s.append(";");
        let ghost r0 = strs(r@);
        r.push(s);
        proof {
            let b = fetch_bindings(strs(vars@));
            assert(strs(r@) =~= r0.push(s@));
            assert(b[i as int] =~= s@);
            assert(b.take(i + 1) =~= b.take(i as int).push(b[i as int]));
        }
        i = i + 1;
    }
    proof {
        let b = fetch_bindings(strs(vars@));
        assert(b.take(vars@.len() as int) =~= b);
    }
    r
}

fn condition_text_exec(c: SqlWheneverCondition) -> (r: &'static str)
    ensures
        r@ == condition_text(c),
{
    match c {
        SqlWheneverCondition::NotFound => "sqlx::Error::RowNotFound",
        SqlWheneverCondition::SqlError => "sqlx::Error",
        SqlWheneverCondition::SqlWarning => "// SQLWARNING",
    }
}

/// The condition of an UPDATE or DELETE, `1=1` when there is none.
fn cond_or_true_exec(w: &Option<String>) -> (r: String)
    ensures
        r@ == cond_or_true(opt_str(*w)),
{
    match w {
        Some(w) => w.clone(),
        None => String::from_str("1=1"),
    }
}

/// Generate Rust sqlx code for an EXEC SQL statement.
pub fn generate_sqlx(stmt: &ExecSqlStatement) -> (r: SqlxCode)
    requires
        sqlx_ok(stmt@),
    ensures
        r@ == spec_sqlx(stmt@),
{
    match stmt {
        ExecSqlStatement::Select(sel) => generate_select(sel),
        ExecSqlStatement::Insert(ins) => {
            let params = rust_vars_exec(&ins.values);
            let ph = placeholders_exec(ins.values.len());
            let mut code = String::new();
            code.append("sqlx::query!(\n    \"INSERT INTO ");
            code.append(ins.table.as_str());
            code.append(" (");
            let cols = join_exec(&ins.columns, ", ");
            code.append(cols.as_str());
            code.append(") VALUES (");
            let vals = join_exec(&ph, ", ");
            code.append(vals.as_str());
            code.append(")\",\n    ");
            let ps = join_exec(&params, ",\n    ");
            code.append(ps.as_str());
            code.append("\n).execute(&pool).await?;");
            SqlxCode { code, is_async: true, needs_row_struct: false, row_struct_name: None }
        },
        ExecSqlStatement::Update(upd) => {
            let (parts, mut params) = set_parts_exec(&upd.set_clauses);
            let wc = cond_or_true_exec(&upd.where_clause);
            let off = upd.set_clauses.len() + 1;
            proof {
                lemma_param_count_bound(wc@, true);
            }
            let wsql = replace_cobol_params(wc.as_str(), off);
            let wv = extract_cobol_vars(wc.as_str());
            let mut wvars = rust_vars_exec(&wv);
            let ghost p0 = strs(params@);
            let ghost w0 = strs(wvars@);
            params.append(&mut wvars);
            proof {
                assert(strs(params@) =~= p0 + w0);
            }
            let mut code = String::new();
            code.append("sqlx::query!(\n    \"UPDATE ");
            code.append(upd.table.as_str());
            code.append(" SET ");
            let sp = join_exec(&parts, ", ");
            code.append(sp.as_str());
            code.append(" WHERE ");
            code.append(wsql.as_str());
            code.append("\",\n    ");
            let ap = join_exec(&params, ",\n    ");
            code.append(ap.as_str());
            code.append("\n).execute(&pool).await?;");
            SqlxCode { code, is_async: true, needs_row_struct: false, row_struct_name: None }
        },
        ExecSqlStatement::Delete(del) => {
            let wc = cond_or_true_exec(&del.where_clause);
            proof {
                lemma_param_count_bound(wc@, true);
            }
            let wsql = replace_cobol_params(wc.as_str(), 1);
            let wv = extract_cobol_vars(wc.as_str());
            let wvars = rust_vars_exec(&wv);
            let ps = params_str_exec(&wvars);
            let mut code = String::new();
            code.append("sqlx::query!(\"DELETE FROM ");
            code.append(del.table.as_str());
            code.append(" WHERE ");
            code.append(wsql.as_str());
            code.append("\"");
            code.append(ps.as_str());
            code.append(").execute(&pool).await?;");
            SqlxCode { code, is_async: true, needs_row_struct: false, row_struct_name: None }
        },
        ExecSqlStatement::DeclareCursor(dc) => {
            let q = select_query_exec(&dc.select);
            let cv = to_rust_var(dc.cursor_name.as_str());
            let mut code = String::new();
            code.append("let mut ");
            code.append(cv.as_str());
            code.append(" = sqlx::query!(");
            code.append(q.as_str());
            code.append(").fetch(&pool);");
            SqlxCode { code, is_async: true, needs_row_struct: false, row_struct_name: None }
        },
        ExecSqlStatement::OpenCursor(_) => SqlxCode {
            code: String::from_str("// OPEN cursor: cursor was already prepared via sqlx query builder"),
            is_async: false,
            needs_row_struct: false,
            row_struct_name: None,
        },
        ExecSqlStatement::FetchCursor(fetch) => {
            let cv = to_rust_var(fetch.cursor_name.as_str());
            let b = fetch_bindings_exec(&fetch.into_vars);
            let mut code = String::new();
            code.append("if let Some(row) = ");
            code.append(cv.as_str());
            code.append(".try_next().await? {\n    ");
            let j = join_exec(&b, "\n    ");
            code.append(j.as_str());
            code.append("\n}");
            SqlxCode { code, is_async: true, needs_row_struct: false, row_struct_name: None }
        },
        ExecSqlStatement::CloseCursor(name) => {
            let cv = to_rust_var(name.as_str());
            let mut code = String::new();
            code.append("drop(");
            code.append(cv.as_str());
            code.append(");");
            SqlxCode { code, is_async: false, needs_row_struct: false, row_struct_name: None }
        },
        ExecSqlStatement::Commit => SqlxCode {
            code: String::from_str("tx.commit().await?;"),
            is_async: true,
            needs_row_struct: false,
            row_struct_name: None,
        },
        ExecSqlStatement::Rollback => SqlxCode {
            code: String::from_str("tx.rollback().await?;"),
            is_async: true,
            needs_row_struct: false,
            row_struct_name: None,
        },
        ExecSqlStatement::Whenever(w) => {
            let c = condition_text_exec(w.condition);
            let mut code = String::new();
            code.append("// WHENEVER ");
            code.append(c);
            match &w.action {
                SqlWheneverAction::GoTo(label) => {
                    code.append(" GOTO ");
                    let l = to_rust_var(label.as_str());
                    code.append(l.as_str());
                    code.append(" → handle in match/if-let");
                },
                SqlWheneverAction::Continue => {
                    code.append(": if err matches ");
                    code.append(c);
                    code.append(" ");
                    code.append("{ /* continue */ }");
                },
                SqlWheneverAction::Stop => {
                    code.append(": if err matches ");
                    code.append(c);
                    code.append(" ");
                    code.append("{ std::process::exit(1); }");
                },
            }
            SqlxCode { code, is_async: false, needs_row_struct: false, row_struct_name: None }
        },
        ExecSqlStatement::Unknown(raw) => {
            let mut code = String::new();
            code.append("// EXEC SQL (unrecognized): ");
            code.append(raw.as_str());
            SqlxCode { code, is_async: false, needs_row_struct: false, row_struct_name: None }
        },
    }
}

// ---------------------------------------------------------------------------
// Placeholder numbering
// ---------------------------------------------------------------------------

/// Length of the run of digits at the start of `s`.
pub open spec fn digit_run(s: Seq<char>) -> nat
    decreases s.len(),
{
    if s.len() > 0 && is_digit(s[0]) {
        1 + digit_run(s.drop_first())
    } else {
        0
    }
}

/// The `$n` placeholders of `s`, in order, each given by the digits after its `$`.
pub open spec fn dollar_numbers(s: Seq<char>) -> Seq<Seq<char>>
    decreases s.len(),
{
    if s.len() == 0 {
        Seq::empty()
    } else if s[0] == '$' {
        seq![s.drop_first().take(digit_run(s.drop_first()) as int)] + dollar_numbers(s.drop_first())
    } else {
        dollar_numbers(s.drop_first())
    }
}

/// `b` does not continue a run of digits.
pub open spec fn no_digit_start(b: Seq<char>) -> bool {
    b.len() == 0 || !is_digit(b[0])
}

proof fn lemma_digit_run_concat(a: Seq<char>, b: Seq<char>)
    requires
        no_digit_start(b),
    ensures
        digit_run(a) <= a.len(),
        digit_run(a + b) == digit_run(a),
        (forall|k: int| 0 <= k < a.len() ==> is_digit(#[trigger] a[k])) ==> digit_run(a) == a.len(),
    decreases a.len(),
{
    if a.len() == 0 {
        assert(a + b =~= b);
    } else {
        assert((a + b).drop_first() =~= a.drop_first() + b);
        assert((a + b)[0] == a[0]);
        lemma_digit_run_concat(a.drop_first(), b);
        if forall|k: int| 0 <= k < a.len() ==> is_digit(#[trigger] a[k]) {
            assert forall|k: int| 0 <= k < a.drop_first().len() implies is_digit(
                #[trigger] a.drop_first()[k],
            ) by {
                assert(a.drop_first()[k] == a[k + 1]);
            }
        }
    }
}

/// Text without `$` holds no placeholder, and does not change those that follow it.
proof fn lemma_dollars_skip(a: Seq<char>, b: Seq<char>)
    requires
        !a.contains('$'),
    ensures
        dollar_numbers(a + b) == dollar_numbers(b),
    decreases a.len(),
{
    if a.len() == 0 {
        assert(a + b =~= b);
    } else {
        assert((a + b)[0] == a[0]);
        assert((a + b).drop_first() =~= a.drop_first() + b);
        assert(!a.drop_first().contains('$')) by {
            if a.drop_first().contains('$') {
                let k = choose|k: int| 0 <= k < a.drop_first().len() && a.drop_first()[k] == '$';
                assert(a[k + 1] == '$');
            }
        }
        lemma_dollars_skip(a.drop_first(), b);
    }
}

/// The placeholders of `a + b` are those of `a`, then those of `b`, when `b` does not
/// start with a digit.
proof fn lemma_dollars_concat(a: Seq<char>, b: Seq<char>)
    requires
        no_digit_start(b),
    ensures
        dollar_numbers(a + b) == dollar_numbers(a) + dollar_numbers(b),
    decreases a.len(),
{
    if a.len() == 0 {
        assert(a + b =~= b);
        assert(dollar_numbers(a) + dollar_numbers(b) =~= dollar_numbers(b));
    } else {
        let a1 = a.drop_first();
        assert((a + b)[0] == a[0]);
        assert((a + b).drop_first() =~= a1 + b);
        lemma_dollars_concat(a1, b);
        if a[0] == '$' {
            lemma_digit_run_concat(a1, b);
            assert((a1 + b).take(digit_run(a1) as int) =~= a1.take(digit_run(a1) as int));
            assert(dollar_numbers(a + b) =~= dollar_numbers(a) + dollar_numbers(b));
        }
    }
}

/// `$n` followed by text that does not start with a digit is the placeholder `n`.
proof fn lemma_dollars_placeholder(n: nat, b: Seq<char>)
    requires
        no_digit_start(b),
    ensures
        dollar_numbers(seq!['$'] + decimal(n) + b) == seq![decimal(n)] + dollar_numbers(b),
{
    let s = seq!['$'] + decimal(n) + b;
    lemma_decimal_digits(n);
    lemma_digit_run_concat(decimal(n), b);
    assert(s[0] == '$');
    assert(s.drop_first() =~= decimal(n) + b);
    assert((decimal(n) + b).take(decimal(n).len() as int) =~= decimal(n));
    lemma_dollars_skip(decimal(n), b);
}

proof fn lemma_tail_len_max(t: Seq<char>, any_case: bool)
    ensures
        tail_len(t, any_case) < t.len() ==> !name_tail(t[tail_len(t, any_case) as int], any_case),
    decreases t.len(),
{
    if t.len() > 0 && name_tail(t[0], any_case) {
        lemma_tail_len_max(t.drop_first(), any_case);
        if tail_len(t, any_case) < t.len() {
            assert(t[tail_len(t, any_case) as int] == t.drop_first()[tail_len(
                t.drop_first(),
                any_case,
            ) as int]);
        }
    }
}

proof fn lemma_skip_no(s: Seq<char>, i: int, c: char)
    requires
        0 <= i <= s.len(),
        !s.contains(c),
    ensures
        !s.skip(i).contains(c),
{
    if s.skip(i).contains(c) {
        let k = choose|k: int| 0 <= k < s.skip(i).len() && s.skip(i)[k] == c;
        assert(s[i + k] == c);
    }
}

/// Numbering from `from` gives the placeholders `from`, `from + 1`, ... one per host
/// variable, in order.
#[verifier::spinoff_prover]
pub proof fn lemma_numbered_placeholders(s: Seq<char>, from: nat)
    requires
        !s.contains('$'),
    ensures
        dollar_numbers(numbered(s, from)) == Seq::new(
            host_vars(s).len(),
            |k: int| decimal((from + k) as nat),
        ),
        numbered(s, from).len() > 0 ==> numbered(s, from)[0] == '$' || numbered(s, from)[0]
            == s[0],
    decreases s.len(),
{
    lemma_host_vars_len(s);
    if s.len() > 0 {
        if host_var_at(s, true) {
            lemma_tail_len_bound(s.skip(2), true);
            lemma_tail_len_max(s.skip(2), true);
            let h = host_var_len(s, true);
            let rest = s.skip(h);
            lemma_skip_no(s, h, '$');
            lemma_numbered_placeholders(rest, from + 1);
            lemma_host_vars_len(rest);
            let nr = numbered(rest, from + 1);
            assert(no_digit_start(nr)) by {
                if nr.len() > 0 && nr[0] != '$' {
                    assert(rest[0] == s.skip(2)[tail_len(s.skip(2), true) as int]);
                }
            }
            lemma_dollars_placeholder(from, nr);
            assert(dollar_numbers(numbered(s, from)) =~= Seq::new(
                host_vars(s).len(),
                |k: int| decimal((from + k) as nat),
            ));
        } else {
            let rest = s.drop_first();
            lemma_skip_no(s, 1, '$');
            assert(rest =~= s.skip(1));
            lemma_numbered_placeholders(rest, from);
            lemma_host_vars_len(rest);
            assert(!seq![s[0]].contains('$')) by {
                if seq![s[0]].contains('$') {
                    assert(seq![s[0]][0] == '$');
                }
            }
            lemma_dollars_skip(seq![s[0]], numbered(rest, from));
        }
    }
}

proof fn lemma_trim_no(c: Seq<char>, ch: char)
    requires
        !c.contains(ch),
    ensures
        !trim(c).contains(ch),
{
    crate::text::lemma_lead_ws_bound(c);
    let t = crate::text::trim_start(c);
    crate::text::lemma_trail_ws_bound(t);
    if trim(c).contains(ch) {
        let k = choose|k: int| 0 <= k < trim(c).len() && trim(c)[k] == ch;
        assert(trim(c)[k] == c[crate::text::lead_ws(c) + k]);
    }
}

/// The SET list `c1 = $1, c2 = $2, ...` holds the placeholders `1..n` in order.
#[verifier::spinoff_prover]
proof fn lemma_set_part_placeholders(sc: Seq<(Seq<char>, Seq<char>)>)
    requires
        forall|k: int| 0 <= k < sc.len() ==> !(#[trigger] sc[k]).0.contains('$'),
    ensures
        dollar_numbers(join(set_parts(sc), ", "@)) == Seq::new(
            sc.len(),
            |k: int| decimal((k + 1) as nat),
        ),
    decreases sc.len(),
{
    reveal_strlit(", ");
    reveal_strlit(" = $");
    reveal_strlit(" = ");
    let ps = set_parts(sc);
    if sc.len() > 0 {
        let last = sc.len() - 1;
        let p = ps[last];
        assert(p == trim(sc[last].0) + " = $"@ + decimal((last + 1) as nat));
        lemma_trim_no(sc[last].0, '$');
        assert(" = $"@ =~= " = "@ + seq!['$']);
        assert(p =~= (trim(sc[last].0) + " = "@) + (seq!['$'] + decimal((last + 1) as nat)
            + Seq::<char>::empty()));
        assert(!(trim(sc[last].0) + " = "@).contains('$')) by {
            let a = trim(sc[last].0) + " = "@;
            if a.contains('$') {
                let k = choose|k: int| 0 <= k < a.len() && a[k] == '$';
                if k >= trim(sc[last].0).len() {
                    assert(" = "@[k - trim(sc[last].0).len()] == '$');
                } else {
                    assert(trim(sc[last].0)[k] == '$');
                }
            }
        }
        lemma_dollars_skip(
            trim(sc[last].0) + " = "@,
            seq!['$'] + decimal((last + 1) as nat) + Seq::<char>::empty(),
        );
        lemma_dollars_placeholder((last + 1) as nat, Seq::<char>::empty());
        assert(dollar_numbers(p) =~= seq![decimal((last + 1) as nat)]);
        if sc.len() == 1 {
            assert(join(ps, ", "@) == p);
        } else {
            let sc0 = sc.drop_last();
            assert(set_parts(sc0) =~= ps.drop_last());
            assert forall|k: int| 0 <= k < sc0.len() implies !(#[trigger] sc0[k]).0.contains('$') by {
                assert(sc0[k] == sc[k]);
            }
            lemma_set_part_placeholders(sc0);
            let j0 = join(ps.drop_last(), ", "@);
            assert(join(ps, ", "@) == j0 + ", "@ + p);
            assert(j0 + ", "@ + p =~= j0 + (", "@ + p));
            lemma_dollars_concat(j0, ", "@ + p);
            assert(!", "@.contains('$')) by {
                if ", "@.contains('$') {
                    let k = choose|k: int| 0 <= k < 2 && ", "@[k] == '$';
                }
            }
            lemma_dollars_skip(", "@, p);
        }
        assert(dollar_numbers(join(ps, ", "@)) =~= Seq::new(
            sc.len(),
            |k: int| decimal((k + 1) as nat),
        ));
    } else {
        assert(dollar_numbers(join(ps, ", "@)) =~= Seq::new(
            sc.len(),
            |k: int| decimal((k + 1) as nat),
        ));
    }
}

/// In the UPDATE that `generate_sqlx` writes, the SQL holds the placeholders `$1`, `$2`, ...
/// once each and in order: the `n` SET clauses take `$1..$n`, and the k-th host variable of
/// the WHERE condition (`1=1` when there is none) takes `$(n + k + 1)`. The i-th argument
/// of the macro is the variable bound to the i-th placeholder: the SET values first, then
/// the WHERE host variables, each in order.
#[verifier::spinoff_prover]
pub proof fn lemma_update_placeholders(
    table: Seq<char>,
    set_clauses: Seq<(Seq<char>, Seq<char>)>,
    where_clause: Option<Seq<char>>,
) -> (r: (Seq<char>, Seq<char>, Seq<Seq<char>>))
    requires
        !table.contains('$'),
        forall|k: int| 0 <= k < set_clauses.len() ==> !(#[trigger] set_clauses[k]).0.contains('$'),
        where_clause matches Some(w) ==> !w.contains('$'),
    ensures
        spec_sqlx(SqlModel::Update { table, set_clauses, where_clause }).code == "sqlx::query!(\n    \"UPDATE "@
            + r.0 + " WHERE "@ + r.1 + "\",\n    "@ + join(r.2, ",\n    "@)
            + "\n).execute(&pool).await?;"@,
        dollar_numbers(r.0) == Seq::new(set_clauses.len(), |i: int| decimal((i + 1) as nat)),
        dollar_numbers(r.1) == Seq::new(
            host_vars(cond_or_true(where_clause)).len(),
            |k: int| decimal((set_clauses.len() + k + 1) as nat),
        ),
        dollar_numbers(r.0 + " WHERE "@ + r.1) == Seq::new(
            set_clauses.len() + host_vars(cond_or_true(where_clause)).len(),
            |i: int| decimal((i + 1) as nat),
        ),
        r.2.len() == set_clauses.len() + host_vars(cond_or_true(where_clause)).len(),
        forall|i: int| 0 <= i < set_clauses.len() ==> r.2[i] == rust_var(set_clauses[i].1),
        forall|k: int|
            0 <= k < host_vars(cond_or_true(where_clause)).len() ==> r.2[set_clauses.len() + k]
                == rust_var(host_vars(cond_or_true(where_clause))[k]),
{
    let n = set_clauses.len();
    let wc = cond_or_true(where_clause);
    reveal_strlit("1=1");
    reveal_strlit(" SET ");
    reveal_strlit(" WHERE ");
    assert(!wc.contains('$')) by {
        if where_clause is None && wc.contains('$') {
            let k = choose|k: int| 0 <= k < 3 && wc[k] == '$';
        }
    }
    let pre = table + " SET "@ + join(set_parts(set_clauses), ", "@);
    let w = numbered(wc, (n + 1) as nat);
    let args = set_params(set_clauses) + rust_vars(host_vars(wc));
    lemma_set_part_placeholders(set_clauses);
    lemma_numbered_placeholders(wc, (n + 1) as nat);
    let ts = table + " SET "@;
    assert(!ts.contains('$')) by {
        if ts.contains('$') {
            let k = choose|k: int| 0 <= k < ts.len() && ts[k] == '$';
            if k >= table.len() {
                assert(" SET "@[k - table.len()] == '$');
            } else {
                assert(table[k] == '$');
            }
        }
    }
    lemma_dollars_skip(ts, join(set_parts(set_clauses), ", "@));
    assert(pre =~= ts + join(set_parts(set_clauses), ", "@));
    let wh = " WHERE "@;
    assert(!wh.contains('$')) by {
        if wh.contains('$') {
            let k = choose|k: int| 0 <= k < wh.len() && wh[k] == '$';
        }
    }
    lemma_dollars_skip(wh, w);
    lemma_dollars_concat(pre, wh + w);
    assert(pre + wh + w =~= pre + (wh + w));
    assert(dollar_numbers(pre + wh + w) =~= Seq::new(
        n + host_vars(wc).len(),
        |i: int| decimal((i + 1) as nat),
    ));
    reveal_strlit("sqlx::query!(\n    \"UPDATE ");
    assert(spec_sqlx(SqlModel::Update { table, set_clauses, where_clause }).code =~= "sqlx::query!(\n    \"UPDATE "@
        + pre + " WHERE "@ + w + "\",\n    "@ + join(args, ",\n    "@)
        + "\n).execute(&pool).await?;"@);
    (pre, w, args)
}

proof fn lemma_no_char_concat(a: Seq<char>, b: Seq<char>, c: char)
    requires
        !a.contains(c),
        !b.contains(c),
    ensures
        !(a + b).contains(c),
{
    if (a + b).contains(c) {
        let k = choose|k: int| 0 <= k < (a + b).len() && (a + b)[k] == c;
        if k < a.len() {
            assert(a[k] == c);
        } else {
            assert(b[k - a.len()] == c);
        }
    }
}

proof fn lemma_join_no_char(ss: Seq<Seq<char>>, sep: Seq<char>, c: char)
    requires
        forall|k: int| 0 <= k < ss.len() ==> !(#[trigger] ss[k]).contains(c),
        !sep.contains(c),
    ensures
        !join(ss, sep).contains(c),
    decreases ss.len(),
{
    if ss.len() == 1 {
        assert(!ss[0].contains(c));
    } else if ss.len() > 1 {
        let s0 = ss.drop_last();
        assert forall|k: int| 0 <= k < s0.len() implies !(#[trigger] s0[k]).contains(c) by {
            assert(s0[k] == ss[k]);
        }
        lemma_join_no_char(s0, sep, c);
        assert(!ss.last().contains(c));
        lemma_no_char_concat(join(s0, sep), sep, c);
        lemma_no_char_concat(join(s0, sep) + sep, ss.last(), c);
    } else {
        assert(!join(ss, sep).contains(c));
    }
}

/// The list `$from, $from+1, ...` holds those placeholders in order.
proof fn lemma_placeholder_list(n: nat, from: nat)
    ensures
        dollar_numbers(join(placeholders(n, from), ", "@)) == Seq::new(
            n,
            |k: int| decimal((from + k) as nat),
        ),
    decreases n,
{
    reveal_strlit(", ");
    reveal_strlit("$");
    let ps = placeholders(n, from);
    if n > 0 {
        let last = n - 1;
        let p = ps[last];
        assert(p =~= seq!['$'] + decimal((from + last) as nat) + Seq::<char>::empty());
        lemma_dollars_placeholder((from + last) as nat, Seq::<char>::empty());
        assert(dollar_numbers(p) =~= seq![decimal((from + last) as nat)]);
        if n > 1 {
            assert(placeholders((n - 1) as nat, from) =~= ps.drop_last());
            lemma_placeholder_list((n - 1) as nat, from);
            let j0 = join(ps.drop_last(), ", "@);
            assert(join(ps, ", "@) == j0 + ", "@ + p);
            assert(j0 + ", "@ + p =~= j0 + (", "@ + p));
            lemma_dollars_concat(j0, ", "@ + p);
            assert(!", "@.contains('$')) by {
                if ", "@.contains('$') {
                    let k = choose|k: int| 0 <= k < 2 && ", "@[k] == '$';
                }
            }
            lemma_dollars_skip(", "@, p);
        }
    }
    assert(dollar_numbers(join(ps, ", "@)) =~= Seq::new(n, |k: int| decimal((from + k) as nat)));
}

/// In the INSERT that `generate_sqlx` writes, the SQL holds the placeholders `$1`, `$2`,
/// ... once each and in order, one per value, and the i-th argument of the macro is the
/// i-th value, the one bound to `$(i + 1)`.
#[verifier::spinoff_prover]
pub proof fn lemma_insert_placeholders(
    table: Seq<char>,
    columns: Seq<Seq<char>>,
    values: Seq<Seq<char>>,
) -> (r: (Seq<char>, Seq<Seq<char>>))
    requires
        !table.contains('$'),
        forall|k: int| 0 <= k < columns.len() ==> !(#[trigger] columns[k]).contains('$'),
    ensures
        spec_sqlx(SqlModel::Insert { table, columns, values }).code == "sqlx::query!(\n    \"INSERT INTO "@
            + r.0 + "\",\n    "@ + join(r.1, ",\n    "@) + "\n).execute(&pool).await?;"@,
        dollar_numbers(r.0) == Seq::new(values.len(), |i: int| decimal((i + 1) as nat)),
        r.1.len() == values.len(),
        forall|i: int| 0 <= i < values.len() ==> r.1[i] == rust_var(values[i]),
{
    reveal_strlit(" (");
    reveal_strlit(", ");
    reveal_strlit(") VALUES (");
    reveal_strlit(")");
    reveal_strlit(")\",\n    ");
    reveal_strlit("\",\n    ");
    let jp = join(placeholders(values.len(), 1), ", "@);
    let a = table + " ("@ + join(columns, ", "@) + ") VALUES ("@;
    let sql = a + jp + ")"@;
    lemma_join_no_char(columns, ", "@, '$');
    let lits = " ("@ + join(columns, ", "@) + ") VALUES ("@;
    assert(!" ("@.contains('$')) by {
        if " ("@.contains('$') {
            let k = choose|k: int| 0 <= k < 2 && " ("@[k] == '$';
        }
    }
    assert(!") VALUES ("@.contains('$')) by {
        if ") VALUES ("@.contains('$') {
            let k = choose|k: int| 0 <= k < 10 && ") VALUES ("@[k] == '$';
        }
    }
    lemma_no_char_concat(" ("@, join(columns, ", "@), '$');
    lemma_no_char_concat(" ("@ + join(columns, ", "@), ") VALUES ("@, '$');
    lemma_no_char_concat(table, lits, '$');
    assert(a =~= table + lits);
    lemma_dollars_skip(a, jp + ")"@);
    lemma_dollars_concat(jp, ")"@);
    assert(!")"@.contains('$')) by {
        if ")"@.contains('$') {
            assert(")"@[0] == '$');
        }
    }
    lemma_dollars_skip(")"@, Seq::<char>::empty());
    assert(")"@ + Seq::<char>::empty() =~= ")"@);
    lemma_placeholder_list(values.len(), 1);
    assert(sql =~= a + (jp + ")"@));
    assert(dollar_numbers(sql) =~= Seq::new(values.len(), |i: int| decimal((i + 1) as nat)));
    reveal_strlit("sqlx::query!(\n    \"INSERT INTO ");
    assert(")\",\n    "@ =~= ")"@ + "\",\n    "@);
    assert(spec_sqlx(SqlModel::Insert { table, columns, values }).code =~= "sqlx::query!(\n    \"INSERT INTO "@
        + sql + "\",\n    "@ + join(rust_vars(values), ",\n    "@)
        + "\n).execute(&pool).await?;"@);
    (sql, rust_vars(values))
}

/// In the DELETE that `generate_sqlx` writes, the host variables of the condition (`1=1`
/// when there is none) become `$1`, `$2`, ... in order, and the macro's arguments after
/// the SQL are those variables in the same order.
pub proof fn lemma_delete_placeholders(table: Seq<char>, where_clause: Option<Seq<char>>) -> (r: Seq<
    char,
>)
    requires
        !table.contains('$'),
        where_clause matches Some(w) ==> !w.contains('$'),
    ensures
        spec_sqlx(SqlModel::Delete { table, where_clause }).code == "sqlx::query!(\"DELETE FROM "@
            + table + " WHERE "@ + r + "\""@ + params_str(
            rust_vars(host_vars(cond_or_true(where_clause))),
        ) + ").execute(&pool).await?;"@,
        dollar_numbers(r) == Seq::new(
            host_vars(cond_or_true(where_clause)).len(),
            |k: int| decimal((k + 1) as nat),
        ),
{
    let wc = cond_or_true(where_clause);
    reveal_strlit("1=1");
    assert(!wc.contains('$')) by {
        if where_clause is None && wc.contains('$') {
            let k = choose|k: int| 0 <= k < 3 && wc[k] == '$';
        }
    }
    lemma_numbered_placeholders(wc, 1);
    assert(Seq::new(host_vars(wc).len(), |k: int| decimal((1 + k) as nat)) =~= Seq::new(
        host_vars(wc).len(),
        |k: int| decimal((k + 1) as nat),
    ));
    numbered(wc, 1)
}

/// In a SELECT, the host variables of the WHERE condition become `$1`, `$2`, ... in order,
/// and the macro's arguments after the SQL are those variables in the same order.
pub proof fn lemma_select_placeholders(sel: SelectModel) -> (r: Seq<char>)
    requires
        sel.where_clause matches Some(w) ==> !w.contains('$'),
    ensures
        select_query(sel) == "\"SELECT "@ + join(sel.columns, ", "@) + " FROM "@ + sel.table + r
            + "\""@ + params_str(where_vars(sel.where_clause)),
        dollar_numbers(r) == Seq::new(
            where_vars(sel.where_clause).len(),
            |k: int| decimal((k + 1) as nat),
        ),
{
    let r = where_sql(sel.where_clause);
    match sel.where_clause {
        Some(w) => {
            reveal_strlit(" WHERE ");
            lemma_numbered_placeholders(w, 1);
            let wh = " WHERE "@;
            assert(!wh.contains('$')) by {
                if wh.contains('$') {
                    let k = choose|k: int| 0 <= k < wh.len() && wh[k] == '$';
                }
            }
            lemma_dollars_skip(wh, numbered(w, 1));
            assert(Seq::new(host_vars(w).len(), |k: int| decimal((1 + k) as nat)) =~= Seq::new(
                where_vars(sel.where_clause).len(),
                |k: int| decimal((k + 1) as nat),
            ));
        },
        None => {
            assert(dollar_numbers(r) =~= Seq::new(
                where_vars(sel.where_clause).len(),
                |k: int| decimal((k + 1) as nat),
            ));
        },
    }
    r
}

/// After a SELECT ... INTO, the k-th INTO variable is bound to the k-th selected column
/// of the row, for as many pairs as both lists have.
pub proof fn lemma_select_binds_in_order(sel: SelectModel, k: int)
    requires
        0 <= k < sel.into_vars.len(),
        k < sel.columns.len(),
    ensures
        occurs_in(
            "let "@ + rust_var(sel.into_vars[k]) + " = row."@ + col_ident(sel.columns[k]) + ";"@,
            spec_select_code(sel).code,
        ),
{
    let b = select_bindings(sel.into_vars, sel.columns);
    let code = spec_select_code(sel).code;
    let p = "let "@ + rust_var(sel.into_vars[k]) + " = row."@ + col_ident(sel.columns[k]) + ";"@;
    assert(b[k] == p);
    if sel.into_vars.len() == 1 {
        let pre = "let "@ + rust_var(sel.into_vars[0]) + ": _ = sqlx::query_scalar!("@ + select_query(
            sel,
        ) + ").fetch_one(&pool).await?;\n"@;
        assert(code =~= pre + p + Seq::<char>::empty());
        crate::text::lemma_occurs_between(pre, p, Seq::empty());
    } else {
        let (a, c) = crate::text::lemma_join_split(b, "\n"@, k);
        let pre = "let row = sqlx::query!("@ + select_query(sel) + ").fetch_one(&pool).await?;\n"@;
        assert(code =~= (pre + a) + p + c);
        crate::text::lemma_occurs_between(pre + a, p, c);
    }
}

/// A FETCH binds the k-th INTO variable to the k-th field of the fetched row.
pub proof fn lemma_fetch_binds_in_order(cursor_name: Seq<char>, into_vars: Seq<Seq<char>>, k: int)
    requires
        0 <= k < into_vars.len(),
    ensures
        occurs_in(
            "let "@ + rust_var(into_vars[k]) + " = row."@ + decimal(k as nat) + ";"@,
            spec_sqlx(SqlModel::FetchCursor { cursor_name, into_vars }).code,
        ),
{
    let b = fetch_bindings(into_vars);
    let p = "let "@ + rust_var(into_vars[k]) + " = row."@ + decimal(k as nat) + ";"@;
    assert(b[k] == p);
    let (a, c) = crate::text::lemma_join_split(b, "\n    "@, k);
    let pre = "if let Some(row) = "@ + rust_var(cursor_name) + ".try_next().await? {\n    "@;
    assert(spec_sqlx(SqlModel::FetchCursor { cursor_name, into_vars }).code =~= (pre + a) + p + (c
        + "\n}"@));
    crate::text::lemma_occurs_between(pre + a, p, c + "\n}"@);
}

/// A WHENEVER directive becomes a comment that names its condition as an sqlx error and
/// its action: the label to go to, a `continue`, or an exit with status 1.
pub proof fn lemma_whenever_actions(condition: SqlWheneverCondition, action: ActionModel)
    ensures
        occurs_in(condition_text(condition), spec_sqlx(SqlModel::Whenever { condition, action }).code),
        action matches ActionModel::GoTo(label) ==> occurs_in(
            " GOTO "@ + rust_var(label),
            spec_sqlx(SqlModel::Whenever { condition, action }).code,
        ),
        action is Continue ==> occurs_in(
            "{ /* continue */ }"@,
            spec_sqlx(SqlModel::Whenever { condition, action }).code,
        ),
        action is Stop ==> occurs_in(
            "{ std::process::exit(1); }"@,
            spec_sqlx(SqlModel::Whenever { condition, action }).code,
        ),
        !spec_sqlx(SqlModel::Whenever { condition, action }).is_async,
{
    let c = condition_text(condition);
    let code = spec_sqlx(SqlModel::Whenever { condition, action }).code;
    let h = "// WHENEVER "@;
    match action {
        ActionModel::GoTo(label) => {
            let g = " GOTO "@ + rust_var(label);
            let t = " → handle in match/if-let"@;
            assert(code =~= h + c + (g + t));
            crate::text::lemma_occurs_between(h, c, g + t);
            assert(code =~= (h + c) + g + t);
            crate::text::lemma_occurs_between(h + c, g, t);
        },
        ActionModel::Continue => {
            let rest = ": if err matches "@ + c + " "@ + "{ /* continue */ }"@;
            assert(code =~= h + c + rest);
            crate::text::lemma_occurs_between(h, c, rest);
            let p = h + c + ": if err matches "@ + c + " "@;
            assert(code =~= p + "{ /* continue */ }"@ + Seq::<char>::empty());
            crate::text::lemma_occurs_between(p, "{ /* continue */ }"@, Seq::empty());
        },
        ActionModel::Stop => {
            let rest = ": if err matches "@ + c + " "@ + "{ std::process::exit(1); }"@;
            assert(code =~= h + c + rest);
            crate::text::lemma_occurs_between(h, c, rest);
            let p = h + c + ": if err matches "@ + c + " "@;
            assert(code =~= p + "{ std::process::exit(1); }"@ + Seq::<char>::empty());
            crate::text::lemma_occurs_between(p, "{ std::process::exit(1); }"@, Seq::empty());
        },
    }
}

/// A DECLARE CURSOR binds the cursor's Rust name to the SELECT query's row stream.
pub proof fn lemma_declare_cursor_streams(cursor_name: Seq<char>, select: SelectModel)
    ensures
        spec_sqlx(SqlModel::DeclareCursor { cursor_name, select }).code == "let mut "@ + rust_var(
            cursor_name,
        ) + " = sqlx::query!("@ + select_query(select) + ").fetch(&pool);"@,
        occurs_in(select_query(select), spec_sqlx(SqlModel::DeclareCursor { cursor_name, select }).code),
{
    let p = "let mut "@ + rust_var(cursor_name) + " = sqlx::query!("@;
    let t = ").fetch(&pool);"@;
    assert(spec_sqlx(SqlModel::DeclareCursor { cursor_name, select }).code =~= p + select_query(
        select,
    ) + t);
    crate::text::lemma_occurs_between(p, select_query(select), t);
}

} // verus!
