//! `EXEC SQL ... END-EXEC` statements embedded in COBOL programs.
//!
//! Positions are counted in characters; keywords are matched against the
//! ASCII upper case of the text.
use vstd::prelude::*;

use crate::text::{
    contains, equals_exec, lemma_upper_len, find, find_upper, find_chars, lemma_found,
    list_items, list_items_exec, pieces_of, push_char, push_chars, skip_char_backward, skip_char_forward, trim_end_char, split_bounds, split_char,
    starts_with, starts_with_exec, str_chars, string_of, strs, sub_vec, trim, trim_bounds,
    trim_start_char, trimmed_string, upper, upper_vec, matches_at,
};
use crate::types::{
    ExecSqlStatement, SqlDeclareCursor, SqlDelete, SqlFetch, SqlInsert, SqlSelect, SqlUpdate,
    SqlWhenever, SqlWheneverAction, SqlWheneverCondition,
};

verus! {

// ---------------------------------------------------------------------------
// Models
// ---------------------------------------------------------------------------

pub open spec fn opt_str(o: Option<String>) -> Option<Seq<char>> {
    match o {
        Some(s) => Some(s@),
        None => None,
    }
}

pub struct SelectModel {
    pub columns: Seq<Seq<char>>,
    pub into_vars: Seq<Seq<char>>,
    pub table: Seq<char>,
    pub where_clause: Option<Seq<char>>,
}

pub enum ActionModel {
    Continue,
    Stop,
    GoTo(Seq<char>),
}

pub enum SqlModel {
    Select(SelectModel),
    Insert { table: Seq<char>, columns: Seq<Seq<char>>, values: Seq<Seq<char>> },
    Update {
        table: Seq<char>,
        set_clauses: Seq<(Seq<char>, Seq<char>)>,
        where_clause: Option<Seq<char>>,
    },
    Delete { table: Seq<char>, where_clause: Option<Seq<char>> },
    DeclareCursor { cursor_name: Seq<char>, select: SelectModel },
    OpenCursor(Seq<char>),
    FetchCursor { cursor_name: Seq<char>, into_vars: Seq<Seq<char>> },
    CloseCursor(Seq<char>),
    Commit,
    Rollback,
    Whenever { condition: SqlWheneverCondition, action: ActionModel },
    Unknown(Seq<char>),
}

impl View for SqlSelect {
    type V = SelectModel;

    open spec fn view(&self) -> SelectModel {
        SelectModel {
            columns: strs(self.columns@),
            into_vars: strs(self.into_vars@),
            table: self.table@,
            where_clause: opt_str(self.where_clause),
        }
    }
}

impl View for SqlWheneverAction {
    type V = ActionModel;

    open spec fn view(&self) -> ActionModel {
        match self {
            SqlWheneverAction::Continue => ActionModel::Continue,
            SqlWheneverAction::Stop => ActionModel::Stop,
            SqlWheneverAction::GoTo(l) => ActionModel::GoTo(l@),
        }
    }
}

pub open spec fn pairs_view(v: Seq<(String, String)>) -> Seq<(Seq<char>, Seq<char>)> {
    v.map_values(|p: (String, String)| (p.0@, p.1@))
}

impl View for ExecSqlStatement {
    type V = SqlModel;

    open spec fn view(&self) -> SqlModel {
        match self {
            ExecSqlStatement::Select(s) => SqlModel::Select(s@),
            ExecSqlStatement::Insert(i) => SqlModel::Insert {
                table: i.table@,
                columns: strs(i.columns@),
                values: strs(i.values@),
            },
            ExecSqlStatement::Update(u) => SqlModel::Update {
                table: u.table@,
                set_clauses: pairs_view(u.set_clauses@),
                where_clause: opt_str(u.where_clause),
            },
            ExecSqlStatement::Delete(d) => SqlModel::Delete {
                table: d.table@,
                where_clause: opt_str(d.where_clause),
            },
            ExecSqlStatement::DeclareCursor(d) => SqlModel::DeclareCursor {
                cursor_name: d.cursor_name@,
                select: d.select@,
            },
            ExecSqlStatement::OpenCursor(n) => SqlModel::OpenCursor(n@),
            ExecSqlStatement::FetchCursor(f) => SqlModel::FetchCursor {
                cursor_name: f.cursor_name@,
                into_vars: strs(f.into_vars@),
            },
            ExecSqlStatement::CloseCursor(n) => SqlModel::CloseCursor(n@),
            ExecSqlStatement::Commit => SqlModel::Commit,
            ExecSqlStatement::Rollback => SqlModel::Rollback,
            ExecSqlStatement::Whenever(w) => SqlModel::Whenever {
                condition: w.condition,
                action: w.action@,
            },
            ExecSqlStatement::Unknown(s) => SqlModel::Unknown(s@),
        }
    }
}

// ---------------------------------------------------------------------------
// Specification of each statement form
// ---------------------------------------------------------------------------

/// The table before an optional ` WHERE ` in `after`.
pub open spec fn table_part(after: Seq<char>) -> Seq<char> {
    match find(upper(after), " WHERE "@) {
        Some(wp) => trim(after.take(wp)),
        None => trim(after),
    }
}

/// The condition after ` WHERE ` in `after`, if there is one.
pub open spec fn where_part(after: Seq<char>) -> Option<Seq<char>> {
    match find(upper(after), " WHERE "@) {
        Some(wp) => Some(trim(after.skip(wp + 7))),
        None => None,
    }
}

/// `SELECT cols INTO vars FROM table [WHERE cond]`; the columns start after the first
/// seven characters.
pub open spec fn spec_select(sql: Seq<char>) -> Option<SelectModel> {
    match find(upper(sql), " INTO "@) {
        None => None,
        Some(ip) => match find(upper(sql), " FROM "@) {
            None => None,
            Some(fp) => Some(
                SelectModel {
                    columns: list_items(sql.subrange(7, ip), false),
                    into_vars: list_items(sql.subrange(ip + 6, fp), true),
                    table: table_part(sql.skip(fp + 6)),
                    where_clause: where_part(sql.skip(fp + 6)),
                },
            ),
        },
    }
}

/// The SELECT parser's slices are in order (it panics otherwise).
pub open spec fn select_ok(sql: Seq<char>) -> bool {
    match (find(upper(sql), " INTO "@), find(upper(sql), " FROM "@)) {
        (Some(ip), Some(fp)) => 7 <= ip && ip + 6 <= fp,
        _ => true,
    }
}

pub open spec fn spec_insert(sql: Seq<char>) -> Option<SqlModel> {
    let up = upper(sql);
    match find(up, " INTO "@) {
        None => None,
        Some(ip0) => match find(up, "("@) {
            None => None,
            Some(pp) => match find(up, ")"@) {
                None => None,
                Some(cp) => match find(up, "VALUES"@) {
                    None => None,
                    Some(vp) => match find(upper(sql.skip(vp)), "("@) {
                        None => None,
                        Some(vo0) => match find(upper(sql.skip(vo0 + vp)), ")"@) {
                            None => None,
                            Some(vc0) => Some(
                                SqlModel::Insert {
                                    table: trim(sql.subrange(ip0 + 6, pp)),
                                    columns: list_items(sql.subrange(pp + 1, cp), false),
                                    values: list_items(
                                        sql.subrange(vo0 + vp + 1, vc0 + vo0 + vp),
                                        true,
                                    ),
                                },
                            ),
                        },
                    },
                },
            },
        },
    }
}

pub open spec fn insert_ok(sql: Seq<char>) -> bool {
    let up = upper(sql);
    match (find(up, " INTO "@), find(up, "("@)) {
        (Some(ip0), Some(pp)) => ip0 + 6 <= pp && (find(up, ")"@) matches Some(cp) ==> pp + 1
            <= cp),
        _ => true,
    }
}

/// One `col = :var` clause of an UPDATE; `None` when it has no `=`.
pub open spec fn set_clause(c: Seq<char>) -> Option<(Seq<char>, Seq<char>)> {
    match find(c, "="@) {
        None => None,
        Some(eq) => Some((trim(c.take(eq)), trim_start_char(trim(c.skip(eq + 1)), ':'))),
    }
}

pub open spec fn set_list(ps: Seq<Seq<char>>) -> Seq<(Seq<char>, Seq<char>)>
    decreases ps.len(),
{
    if ps.len() == 0 {
        Seq::empty()
    } else {
        let init = set_list(ps.drop_last());
        match set_clause(ps.last()) {
            Some(p) => init.push(p),
            None => init,
        }
    }
}

pub open spec fn spec_update(sql: Seq<char>) -> Option<SqlModel> {
    match find(upper(sql), " SET "@) {
        None => None,
        Some(sp) => {
            let after = sql.skip(sp + 5);
            let set_str = match find(upper(after), " WHERE "@) {
                Some(wp) => after.take(wp),
                None => after,
            };
            Some(
                SqlModel::Update {
                    table: trim(sql.subrange(7, sp)),
                    set_clauses: set_list(split_char(set_str, ',')),
                    where_clause: where_part(after),
                },
            )
        },
    }
}

pub open spec fn update_ok(sql: Seq<char>) -> bool {
    find(upper(sql), " SET "@) matches Some(sp) ==> 7 <= sp
}

pub open spec fn spec_delete(sql: Seq<char>) -> Option<SqlModel> {
    match find(upper(sql), " FROM "@) {
        None => None,
        Some(fp) => Some(
            SqlModel::Delete {
                table: table_part(sql.skip(fp + 6)),
                where_clause: where_part(sql.skip(fp + 6)),
            },
        ),
    }
}

pub open spec fn spec_declare(sql: Seq<char>) -> Option<SqlModel> {
    match find(upper(sql), " CURSOR FOR "@) {
        None => None,
        Some(cp) => match spec_select(sql.skip(cp + 12)) {
            None => None,
            Some(sel) => Some(
                SqlModel::DeclareCursor { cursor_name: trim(sql.subrange(8, cp)), select: sel },
            ),
        },
    }
}

pub open spec fn declare_ok(sql: Seq<char>) -> bool {
    find(upper(sql), " CURSOR FOR "@) matches Some(cp) ==> 8 <= cp && select_ok(
        sql.skip(cp + 12),
    )
}

pub open spec fn spec_fetch(sql: Seq<char>) -> Option<SqlModel> {
    match find(upper(sql), " INTO "@) {
        None => None,
        Some(ip) => Some(
            SqlModel::FetchCursor {
                cursor_name: trim(sql.subrange(6, ip)),
                into_vars: list_items(sql.skip(ip + 6), true),
            },
        ),
    }
}

pub open spec fn fetch_ok(sql: Seq<char>) -> bool {
    find(upper(sql), " INTO "@) matches Some(ip) ==> 6 <= ip
}

pub open spec fn spec_condition(up: Seq<char>) -> Option<SqlWheneverCondition> {
    if contains(up, "NOT FOUND"@) {
        Some(SqlWheneverCondition::NotFound)
    } else if contains(up, "SQLERROR"@) {
        Some(SqlWheneverCondition::SqlError)
    } else if contains(up, "SQLWARNING"@) {
        Some(SqlWheneverCondition::SqlWarning)
    } else {
        None
    }
}

/// The action of a WHENEVER: `GOTO label` or `GO TO label` (the label is the rest of the
/// text), else `CONTINUE`, else `STOP`. The jump is looked for first, so that a label
/// holding one of the other words does not decide the action.
pub open spec fn spec_action(sql: Seq<char>) -> Option<ActionModel> {
    let up = upper(sql);
    match find(up, "GOTO"@) {
        Some(g) => Some(ActionModel::GoTo(trim(sql.skip(g + 4)))),
        None => match find(up, "GO TO"@) {
            Some(g) => Some(ActionModel::GoTo(trim(sql.skip(g + 5)))),
            None => if contains(up, "CONTINUE"@) {
                Some(ActionModel::Continue)
            } else if contains(up, "STOP"@) {
                Some(ActionModel::Stop)
            } else {
                None
            },
        },
    }
}

pub open spec fn spec_whenever(sql: Seq<char>) -> Option<SqlModel> {
    match (spec_condition(upper(sql)), spec_action(sql)) {
        (Some(c), Some(a)) => Some(SqlModel::Whenever { condition: c, action: a }),
        _ => None,
    }
}

pub open spec fn or_unknown(o: Option<SqlModel>, sql: Seq<char>) -> SqlModel {
    match o {
        Some(m) => m,
        None => SqlModel::Unknown(sql),
    }
}

/// What `parse_exec_sql` gives for `sql`.
pub open spec fn spec_exec_sql(sql: Seq<char>) -> SqlModel {
    let t = trim(upper(sql));
    if starts_with(t, "SELECT"@) {
        match spec_select(sql) {
            Some(s) => SqlModel::Select(s),
            None => SqlModel::Unknown(sql),
        }
    } else if starts_with(t, "INSERT"@) {
        or_unknown(spec_insert(sql), sql)
    } else if starts_with(t, "UPDATE"@) {
        or_unknown(spec_update(sql), sql)
    } else if starts_with(t, "DELETE"@) {
        or_unknown(spec_delete(sql), sql)
    } else if starts_with(t, "DECLARE"@) {
        or_unknown(spec_declare(sql), sql)
    } else if starts_with(t, "OPEN"@) {
        SqlModel::OpenCursor(trim(sql.skip(5)))
    } else if starts_with(t, "FETCH"@) {
        or_unknown(spec_fetch(sql), sql)
    } else if starts_with(t, "CLOSE"@) {
        SqlModel::CloseCursor(trim(sql.skip(6)))
    } else if t == "COMMIT"@ || starts_with(t, "COMMIT "@) {
        SqlModel::Commit
    } else if t == "ROLLBACK"@ || starts_with(t, "ROLLBACK "@) {
        SqlModel::Rollback
    } else if starts_with(t, "WHENEVER"@) {
        or_unknown(spec_whenever(sql), sql)
    } else {
        SqlModel::Unknown(sql)
    }
}

/// The inputs on which `parse_exec_sql` does not slice out of order (the slicing
/// at fixed offsets panics otherwise).
pub open spec fn exec_sql_ok(sql: Seq<char>) -> bool {
    let t = trim(upper(sql));
    if starts_with(t, "SELECT"@) {
        select_ok(sql)
    } else if starts_with(t, "INSERT"@) {
        insert_ok(sql)
    } else if starts_with(t, "UPDATE"@) {
        update_ok(sql)
    } else if starts_with(t, "DELETE"@) {
        true
    } else if starts_with(t, "DECLARE"@) {
        declare_ok(sql)
    } else if starts_with(t, "OPEN"@) {
        sql.len() >= 5
    } else if starts_with(t, "FETCH"@) {
        fetch_ok(sql)
    } else if starts_with(t, "CLOSE"@) {
        sql.len() >= 6
    } else {
        true
    }
}

} // verus!

verus! {

// ---------------------------------------------------------------------------
// Parsers
// ---------------------------------------------------------------------------

pub open spec fn opt_select(r: Option<SqlSelect>) -> Option<SelectModel> {
    match r {
        Some(s) => Some(s@),
        None => None,
    }
}

pub open spec fn opt_model(r: Option<ExecSqlStatement>) -> Option<SqlModel> {
    match r {
        Some(s) => Some(s@),
        None => None,
    }
}

/// Table and optional WHERE condition of `v[start..]`.
fn where_split(v: &Vec<char>, start: usize) -> (res: (String, Option<String>))
    requires
        start <= v@.len(),
    ensures
        res.0@ == table_part(v@.skip(start as int)),
        opt_str(res.1) == where_part(v@.skip(start as int)),
{
    let after = sub_vec(v, start, v.len());
    proof {
        assert(after@ =~= v@.skip(start as int));
    }
    match find_upper(&after, " WHERE ") {
        Some(w) => {
            proof {
                reveal_strlit(" WHERE ");
                lemma_found(upper(after@), " WHERE "@, w as int);
                assert(after@.take(w as int) =~= after@.subrange(0, w as int));
                assert(after@.skip(w + 7) =~= after@.subrange(w + 7, after@.len() as int));
            }
            let t = trimmed_string(&after, 0, w);
            let c = trimmed_string(&after, w + 7, after.len());
            (t, Some(c))
        },
        None => {
            proof {
                assert(after@ =~= after@.subrange(0, after@.len() as int));
            }
            (trimmed_string(&after, 0, after.len()), None)
        },
    }
}

/// SELECT on the characters of `v`.
fn select_chars(v: &Vec<char>) -> (r: Option<SqlSelect>)
    requires
        select_ok(v@),
    ensures
        opt_select(r) == spec_select(v@),
{
    let ip = match find_upper(v, " INTO ") {
        Some(i) => i,
        None => return None,
    };
    let fp = match find_upper(v, " FROM ") {
        Some(f) => f,
        None => return None,
    };
    proof {
        reveal_strlit(" INTO ");
        reveal_strlit(" FROM ");
        lemma_found(upper(v@), " INTO "@, ip as int);
        lemma_found(upper(v@), " FROM "@, fp as int);
        lemma_upper_len(v@);
    }
    let columns = list_items_exec(v, 7, ip, false);
    let into_vars = list_items_exec(v, ip + 6, fp, true);
    let vl = v.len();
    assert(fp + 6 <= vl);
    let (table, where_clause) = where_split(v, fp + 6);
    Some(SqlSelect { columns, into_vars, table, where_clause })
}

/// Parse: `SELECT col [, col...] INTO :var [, :var...] FROM table [WHERE cond]`.
pub fn parse_select(sql: &str) -> (r: Option<ExecSqlStatement>)
    requires
        select_ok(sql@),
    ensures
        opt_model(r) == (match spec_select(sql@) {
            Some(s) => Some(SqlModel::Select(s)),
            None => None,
        }),
{
    let v = str_chars(sql);
    match select_chars(&v) {
        Some(s) => Some(ExecSqlStatement::Select(s)),
        None => None,
    }
}

/// Parse: `INSERT INTO table (col1, col2) VALUES (:var1, :var2)`.
pub fn parse_insert(sql: &str) -> (r: Option<ExecSqlStatement>)
    requires
        insert_ok(sql@),
    ensures
        opt_model(r) == spec_insert(sql@),
{
    let v = str_chars(sql);
    let ip0 = match find_upper(&v, " INTO ") {
        Some(i) => i,
        None => return None,
    };
    let pp = match find_upper(&v, "(") {
        Some(i) => i,
        None => return None,
    };
    proof {
        reveal_strlit(" INTO ");
        reveal_strlit("(");
        reveal_strlit(")");
        reveal_strlit("VALUES");
        lemma_found(upper(v@), " INTO "@, ip0 as int);
        lemma_found(upper(v@), "("@, pp as int);
    }
    let table = trimmed_string(&v, ip0 + 6, pp);
    let cp = match find_upper(&v, ")") {
        Some(i) => i,
        None => return None,
    };
    proof {
        lemma_found(upper(v@), ")"@, cp as int);
    }
    let columns = list_items_exec(&v, pp + 1, cp, false);
    let vp = match find_upper(&v, "VALUES") {
        Some(i) => i,
        None => return None,
    };
    proof {
        lemma_found(upper(v@), "VALUES"@, vp as int);
    }
    let rest = sub_vec(&v, vp, v.len());
    let vo0 = match find_upper(&rest, "(") {
        Some(i) => i,
        None => return None,
    };
    proof {
        assert(rest@ =~= v@.skip(vp as int));
        lemma_found(upper(rest@), "("@, vo0 as int);
    }
    let vo = vo0 + vp;
    let rest2 = sub_vec(&v, vo, v.len());
    let vc0 = match find_upper(&rest2, ")") {
        Some(i) => i,
        None => return None,
    };
    proof {
        assert(rest2@ =~= v@.skip(vo as int));
        lemma_found(upper(rest2@), ")"@, vc0 as int);
        assert(upper(rest@).subrange(vo0 as int, vo0 + 1)[0] == upper(rest@)[vo0 as int]);
        assert(upper(rest@)[vo0 as int] == '(');
        assert(upper(rest2@)[0] == upper(rest@)[vo0 as int]);
        if vc0 == 0 {
            assert(upper(rest2@).subrange(0, 1)[0] == upper(rest2@)[0]);
        }
    }
    let values = list_items_exec(&v, vo + 1, vc0 + vo, true);
    Some(ExecSqlStatement::Insert(SqlInsert { table, columns, values }))
}

/// The `col = :var` clauses of the pieces named by `bs`.
fn set_clauses_exec(v: &Vec<char>, bs: &Vec<(usize, usize)>) -> (res: Vec<(String, String)>)
    requires
        forall|k: int| 0 <= k < bs@.len() ==> (#[trigger] bs@[k]).0 <= bs@[k].1 <= v@.len(),
    ensures
        pairs_view(res@) == set_list(pieces_of(v@, bs@)),
{
    let ghost ps = pieces_of(v@, bs@);
    let mut res: Vec<(String, String)> = Vec::new();
    let mut k: usize = 0;
    while k < bs.len()
        invariant
            k <= bs@.len(),
            ps == pieces_of(v@, bs@),
            forall|m: int| 0 <= m < bs@.len() ==> (#[trigger] bs@[m]).0 <= bs@[m].1 <= v@.len(),
            pairs_view(res@) == set_list(ps.take(k as int)),
        decreases bs@.len() - k,
    {
        let (a, b) = bs[k];
        let piece = sub_vec(v, a, b);
        proof {
            assert(ps[k as int] == piece@);
            assert(ps.take(k + 1).drop_last() =~= ps.take(k as int));
            assert(ps.take(k + 1).last() == ps[k as int]);
            reveal_strlit("=");
        }
        match find_chars(&piece, "=") {
            Some(eq) => {
                proof {
                    lemma_found(piece@, "="@, eq as int);
                    assert(piece@.take(eq as int) =~= piece@.subrange(0, eq as int));
                    assert(piece@.skip(eq + 1) =~= piece@.subrange(eq + 1, piece@.len() as int));
                }
                let col = trimmed_string(&piece, 0, eq);
                let (i, j) = trim_bounds(&piece, eq + 1, piece.len());
                let i2 = skip_char_forward(&piece, i, j, ':');
                let val = string_of(&piece, i2, j);
                res.push((col, val));
                proof {
                    assert(pairs_view(res@) =~= pairs_view(res@.drop_last()).push((col@, val@)));
                }
            },
            None => {},
        }
        k = k + 1;
    }
    proof {
        assert(ps.take(bs@.len() as int) =~= ps);
    }
    res
}

/// Parse: `UPDATE table SET col1 = :var1, col2 = :var2 [WHERE cond]`.
pub fn parse_update(sql: &str) -> (r: Option<ExecSqlStatement>)
    requires
        update_ok(sql@),
    ensures
        opt_model(r) == spec_update(sql@),
{
    let v = str_chars(sql);
    let sp = match find_upper(&v, " SET ") {
        Some(i) => i,
        None => return None,
    };
    proof {
        reveal_strlit(" SET ");
        reveal_strlit(" WHERE ");
        lemma_found(upper(v@), " SET "@, sp as int);
    }
    let table = trimmed_string(&v, 7, sp);
    let after = sub_vec(&v, sp + 5, v.len());
    proof {
        assert(after@ =~= v@.skip(sp + 5));
    }
    let wp = find_upper(&after, " WHERE ");
    let set_end = match wp {
        Some(w) => w,
        None => after.len(),
    };
    proof {
        if let Some(w) = wp {
            lemma_found(upper(after@), " WHERE "@, w as int);
            assert(after@.take(w as int) =~= after@.subrange(0, w as int));
        } else {
            assert(after@ =~= after@.subrange(0, after@.len() as int));
        }
    }
    let bs = split_bounds(&after, 0, set_end, ',');
    let set_clauses = set_clauses_exec(&after, &bs);
    let (_t, where_clause) = where_split(&v, sp + 5);
    Some(ExecSqlStatement::Update(SqlUpdate { table, set_clauses, where_clause }))
}

/// Parse: `DELETE FROM table [WHERE cond]`.
pub fn parse_delete(sql: &str) -> (r: Option<ExecSqlStatement>)
    ensures
        opt_model(r) == spec_delete(sql@),
{
    let v = str_chars(sql);
    let fp = match find_upper(&v, " FROM ") {
        Some(i) => i,
        None => return None,
    };
    proof {
        reveal_strlit(" FROM ");
        lemma_found(upper(v@), " FROM "@, fp as int);
        lemma_upper_len(v@);
    }
    let vl = v.len();
    assert(fp + 6 <= vl);
    let (table, where_clause) = where_split(&v, fp + 6);
    Some(ExecSqlStatement::Delete(SqlDelete { table, where_clause }))
}

/// Parse: `DECLARE cursor CURSOR FOR SELECT ...`.
pub fn parse_declare_cursor(sql: &str) -> (r: Option<ExecSqlStatement>)
    requires
        declare_ok(sql@),
    ensures
        opt_model(r) == spec_declare(sql@),
{
    let v = str_chars(sql);
    let cp = match find_upper(&v, " CURSOR FOR ") {
        Some(i) => i,
        None => return None,
    };
    proof {
        reveal_strlit(" CURSOR FOR ");
        lemma_found(upper(v@), " CURSOR FOR "@, cp as int);
    }
    let cursor_name = trimmed_string(&v, 8, cp);
    let rest = sub_vec(&v, cp + 12, v.len());
    proof {
        assert(rest@ =~= v@.skip(cp + 12));
    }
    match select_chars(&rest) {
        Some(select) => Some(ExecSqlStatement::DeclareCursor(SqlDeclareCursor { cursor_name, select })),
        None => None,
    }
}

/// Parse: `OPEN cursor` (the name follows the first five characters).
pub fn parse_open_cursor(sql: &str) -> (r: ExecSqlStatement)
    requires
        sql@.len() >= 5,
    ensures
        r@ == SqlModel::OpenCursor(trim(sql@.skip(5))),
{
    let v = str_chars(sql);
    proof {
        assert(v@.skip(5) =~= v@.subrange(5, v@.len() as int));
    }
    ExecSqlStatement::OpenCursor(trimmed_string(&v, 5, v.len()))
}

/// Parse: `FETCH cursor INTO :var1, :var2`.
pub fn parse_fetch(sql: &str) -> (r: Option<ExecSqlStatement>)
    requires
        fetch_ok(sql@),
    ensures
        opt_model(r) == spec_fetch(sql@),
{
    let v = str_chars(sql);
    let ip = match find_upper(&v, " INTO ") {
        Some(i) => i,
        None => return None,
    };
    proof {
        reveal_strlit(" INTO ");
        lemma_found(upper(v@), " INTO "@, ip as int);
        assert(v@.skip(ip + 6) =~= v@.subrange(ip + 6, v@.len() as int));
    }
    let cursor_name = trimmed_string(&v, 6, ip);
    let into_vars = list_items_exec(&v, ip + 6, v.len(), true);
    Some(ExecSqlStatement::FetchCursor(SqlFetch { cursor_name, into_vars }))
}

/// Parse: `CLOSE cursor` (the name follows the first six characters).
pub fn parse_close_cursor(sql: &str) -> (r: ExecSqlStatement)
    requires
        sql@.len() >= 6,
    ensures
        r@ == SqlModel::CloseCursor(trim(sql@.skip(6))),
{
    let v = str_chars(sql);
    proof {
        assert(v@.skip(6) =~= v@.subrange(6, v@.len() as int));
    }
    ExecSqlStatement::CloseCursor(trimmed_string(&v, 6, v.len()))
}

/// Parse: `WHENEVER {NOT FOUND|SQLERROR|SQLWARNING} {CONTINUE|GOTO label|STOP}`.
pub fn parse_whenever(sql: &str) -> (r: Option<ExecSqlStatement>)
    ensures
        opt_model(r) == spec_whenever(sql@),
{
    let v = str_chars(sql);
    let condition = if find_upper(&v, "NOT FOUND").is_some() {
        SqlWheneverCondition::NotFound
    } else if find_upper(&v, "SQLERROR").is_some() {
        SqlWheneverCondition::SqlError
    } else if find_upper(&v, "SQLWARNING").is_some() {
        SqlWheneverCondition::SqlWarning
    } else {
        return None;
    };
    let action = if let Some(g) = find_upper(&v, "GOTO") {
        proof {
            reveal_strlit("GOTO");
            lemma_found(upper(v@), "GOTO"@, g as int);
            assert(v@.skip(g + 4) =~= v@.subrange(g + 4, v@.len() as int));
        }
        SqlWheneverAction::GoTo(trimmed_string(&v, g + 4, v.len()))
    } else if let Some(g) = find_upper(&v, "GO TO") {
        proof {
            reveal_strlit("GO TO");
            lemma_found(upper(v@), "GO TO"@, g as int);
            assert(v@.skip(g + 5) =~= v@.subrange(g + 5, v@.len() as int));
        }
        SqlWheneverAction::GoTo(trimmed_string(&v, g + 5, v.len()))
    } else if find_upper(&v, "CONTINUE").is_some() {
        SqlWheneverAction::Continue
    } else if find_upper(&v, "STOP").is_some() {
        SqlWheneverAction::Stop
    } else {
        return None;
    };
    Some(ExecSqlStatement::Whenever(SqlWhenever { condition, action }))
}

fn unknown(sql: &str) -> (r: ExecSqlStatement)
    ensures
        r@ == SqlModel::Unknown(sql@),
{
    let v = str_chars(sql);
    proof {
        assert(v@.subrange(0, v@.len() as int) =~= v@);
    }
    ExecSqlStatement::Unknown(string_of(&v, 0, v.len()))
}

fn or_unknown_exec(r: Option<ExecSqlStatement>, sql: &str) -> (res: ExecSqlStatement)
    ensures
        res@ == or_unknown(opt_model(r), sql@),
{
    match r {
        Some(s) => s,
        None => unknown(sql),
    }
}

/// Parse an EXEC SQL statement body (without the EXEC SQL / END-EXEC wrapper).
pub fn parse_exec_sql(sql: &str) -> (r: ExecSqlStatement)
    requires
        exec_sql_ok(sql@),
    ensures
        r@ == spec_exec_sql(sql@),
{
    let v = str_chars(sql);
    let up = upper_vec(&v);
    let (a, b) = trim_bounds(&up, 0, up.len());
    proof {
        assert(up@.subrange(0, up@.len() as int) =~= upper(sql@));
    }
    if starts_with_exec(&up, a, b, "SELECT") {
        match parse_select(sql) {
            Some(s) => s,
            None => unknown(sql),
        }
    } else if starts_with_exec(&up, a, b, "INSERT") {
        or_unknown_exec(parse_insert(sql), sql)
    } else if starts_with_exec(&up, a, b, "UPDATE") {
        or_unknown_exec(parse_update(sql), sql)
    } else if starts_with_exec(&up, a, b, "DELETE") {
        or_unknown_exec(parse_delete(sql), sql)
    } else if starts_with_exec(&up, a, b, "DECLARE") {
        or_unknown_exec(parse_declare_cursor(sql), sql)
    } else if starts_with_exec(&up, a, b, "OPEN") {
        parse_open_cursor(sql)
    } else if starts_with_exec(&up, a, b, "FETCH") {
        or_unknown_exec(parse_fetch(sql), sql)
    } else if starts_with_exec(&up, a, b, "CLOSE") {
        parse_close_cursor(sql)
    } else if equals_exec(&up, a, b, "COMMIT") || starts_with_exec(&up, a, b, "COMMIT ") {
        ExecSqlStatement::Commit
    } else if equals_exec(&up, a, b, "ROLLBACK") || starts_with_exec(&up, a, b, "ROLLBACK ") {
        ExecSqlStatement::Rollback
    } else if starts_with_exec(&up, a, b, "WHENEVER") {
        or_unknown_exec(parse_whenever(sql), sql)
    } else {
        unknown(sql)
    }
}

} // verus!

verus! {

// ---------------------------------------------------------------------------
// Blocks in COBOL source lines
// ---------------------------------------------------------------------------

pub open spec fn line_views(lines: Seq<&str>) -> Seq<Seq<char>> {
    lines.map_values(|l: &str| l@)
}

/// The line opens an `EXEC SQL` block.
pub open spec fn is_exec_start(l: Seq<char>) -> bool {
    starts_with(trim(upper(l)), "EXEC SQL"@)
}

/// The line holds `END-EXEC`.
pub open spec fn is_exec_end(l: Seq<char>) -> bool {
    contains(trim(upper(l)), "END-EXEC"@)
}

/// Index of the first line at or after `j` that holds `END-EXEC`, or the number of lines.
pub open spec fn end_from(ls: Seq<Seq<char>>, j: int) -> int
    decreases ls.len() - j,
{
    if j >= ls.len() {
        ls.len() as int
    } else if is_exec_end(ls[j]) {
        j
    } else {
        end_from(ls, j + 1)
    }
}

pub proof fn lemma_end_from(ls: Seq<Seq<char>>, j: int)
    requires
        0 <= j,
    ensures
        j <= ls.len() ==> j <= end_from(ls, j) <= ls.len(),
        j > ls.len() ==> end_from(ls, j) == ls.len(),
        forall|k: int| j <= k < end_from(ls, j) ==> !is_exec_end(#[trigger] ls[k]),
        end_from(ls, j) < ls.len() ==> is_exec_end(ls[end_from(ls, j)]),
    decreases ls.len() - j,
{
    if j < ls.len() && !is_exec_end(ls[j]) {
        lemma_end_from(ls, j + 1);
    }
}

/// The text after `EXEC SQL` on the opening line, trimmed.
pub open spec fn after_exec(l: Seq<char>) -> Seq<char> {
    match find(upper(l), "EXEC SQL"@) {
        Some(p) => trim(l.skip(p + 8)),
        None => Seq::empty(),
    }
}

/// What one line inside a block adds to the statement text.
pub open spec fn body_piece(l: Seq<char>) -> Seq<char> {
    if is_exec_start(l) {
        Seq::empty()
    } else {
        trim(l) + " "@
    }
}

/// The joined pieces of the lines `j..e`.
pub open spec fn body_text(ls: Seq<Seq<char>>, j: int, e: int) -> Seq<char>
    decreases e - j,
{
    if e <= j {
        Seq::empty()
    } else {
        body_text(ls, j, e - 1) + body_piece(ls[e - 1])
    }
}

/// The statement text of the block that opens at line `s` and ends before line `e`.
pub open spec fn block_text(ls: Seq<Seq<char>>, s: int, e: int) -> Seq<char> {
    let a = after_exec(ls[s]);
    (if a.len() > 0 {
        a + " "@
    } else {
        Seq::empty()
    }) + body_text(ls, s + 1, e)
}

/// The SQL of a block text: trimmed, trailing `.` removed, cut before an inline `END-EXEC`.
pub open spec fn sql_of_block(full: Seq<char>) -> Seq<char> {
    let raw = trim(trim_end_char(trim(full), '.'));
    match find(upper(raw), "END-EXEC"@) {
        Some(e) => trim(raw.take(e)),
        None => raw,
    }
}

/// The blocks found from line `i` on: the index after each `END-EXEC` line and the
/// statement. A block ends at the first line, from its opening line on, that holds
/// `END-EXEC`.
pub open spec fn blocks_from(ls: Seq<Seq<char>>, i: int) -> Seq<(int, SqlModel)>
    decreases ls.len() - i,
{
    if i < 0 || i >= ls.len() {
        Seq::empty()
    } else if is_exec_start(ls[i]) {
        let e = end_from(ls, i);
        let head = seq![(e + 1, spec_exec_sql(sql_of_block(block_text(ls, i, e))))];
        if e < i {
            Seq::empty()
        } else if e + 1 >= ls.len() {
            head
        } else {
            head + blocks_from(ls, e + 1)
        }
    } else {
        blocks_from(ls, i + 1)
    }
}

/// Every block's statement is one that `parse_exec_sql` accepts.
pub open spec fn blocks_ok(ls: Seq<Seq<char>>, i: int) -> bool
    decreases ls.len() - i,
{
    if i < 0 || i >= ls.len() {
        true
    } else if is_exec_start(ls[i]) {
        let e = end_from(ls, i);
        if e < i {
            true
        } else if e + 1 >= ls.len() {
            exec_sql_ok(sql_of_block(block_text(ls, i, e)))
        } else {
            exec_sql_ok(sql_of_block(block_text(ls, i, e))) && blocks_ok(ls, e + 1)
        }
    } else {
        blocks_ok(ls, i + 1)
    }
}

pub open spec fn results_view(r: Seq<(usize, ExecSqlStatement)>) -> Seq<(int, SqlModel)> {
    r.map_values(|p: (usize, ExecSqlStatement)| (p.0 as int, p.1@))
}

/// Line classification: opening line, closing line.
fn classify(v: &Vec<char>) -> (r: (bool, bool))
    ensures
        r.0 == is_exec_start(v@),
        r.1 == is_exec_end(v@),
{
    let up = upper_vec(v);
    let (a, b) = trim_bounds(&up, 0, up.len());
    proof {
        assert(up@.subrange(0, up@.len() as int) =~= up@);
    }
    let st = starts_with_exec(&up, a, b, "EXEC SQL");
    let t = sub_vec(&up, a, b);
    let en = find_chars(&t, "END-EXEC").is_some();
    (st, en)
}

/// SQL text of a block's full text.
fn sql_of_block_exec(full: &Vec<char>) -> (res: String)
    ensures
        res@ == sql_of_block(full@),
{
    let (a, b) = trim_bounds(full, 0, full.len());
    let b2 = skip_char_backward(full, a, b, '.');
    let (c, d) = trim_bounds(full, a, b2);
    let raw = sub_vec(full, c, d);
    proof {
        assert(full@.subrange(0, full@.len() as int) =~= full@);
        assert(raw@ == trim(trim_end_char(trim(full@), '.')));
    }
    match find_upper(&raw, "END-EXEC") {
        Some(e) => {
            proof {
                assert(raw@.take(e as int) =~= raw@.subrange(0, e as int));
            }
            trimmed_string(&raw, 0, e)
        },
        None => {
            proof {
                assert(raw@.subrange(0, raw@.len() as int) =~= raw@);
            }
            string_of(&raw, 0, raw.len())
        },
    }
}

/// The block that opens at line `start`: index of its closing line and its statement.
fn parse_block(lines: &[&str], start: usize) -> (r: (usize, ExecSqlStatement))
    requires
        start < lines@.len(),
        is_exec_start(line_views(lines@)[start as int]),
        exec_sql_ok(sql_of_block(block_text(line_views(lines@), start as int, end_from(line_views(lines@), start as int)))),
    ensures
        r.0 == end_from(line_views(lines@), start as int),
        r.1@ == spec_exec_sql(sql_of_block(block_text(line_views(lines@), start as int, r.0 as int))),
{
    let ghost ls = line_views(lines@);
    let n = lines.len();
    let line = str_chars(lines[start]);
    let mut full = String::new();
    let up = upper_vec(&line);
    let p = find_chars(&up, "EXEC SQL");
    proof {
        reveal_strlit("EXEC SQL");
        reveal_strlit(" ");
        assert(line@ == ls[start as int]);
    }
    match p {
        Some(p) => {
            let (a, b) = trim_bounds(&line, p + 8, line.len());
            proof {
                assert(line@.skip(p + 8) =~= line@.subrange(p + 8, line@.len() as int));
            }
            if a < b {
                push_chars(&mut full, &line, a, b);
                push_char(&mut full, ' ');
                proof {
                    assert(full@ =~= after_exec(ls[start as int]) + " "@);
                }
            }
        },
        None => {},
    }
    let ghost head = full@;
    proof {
        assert(head == (if after_exec(ls[start as int]).len() > 0 {
            after_exec(ls[start as int]) + " "@
        } else {
            Seq::<char>::empty()
        }));
        assert(head + body_text(ls, start + 1, start + 1) =~= head);
    }
    let (_opens, closes) = classify(&line);
    let i = if closes {
        proof {
            assert(end_from(ls, start as int) == start);
            assert(full@ == block_text(ls, start as int, start as int));
        }
        start
    } else {
        let mut i = start + 1;
        loop
            invariant
                n == lines@.len() == ls.len(),
                ls == line_views(lines@),
                start < i <= n,
                forall|k: int| start < k < i ==> !is_exec_end(#[trigger] ls[k]),
                full@ == head + body_text(ls, start + 1, i as int),
            ensures
                start < i <= n,
                forall|k: int| start < k < i ==> !is_exec_end(#[trigger] ls[k]),
                i < n ==> is_exec_end(ls[i as int]),
                full@ == head + body_text(ls, start + 1, i as int),
            decreases n - i,
        {
            if i >= n {
                break;
            }
            let l = str_chars(lines[i]);
            let (st, en) = classify(&l);
            proof {
                assert(l@ == ls[i as int]);
            }
            if en {
                break;
            }
            let ghost f0 = full@;
            if !st {
                let (a, b) = trim_bounds(&l, 0, l.len());
                proof {
                    assert(l@.subrange(0, l@.len() as int) =~= l@);
                }
                push_chars(&mut full, &l, a, b);
                push_char(&mut full, ' ');
                proof {
                    reveal_strlit(" ");
                    assert(l@.subrange(a as int, b as int) == trim(l@));
                    assert(" "@ =~= seq![' ']);
                    assert(full@ =~= f0 + (trim(l@) + " "@));
                }
            }
            proof {
                assert(full@ =~= f0 + body_piece(ls[i as int]));
                assert(body_text(ls, start + 1, i + 1) == body_text(ls, start + 1, i as int) + body_piece(ls[i as int]));
                assert(full@ =~= head + body_text(ls, start + 1, i + 1));
            }
            i = i + 1;
        }
        proof {
            assert(end_from(ls, start as int) == end_from(ls, start + 1));
            lemma_end_from(ls, start + 1);
            if end_from(ls, start + 1) < i {
                assert(!is_exec_end(ls[end_from(ls, start + 1)]));
            }
            if i < end_from(ls, start + 1) {
                assert(!is_exec_end(ls[i as int]));
            }
            assert(full@ == block_text(ls, start as int, i as int));
        }
        i
    };
    let fv = str_chars(full.as_str());
    let sql_text = sql_of_block_exec(&fv);
    let stmt = parse_exec_sql(sql_text.as_str());
    (i, stmt)
}

/// Extract and parse the EXEC SQL blocks of processed COBOL source lines; each result
/// is paired with the index of the line after its `END-EXEC` line.
pub fn extract_exec_sql_blocks(lines: &[&str]) -> (results: Vec<(usize, ExecSqlStatement)>)
    requires
        lines@.len() < usize::MAX,
        blocks_ok(line_views(lines@), 0),
    ensures
        results_view(results@) == blocks_from(line_views(lines@), 0),
{
    let ghost ls = line_views(lines@);
    let mut results: Vec<(usize, ExecSqlStatement)> = Vec::new();
    let n = lines.len();
    let mut i: usize = 0;
    while i < n
        invariant
            n == lines@.len() == ls.len(),
            n < usize::MAX,
            ls == line_views(lines@),
            i <= n + 1,
            blocks_ok(ls, i as int),
            results_view(results@) + blocks_from(ls, i as int) == blocks_from(ls, 0),
        decreases n + 1 - i,
    {
        let line = str_chars(lines[i]);
        let (is_start, _e) = classify(&line);
        proof {
            assert(line@ == ls[i as int]);
        }
        if is_start {
            proof {
                lemma_end_from(ls, i as int);
            }
            let (e, stmt) = parse_block(lines, i);
            let ghost r0 = results@;
            results.push((e + 1, stmt));
            proof {
                assert(results_view(results@) =~= results_view(r0).push(((e + 1) as int, stmt@)));
                if e + 1 >= n {
                    assert(blocks_from(ls, i as int) =~= seq![((e + 1) as int, stmt@)]);
                    assert(results_view(results@) + blocks_from(ls, e + 1) =~= results_view(r0) + blocks_from(ls, i as int));
                } else {
                    assert(results_view(results@) + blocks_from(ls, e + 1) =~= results_view(r0) + blocks_from(ls, i as int));
                }
            }
            i = e;
        }
        i = i + 1;
    }
    results
}

// ---------------------------------------------------------------------------
// Reading back a written UPDATE
// ---------------------------------------------------------------------------

/// A name character, and its ASCII upper case, is none of the separators of a statement.
proof fn lemma_name_char_not_sep(c: char)
    requires
        crate::text::is_name_char(c),
    ensures
        !crate::text::is_ws(c),
        c != ' ',
        c != '=',
        c != ':',
        c != ',',
        crate::text::is_name_char(crate::text::upper_char(c)),
        !crate::text::is_ws(crate::text::upper_char(c)),
        crate::text::upper_char(c) != ' ',
        crate::text::upper_char(c) != '=',
        crate::text::upper_char(c) != ':',
{
}

proof fn lemma_upper_at(s: Seq<char>, k: int)
    requires
        0 <= k < s.len(),
    ensures
        upper(s).len() == s.len(),
        upper(s)[k] == crate::text::upper_char(s[k]),
{
}

/// In `u`, `p` (which starts with a space) first occurs at `i`, when it occurs there and
/// no earlier position holding a space begins an occurrence.
proof fn lemma_first_at(u: Seq<char>, p: Seq<char>, i: int)
    requires
        p.len() > 0,
        p[0] == ' ',
        0 <= i,
        matches_at(u, p, i),
        forall|j: int| 0 <= j < i && u[j] == ' ' ==> !matches_at(u, p, j),
    ensures
        find(u, p) == Some(i),
{
    assert forall|j: int| 0 <= j < i implies !matches_at(u, p, j) by {
        if matches_at(u, p, j) {
            assert(u.subrange(j, j + p.len())[0] == u[j]);
        }
    }
    crate::text::lemma_find_from_found(u, p, 0, i);
}

proof fn lemma_trim_same(s: Seq<char>)
    requires
        s.len() > 0,
        !crate::text::is_ws(s[0]),
        !crate::text::is_ws(s.last()),
    ensures
        trim(s) == s,
{
    crate::text::lemma_lead_ws(s, 0);
    assert(s.skip(0) =~= s);
    crate::text::lemma_trail_ws(s, 0);
    assert(s.take(s.len() as int) =~= s);
}

/// ` SET ` first occurs right after the table.
#[verifier::rlimit(30)]
#[verifier::spinoff_prover]
proof fn lemma_update_set_at(table: Seq<char>, after: Seq<char>)
    requires
        table.len() > 0,
        forall|j: int| 0 <= j < table.len() ==> crate::text::is_name_char(#[trigger] table[j]),
        upper(table) != "SET"@,
    ensures
        find(upper("UPDATE "@ + table + " SET "@ + after), " SET "@) == Some(7 + table.len() as int),
{
    reveal_strlit("UPDATE ");
    reveal_strlit(" SET ");
    reveal_strlit("SET");
    let tl = table.len() as int;
    let sql = "UPDATE "@ + table + " SET "@ + after;
    let u = upper(sql);
    let sp = 7 + tl;
    assert(forall|j: int| 0 <= j < 7 ==> sql[j] == "UPDATE "@[j]);
    assert(forall|j: int| 0 <= j < tl ==> sql[7 + j] == table[j]);
    assert(forall|j: int| 0 <= j < 5 ==> sql[sp + j] == " SET "@[j]);
    assert(matches_at(u, " SET "@, sp)) by {
        assert forall|j: int| 0 <= j < 5 implies u.subrange(sp, sp + 5)[j] == " SET "@[j] by {
            lemma_upper_at(sql, sp + j);
        }
        assert(u.subrange(sp, sp + 5) =~= " SET "@);
    }
    assert forall|j: int| 0 <= j < sp && u[j] == ' ' implies !matches_at(u, " SET "@, j) by {
        lemma_upper_at(sql, j);
        if j < 6 {
            assert(sql[j] == "UPDATE "@[j]);
        } else if j > 6 {
            lemma_name_char_not_sep(table[j - 7]);
        } else if matches_at(u, " SET "@, j) {
            let w = u.subrange(6, 11);
            if tl >= 4 {
                lemma_upper_at(sql, 10);
                lemma_name_char_not_sep(table[3]);
                assert(w[4] == u[10]);
            } else if tl < 3 {
                lemma_upper_at(sql, 7 + tl);
                assert(w[1 + tl] == u[7 + tl]);
            } else {
                assert forall|k: int| 0 <= k < 3 implies upper(table)[k] == "SET"@[k] by {
                    lemma_upper_at(sql, 7 + k);
                    lemma_upper_at(table, k);
                    assert(w[1 + k] == u[7 + k]);
                }
                assert(upper(table) =~= "SET"@);
            }
        }
    }
    lemma_first_at(u, " SET "@, sp);
}

/// ` WHERE ` first occurs right after the SET clause.
#[verifier::rlimit(30)]
#[verifier::spinoff_prover]
proof fn lemma_update_where_at(column: Seq<char>, var: Seq<char>, cond: Seq<char>)
    requires
        column.len() > 0,
        forall|j: int| 0 <= j < column.len() ==> crate::text::is_name_char(#[trigger] column[j]),
        var.len() > 0,
        forall|j: int| 0 <= j < var.len() ==> crate::text::is_name_char(#[trigger] var[j]),
    ensures
        find(upper(column + " = :"@ + var + " WHERE "@ + cond), " WHERE "@) == Some(
            column.len() + 4 + var.len() as int,
        ),
{
    reveal_strlit(" = :");
    reveal_strlit(" WHERE ");
    let cl = column.len() as int;
    let vl = var.len() as int;
    let after = column + " = :"@ + var + " WHERE "@ + cond;
    let u2 = upper(after);
    let wp = cl + 4 + vl;
    assert(forall|j: int| 0 <= j < cl ==> after[j] == column[j]);
    assert(forall|j: int| 0 <= j < 4 ==> after[cl + j] == " = :"@[j]);
    assert(forall|j: int| 0 <= j < vl ==> after[cl + 4 + j] == var[j]);
    assert(forall|j: int| 0 <= j < 7 ==> after[wp + j] == " WHERE "@[j]);
    assert(matches_at(u2, " WHERE "@, wp)) by {
        assert forall|j: int| 0 <= j < 7 implies u2.subrange(wp, wp + 7)[j] == " WHERE "@[j] by {
            lemma_upper_at(after, wp + j);
        }
        assert(u2.subrange(wp, wp + 7) =~= " WHERE "@);
    }
    assert forall|j: int| 0 <= j < wp && u2[j] == ' ' implies !matches_at(u2, " WHERE "@, j) by {
        lemma_upper_at(after, j);
        if j < cl {
            lemma_name_char_not_sep(column[j]);
        } else if j >= cl + 4 {
            lemma_name_char_not_sep(var[j - cl - 4]);
        } else if matches_at(u2, " WHERE "@, j) {
            lemma_upper_at(after, j + 1);
            assert(u2.subrange(j, j + 7)[1] == u2[j + 1]);
        }
    }
    lemma_first_at(u2, " WHERE "@, wp);
}

/// `column = :var` is the one SET clause `(column, var)`.
#[verifier::rlimit(30)]
#[verifier::spinoff_prover]
proof fn lemma_update_set_clause(column: Seq<char>, var: Seq<char>)
    requires
        column.len() > 0,
        forall|j: int| 0 <= j < column.len() ==> crate::text::is_name_char(#[trigger] column[j]),
        var.len() > 0,
        forall|j: int| 0 <= j < var.len() ==> crate::text::is_name_char(#[trigger] var[j]),
    ensures
        set_list(split_char(column + " = :"@ + var, ',')) == seq![(column, var)],
{
    reveal_strlit(" = :");
    reveal_strlit("=");
    let cl = column.len() as int;
    let vl = var.len() as int;
    let set_str = column + " = :"@ + var;
    assert(forall|j: int| 0 <= j < cl ==> set_str[j] == column[j]);
    assert(forall|j: int| 0 <= j < 4 ==> set_str[cl + j] == " = :"@[j]);
    assert(forall|j: int| 0 <= j < vl ==> set_str[cl + 4 + j] == var[j]);
    assert(!set_str.contains(',')) by {
        if set_str.contains(',') {
            let k = choose|k: int| 0 <= k < set_str.len() && set_str[k] == ',';
            if k < cl {
                lemma_name_char_not_sep(column[k]);
            } else if k >= cl + 4 {
                lemma_name_char_not_sep(var[k - cl - 4]);
            }
        }
    }
    crate::data_division::lemma_split_whole(set_str, ',');
    assert(matches_at(set_str, "="@, cl + 1)) by {
        assert(set_str.subrange(cl + 1, cl + 2) =~= "="@);
    }
    assert forall|j: int| 0 <= j < cl + 1 implies !matches_at(set_str, "="@, j) by {
        if matches_at(set_str, "="@, j) {
            assert(set_str.subrange(j, j + 1)[0] == set_str[j]);
            if j < cl {
                lemma_name_char_not_sep(column[j]);
            }
        }
    }
    crate::text::lemma_find_from_found(set_str, "="@, 0, cl + 1);
    let left = set_str.take(cl + 1);
    assert(left =~= column.push(' '));
    lemma_name_char_not_sep(column[0]);
    lemma_name_char_not_sep(column[cl - 1]);
    crate::text::lemma_lead_ws(left, 0);
    crate::text::lemma_trail_ws(left, 1);
    assert(left.skip(0) =~= left);
    assert(trim(left) =~= column);
    let right = set_str.skip(cl + 2);
    assert(right =~= seq![' ', ':'] + var);
    lemma_name_char_not_sep(var[0]);
    lemma_name_char_not_sep(var[vl - 1]);
    crate::text::lemma_lead_ws(right, 1);
    let r1 = right.skip(1);
    assert(r1 =~= seq![':'] + var);
    crate::text::lemma_trail_ws(r1, 0);
    assert(r1.take(r1.len() as int) =~= r1);
    assert(trim(right) =~= r1);
    crate::text::lemma_lead_char(r1, ':', 1);
    assert(trim_start_char(r1, ':') =~= var);
    assert(set_clause(set_str) == Some((column, var)));
    let ps = seq![set_str];
    assert(ps.drop_last() =~= Seq::<Seq<char>>::empty());
    assert(ps.last() == set_str);
    assert(set_list(ps.drop_last()) =~= Seq::<(Seq<char>, Seq<char>)>::empty());
    assert(set_list(ps) == set_list(ps.drop_last()).push((column, var)));
    assert(set_list(ps) =~= seq![(column, var)]);
}

/// A statement written from `UPDATE ` on, ending in a non-space character, is dispatched
/// as an UPDATE.
#[verifier::rlimit(30)]
#[verifier::spinoff_prover]
proof fn lemma_update_keyword(sql: Seq<char>)
    requires
        sql.len() > 7,
        sql.take(7) == "UPDATE "@,
        !crate::text::is_ws(sql.last()),
    ensures
        trim(upper(sql)) == upper(sql),
        starts_with(upper(sql), "UPDATE"@),
        !starts_with(upper(sql), "SELECT"@),
        !starts_with(upper(sql), "INSERT"@),
{
    reveal_strlit("UPDATE ");
    reveal_strlit("UPDATE");
    reveal_strlit("SELECT");
    reveal_strlit("INSERT");
    let u = upper(sql);
    assert forall|j: int| 0 <= j < 7 implies #[trigger] sql[j] == "UPDATE "@[j] by {
        assert(sql.take(7)[j] == sql[j]);
    }
    assert forall|j: int| 0 <= j < 6 implies u.take(6)[j] == "UPDATE"@[j] by {
        lemma_upper_at(sql, j);
        assert(sql[j] == "UPDATE "@[j]);
    }
    assert(u.take(6) =~= "UPDATE"@);
    lemma_upper_at(sql, 0);
    assert(u[0] == 'U');
    lemma_upper_at(sql, sql.len() - 1);
    assert(!crate::text::is_ws(u.last()));
    lemma_trim_same(u);
    if starts_with(u, "SELECT"@) {
        assert(u.take(6)[0] == "SELECT"@[0]);
    }
    if starts_with(u, "INSERT"@) {
        assert(u.take(6)[0] == "INSERT"@[0]);
    }
}

/// The parts of a written UPDATE are read back.
#[verifier::rlimit(40)]
#[verifier::spinoff_prover]
proof fn lemma_update_parts(table: Seq<char>, column: Seq<char>, var: Seq<char>, cond: Seq<char>)
    requires
        table.len() > 0,
        forall|j: int| 0 <= j < table.len() ==> crate::text::is_name_char(#[trigger] table[j]),
        upper(table) != "SET"@,
        column.len() > 0,
        forall|j: int| 0 <= j < column.len() ==> crate::text::is_name_char(#[trigger] column[j]),
        var.len() > 0,
        forall|j: int| 0 <= j < var.len() ==> crate::text::is_name_char(#[trigger] var[j]),
        cond.len() > 0,
        !crate::text::is_ws(cond[0]),
        !crate::text::is_ws(cond.last()),
    ensures
        spec_update("UPDATE "@ + table + " SET "@ + (column + " = :"@ + var + " WHERE "@ + cond))
            == Some(
            SqlModel::Update { table, set_clauses: seq![(column, var)], where_clause: Some(cond) },
        ),
{
    let tl = table.len() as int;
    let after = column + " = :"@ + var + " WHERE "@ + cond;
    let sql = "UPDATE "@ + table + " SET "@ + after;
    let sp = 7 + tl;
    lemma_update_set_at(table, after);
    assert(sql.skip(sp + 5) =~= after) by {
        reveal_strlit("UPDATE ");
        reveal_strlit(" SET ");
    }
    lemma_update_where_at(column, var, cond);
    let wp = column.len() + 4 + var.len() as int;
    assert(after.take(wp) =~= column + " = :"@ + var) by {
        reveal_strlit(" = :");
        reveal_strlit(" WHERE ");
    }
    lemma_update_set_clause(column, var);
    assert(after.skip(wp + 7) =~= cond) by {
        reveal_strlit(" = :");
        reveal_strlit(" WHERE ");
    }
    lemma_trim_same(cond);
    assert(where_part(after) == Some(cond));
    assert(sql.subrange(7, sp) =~= table) by {
        reveal_strlit("UPDATE ");
    }
    lemma_name_char_not_sep(table[0]);
    lemma_name_char_not_sep(table[tl - 1]);
    lemma_trim_same(table);
}

/// An UPDATE written as `UPDATE table SET column = :var WHERE condition` is read back into
/// that table, the one SET clause `(column, var)` and that condition, for a table, column
/// and variable of name characters (the table not the word SET) and a condition without
/// white space at its ends.
#[verifier::spinoff_prover]
pub proof fn lemma_update_round_trip(table: Seq<char>, column: Seq<char>, var: Seq<char>, cond: Seq<char>)
    requires
        table.len() > 0,
        forall|j: int| 0 <= j < table.len() ==> crate::text::is_name_char(#[trigger] table[j]),
        upper(table) != "SET"@,
        column.len() > 0,
        forall|j: int| 0 <= j < column.len() ==> crate::text::is_name_char(#[trigger] column[j]),
        var.len() > 0,
        forall|j: int| 0 <= j < var.len() ==> crate::text::is_name_char(#[trigger] var[j]),
        cond.len() > 0,
        !crate::text::is_ws(cond[0]),
        !crate::text::is_ws(cond.last()),
    ensures
        spec_exec_sql(
            "UPDATE "@ + table + " SET "@ + column + " = :"@ + var + " WHERE "@ + cond,
        ) == (SqlModel::Update {
            table,
            set_clauses: seq![(column, var)],
            where_clause: Some(cond),
        }),
{
    let after = column + " = :"@ + var + " WHERE "@ + cond;
    let sql = "UPDATE "@ + table + " SET "@ + after;
    assert(sql =~= "UPDATE "@ + table + " SET "@ + column + " = :"@ + var + " WHERE "@ + cond);
    lemma_update_parts(table, column, var, cond);
    assert(sql.take(7) =~= "UPDATE "@ && sql.len() > 7 && sql.last() == cond.last()) by {
        reveal_strlit("UPDATE ");
    }
    lemma_update_keyword(sql);
}

/// ` WHERE ` first occurs right after a name.
#[verifier::rlimit(30)]
#[verifier::spinoff_prover]
proof fn lemma_where_after_name(name: Seq<char>, cond: Seq<char>)
    requires
        name.len() > 0,
        forall|j: int| 0 <= j < name.len() ==> crate::text::is_name_char(#[trigger] name[j]),
    ensures
        find(upper(name + " WHERE "@ + cond), " WHERE "@) == Some(name.len() as int),
{
    reveal_strlit(" WHERE ");
    let nl = name.len() as int;
    let a = name + " WHERE "@ + cond;
    let u = upper(a);
    assert(forall|j: int| 0 <= j < 7 ==> a[nl + j] == " WHERE "@[j]);
    assert(matches_at(u, " WHERE "@, nl)) by {
        assert forall|j: int| 0 <= j < 7 implies u.subrange(nl, nl + 7)[j] == " WHERE "@[j] by {
            lemma_upper_at(a, nl + j);
        }
        assert(u.subrange(nl, nl + 7) =~= " WHERE "@);
    }
    assert forall|j: int| 0 <= j < nl && u[j] == ' ' implies !matches_at(u, " WHERE "@, j) by {
        lemma_upper_at(a, j);
        assert(a[j] == name[j]);
        lemma_name_char_not_sep(name[j]);
    }
    lemma_first_at(u, " WHERE "@, nl);
}

/// A DELETE written as `DELETE FROM table WHERE condition` is read back into that table
/// and that condition, for a table of name characters and a condition without white space
/// at its ends.
#[verifier::rlimit(40)]
#[verifier::spinoff_prover]
pub proof fn lemma_delete_round_trip(table: Seq<char>, cond: Seq<char>)
    requires
        table.len() > 0,
        forall|j: int| 0 <= j < table.len() ==> crate::text::is_name_char(#[trigger] table[j]),
        cond.len() > 0,
        !crate::text::is_ws(cond[0]),
        !crate::text::is_ws(cond.last()),
    ensures
        spec_exec_sql("DELETE FROM "@ + table + " WHERE "@ + cond) == (SqlModel::Delete {
            table,
            where_clause: Some(cond),
        }),
{
    reveal_strlit("DELETE FROM ");
    reveal_strlit(" FROM ");
    reveal_strlit(" WHERE ");
    reveal_strlit("SELECT");
    reveal_strlit("INSERT");
    reveal_strlit("UPDATE");
    reveal_strlit("DELETE");
    let tl = table.len() as int;
    let after = table + " WHERE "@ + cond;
    let sql = "DELETE FROM "@ + after;
    assert(sql =~= "DELETE FROM "@ + table + " WHERE "@ + cond);
    let u = upper(sql);
    assert(forall|j: int| 0 <= j < 12 ==> sql[j] == "DELETE FROM "@[j]);
    assert(matches_at(u, " FROM "@, 6)) by {
        assert forall|j: int| 0 <= j < 6 implies u.subrange(6, 12)[j] == " FROM "@[j] by {
            lemma_upper_at(sql, 6 + j);
        }
        assert(u.subrange(6, 12) =~= " FROM "@);
    }
    assert forall|j: int| 0 <= j < 6 && u[j] == ' ' implies !matches_at(u, " FROM "@, j) by {
        lemma_upper_at(sql, j);
    }
    lemma_first_at(u, " FROM "@, 6);
    assert(sql.skip(12) =~= after);
    lemma_where_after_name(table, cond);
    assert(after.take(tl) =~= table);
    assert(after.skip(tl + 7) =~= cond);
    lemma_name_char_not_sep(table[0]);
    lemma_name_char_not_sep(table[tl - 1]);
    lemma_trim_same(table);
    lemma_trim_same(cond);
    assert(spec_delete(sql) == Some(SqlModel::Delete { table, where_clause: Some(cond) }));
    assert forall|j: int| 0 <= j < 6 implies u.take(6)[j] == "DELETE"@[j] by {
        lemma_upper_at(sql, j);
    }
    assert(u.take(6) =~= "DELETE"@);
    lemma_upper_at(sql, 0);
    lemma_upper_at(sql, sql.len() - 1);
    assert(sql.last() == cond.last());
    lemma_trim_same(u);
    assert(!starts_with(u, "SELECT"@)) by {
        if starts_with(u, "SELECT"@) {
            assert(u.take(6)[0] == "SELECT"@[0]);
        }
    }
    assert(!starts_with(u, "INSERT"@)) by {
        if starts_with(u, "INSERT"@) {
            assert(u.take(6)[0] == "INSERT"@[0]);
        }
    }
    assert(!starts_with(u, "UPDATE"@)) by {
        if starts_with(u, "UPDATE"@) {
            assert(u.take(6)[0] == "UPDATE"@[0]);
        }
    }
}

/// Facts about the two marker lines of a block.
#[verifier::rlimit(30)]
#[verifier::spinoff_prover]
proof fn lemma_marker_lines()
    ensures
        is_exec_start("EXEC SQL"@),
        !is_exec_end("EXEC SQL"@),
        after_exec("EXEC SQL"@) == Seq::<char>::empty(),
        is_exec_end("END-EXEC."@),
{
    reveal_strlit("EXEC SQL");
    reveal_strlit("END-EXEC.");
    reveal_strlit("END-EXEC");
    let a = "EXEC SQL"@;
    let b = "END-EXEC."@;
    assert(upper(a) =~= a);
    assert(upper(b) =~= b);
    lemma_trim_same(a);
    lemma_trim_same(b);
    assert(a.take(8) =~= a);
    assert(!matches_at(a, "END-EXEC"@, 0)) by {
        assert(a.subrange(0, 8)[1] != "END-EXEC"@[1]);
    }
    crate::text::lemma_find_from_none(a, "END-EXEC"@, 1);
    assert(find(a, "END-EXEC"@) is None);
    assert(a.subrange(0, 8) =~= a);
    assert(find(a, "EXEC SQL"@) == Some(0int));
    assert(a.skip(8) =~= Seq::<char>::empty());
    crate::text::lemma_trail_ws(Seq::<char>::empty(), 0);
    assert(b.subrange(0, 8) =~= "END-EXEC"@);
    assert(find(b, "END-EXEC"@) == Some(0int));
}

/// Three lines, `EXEC SQL`, a statement and `END-EXEC.`, make one block: the statement
/// read as `parse_exec_sql` reads it, with the index of the line after `END-EXEC`; for a
/// statement without white space at its ends, a final period, or `EXEC SQL` / `END-EXEC`
/// in it.
#[verifier::rlimit(40)]
#[verifier::spinoff_prover]
pub proof fn lemma_single_block(sql: Seq<char>)
    requires
        sql.len() > 0,
        !crate::text::is_ws(sql[0]),
        !crate::text::is_ws(sql.last()),
        sql.last() != '.',
        !contains(upper(sql), "END-EXEC"@),
        !starts_with(upper(sql), "EXEC SQL"@),
    ensures
        blocks_from(seq!["EXEC SQL"@, sql, "END-EXEC."@], 0) == seq![(3int, spec_exec_sql(sql))],
{
    let ls = seq!["EXEC SQL"@, sql, "END-EXEC."@];
    lemma_marker_lines();
    let u = upper(sql);
    lemma_upper_at(sql, 0);
    lemma_upper_at(sql, sql.len() - 1);
    lemma_trim_same(u);
    assert(!is_exec_start(sql));
    assert(!is_exec_end(sql));
    assert(ls[0] == "EXEC SQL"@ && ls[1] == sql && ls[2] == "END-EXEC."@);
    assert(end_from(ls, 2) == 2);
    assert(end_from(ls, 1) == 2);
    assert(end_from(ls, 0) == 2);
    assert(body_text(ls, 1, 1) == Seq::<char>::empty());
    lemma_trim_same(sql);
    assert(body_text(ls, 1, 2) =~= sql + " "@);
    assert(block_text(ls, 0, 2) =~= sql + " "@);
    reveal_strlit(" ");
    let full = sql + " "@;
    crate::text::lemma_lead_ws(full, 0);
    crate::text::lemma_trail_ws(full, 1);
    assert(full.skip(0) =~= full);
    assert(trim(full) =~= sql);
    crate::text::lemma_trail_char(sql, '.', 0);
    assert(sql.take(sql.len() as int) =~= sql);
    assert(trim_end_char(sql, '.') == sql);
    assert(sql_of_block(full) == sql);
    assert(blocks_from(ls, 0) =~= seq![(3int, spec_exec_sql(sql))]);
}

} // verus!
