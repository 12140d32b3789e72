//! Reading a COBOL source into a program structure, and summarizing it.
use vstd::prelude::*;
use vstd::string::StrSliceExecFns;
use vstd::string::StringExecFns;

use crate::data_division::kw_at;
use crate::statements::first_some;
use crate::text::{
    at_exec, byte_len, find, line_bounds, utf8_len, pieces_of, run, skip_class, std_lines, str_chars, string_of,
    sub_vec, trim, trim_bounds, upper, upper_vec, ws_end, CharClass,
};
use crate::types::{IdentificationDivision, ParseError};

verus! {

// ---------------------------------------------------------------------------
// Source lines
// ---------------------------------------------------------------------------

/// The character index at which byte offset `k` of `line` falls, searching from character
/// `i`: `None` when the offset falls inside a character or past the end.
pub open spec fn char_index_from(line: Seq<char>, k: nat, i: int) -> Option<int>
    decreases line.len() - i,
{
    if i < 0 || i > line.len() {
        None
    } else if byte_len(line.take(i)) == k {
        Some(i)
    } else if byte_len(line.take(i)) > k || i == line.len() {
        None
    } else {
        char_index_from(line, k, i + 1)
    }
}

/// The character index at which byte offset `k` of `line` falls, if it falls between two
/// characters.
pub open spec fn char_index(line: Seq<char>, k: nat) -> Option<int> {
    char_index_from(line, k, 0)
}

/// The byte offset after the last column read: 72, or the line's end when it is shorter.
pub open spec fn strip_end(line: Seq<char>) -> nat {
    if byte_len(line) < 72 {
        byte_len(line)
    } else {
        72
    }
}

/// The seventh character (the indicator column) is `*` or `/`.
pub open spec fn is_comment_line(line: Seq<char>) -> bool {
    line.len() > 6 && (line[6] == '*' || line[6] == '/')
}

/// The line can be stripped: it is short, a comment, or its byte offsets 7 and
/// `strip_end` both fall between characters.
pub open spec fn strip_ok(line: Seq<char>) -> bool {
    byte_len(line) <= 6 || is_comment_line(line) || (char_index(line, 7) is Some && char_index(
        line,
        strip_end(line),
    ) is Some)
}

/// A fixed-format line without its sequence area (bytes 1-6), indicator (column 7) and
/// identification area (from byte 73): empty for a line of at most six bytes and for a
/// comment line, whose indicator is `*` or `/`.
pub open spec fn stripped(line: Seq<char>) -> Seq<char> {
    if byte_len(line) <= 6 {
        Seq::empty()
    } else if is_comment_line(line) {
        Seq::empty()
    } else {
        match (char_index(line, 7), char_index(line, strip_end(line))) {
            (Some(a), Some(b)) => line.subrange(a, b),
            _ => Seq::empty(),
        }
    }
}

proof fn lemma_byte_len_step(s: Seq<char>, i: int)
    requires
        0 <= i < s.len(),
    ensures
        byte_len(s.take(i + 1)) == byte_len(s.take(i)) + utf8_len(s[i]),
        utf8_len(s[i]) >= 1,
{
    assert(s.take(i + 1).drop_last() =~= s.take(i));
}

/// Prefix byte lengths grow strictly with the prefix.
proof fn lemma_prefix_bytes(s: Seq<char>, i: int, j: int)
    requires
        0 <= i <= j <= s.len(),
    ensures
        byte_len(s.take(i)) <= byte_len(s.take(j)),
        i < j ==> byte_len(s.take(i)) < byte_len(s.take(j)),
    decreases j - i,
{
    if i < j {
        lemma_prefix_bytes(s, i, j - 1);
        lemma_byte_len_step(s, j - 1);
    }
}

/// A prefix has at most the bytes of the whole.
proof fn lemma_prefix_bytes_total(s: Seq<char>, i: int)
    requires
        0 <= i <= s.len(),
    ensures
        byte_len(s.take(i)) <= byte_len(s),
{
    lemma_prefix_bytes(s, i, s.len() as int);
    assert(s.take(s.len() as int) =~= s);
}

proof fn lemma_char_index_found(s: Seq<char>, k: nat, i: int)
    requires
        0 <= i <= s.len(),
    ensures
        char_index_from(s, k, i) matches Some(a) ==> i <= a <= s.len() && byte_len(s.take(a)) == k,
    decreases s.len() - i,
{
    if byte_len(s.take(i)) != k && !(byte_len(s.take(i)) > k || i == s.len()) {
        lemma_char_index_found(s, k, i + 1);
    }
}

/// Where byte offset `k` (at most 72) of `v` falls, counted in characters.
fn char_index_exec(v: &Vec<char>, k: usize) -> (r: Option<usize>)
    requires
        k <= 72,
    ensures
        match char_index(v@, k as nat) {
            Some(a) => r == Some(a as usize) && 0 <= a <= v@.len() && byte_len(v@.take(a)) == k,
            None => r is None,
        },
{
    let n = v.len();
    let mut i: usize = 0;
    let mut acc: usize = 0;
    proof {
        assert(v@.take(0) =~= Seq::<char>::empty());
        lemma_char_index_found(v@, k as nat, 0);
    }
    while i < n && acc < k
        invariant
            i <= n == v@.len(),
            k <= 72,
            acc == byte_len(v@.take(i as int)),
            acc < k + 4,
            char_index(v@, k as nat) == char_index_from(v@, k as nat, i as int),
        decreases n - i,
    {
        proof {
            lemma_byte_len_step(v@, i as int);
        }
        acc = acc + crate::text::utf8_len_exec(v[i]);
        i = i + 1;
    }
    proof {
        lemma_char_index_found(v@, k as nat, 0);
    }
    if acc == k {
        Some(i)
    } else {
        None
    }
}

/// `min(byte_len(v), 72)`.
fn capped_byte_len(v: &Vec<char>) -> (r: usize)
    ensures
        r == strip_end(v@),
{
    let n = v.len();
    let mut i: usize = 0;
    let mut acc: usize = 0;
    proof {
        assert(v@.take(0) =~= Seq::<char>::empty());
    }
    while i < n && acc < 72
        invariant
            i <= n == v@.len(),
            acc == byte_len(v@.take(i as int)),
            acc < 76,
        decreases n - i,
    {
        proof {
            lemma_byte_len_step(v@, i as int);
        }
        acc = acc + crate::text::utf8_len_exec(v[i]);
        i = i + 1;
    }
    proof {
        lemma_prefix_bytes_total(v@, i as int);
        if i == n {
            assert(v@.take(n as int) =~= v@);
        }
    }
    if acc < 72 {
        acc
    } else {
        72
    }
}

/// Every character of `s` is ASCII, one byte in UTF-8.
pub open spec fn all_ascii(s: Seq<char>) -> bool {
    forall|k: int| 0 <= k < s.len() ==> (#[trigger] s[k] as u32) < 0x80
}

proof fn lemma_ascii_bytes(s: Seq<char>)
    requires
        all_ascii(s),
    ensures
        crate::text::byte_len(s) == s.len(),
    decreases s.len(),
{
    if s.len() > 0 {
        assert(all_ascii(s.drop_last())) by {
            assert forall|k: int| 0 <= k < s.drop_last().len() implies (#[trigger] s.drop_last()[k]
                as u32) < 0x80 by {
                assert(s.drop_last()[k] == s[k]);
            }
        }
        lemma_ascii_bytes(s.drop_last());
        assert((s[s.len() - 1] as u32) < 0x80);
    }
}

proof fn lemma_ascii_char_index(line: Seq<char>, k: nat, i: int)
    requires
        all_ascii(line),
        0 <= i <= k <= line.len(),
    ensures
        char_index_from(line, k, i) == Some(k as int),
    decreases line.len() - i,
{
    assert(all_ascii(line.take(i))) by {
        assert forall|j: int| 0 <= j < line.take(i).len() implies (#[trigger] line.take(i)[j]
            as u32) < 0x80 by {
            assert(line.take(i)[j] == line[j]);
        }
    }
    lemma_ascii_bytes(line.take(i));
    if i < k {
        lemma_ascii_char_index(line, k, i + 1);
    }
}

/// On an ASCII line, stripping keeps exactly columns 8 to 72 (character positions 7 up
/// to 72, or to the line's end when it is shorter); a comment line or a line of at most
/// six characters gives nothing.
#[verifier::spinoff_prover]
pub proof fn lemma_ascii_line_columns(line: Seq<char>)
    requires
        all_ascii(line),
    ensures
        strip_ok(line),
        line.len() <= 6 || is_comment_line(line) ==> stripped(line) == Seq::<char>::empty(),
        line.len() > 6 && !is_comment_line(line) ==> stripped(line) == line.subrange(
            7,
            if line.len() < 72 {
                line.len() as int
            } else {
                72
            },
        ),
{
    lemma_ascii_bytes(line);
    if line.len() > 6 {
        lemma_ascii_char_index(line, 7, 0);
        lemma_ascii_char_index(line, strip_end(line), 0);
    }
}

/// `stripped(v)`.
fn strip_vec(v: &Vec<char>) -> (r: Vec<char>)
    requires
        strip_ok(v@),
    ensures
        r@ == stripped(v@),
{
    let n = v.len();
    let e = capped_byte_len(v);
    if e <= 6 {
        return Vec::new();
    }
    if n > 6 && (v[6] == '*' || v[6] == '/') {
        return Vec::new();
    }
    proof {
        assert(byte_len(v@) > 6);
        assert(!is_comment_line(v@));
    }
    let a = char_index_exec(v, 7);
    let b = char_index_exec(v, e);
    match (a, b) {
        (Some(a), Some(b)) => {
            proof {
                if b < a {
                    lemma_prefix_bytes(v@, b as int, a as int);
                }
                assert(char_index(v@, 7) == Some(a as int));
                assert(char_index(v@, strip_end(v@)) == Some(b as int));
            }
            crate::text::sub_vec(v, a, b)
        },
        _ => {
            proof {
                assert(false);
            }
            Vec::new()
        },
    }
}

/// Strip COBOL fixed-format columns: columns 1-6 (sequence number) and 7 (indicator).
/// Lines starting with * in column 7 are comments.
pub fn strip_cobol_line(line: &str) -> (r: String)
    requires
        strip_ok(line@),
    ensures
        r@ == stripped(line@),
{
    let v = str_chars(line);
    let s = strip_vec(&v);
    proof {
        assert(s@.subrange(0, s@.len() as int) =~= s@);
    }
    string_of(&s, 0, s.len())
}

/// Every line of `source` can be stripped.
pub open spec fn lines_strippable(source: Seq<char>) -> bool {
    forall|i: int| 0 <= i < std_lines(source).len() ==> strip_ok(#[trigger] std_lines(source)[i])
}

/// `strip_ok(v)`.
fn strip_ok_exec(v: &Vec<char>) -> (r: bool)
    ensures
        r == strip_ok(v@),
{
    let n = v.len();
    let e = capped_byte_len(v);
    if e <= 6 {
        return true;
    }
    if n > 6 && (v[6] == '*' || v[6] == '/') {
        return true;
    }
    char_index_exec(v, 7).is_some() && char_index_exec(v, e).is_some()
}

/// Whether every line of `source` can be stripped.
fn lines_strippable_exec(source: &str) -> (r: bool)
    ensures
        r == lines_strippable(source@),
{
    let v = str_chars(source);
    let bs = line_bounds(&v);
    let mut k: usize = 0;
    while k < bs.len()
        invariant
            k <= bs@.len(),
            v@ == source@,
            pieces_of(v@, bs@) == std_lines(v@),
            forall|m: int| 0 <= m < bs@.len() ==> (#[trigger] bs@[m]).0 <= bs@[m].1 <= v@.len(),
            forall|m: int| 0 <= m < k ==> strip_ok(#[trigger] std_lines(v@)[m]),
        decreases bs@.len() - k,
    {
        let (a, b) = bs[k];
        proof {
            assert(std_lines(v@)[k as int] == v@.subrange(a as int, b as int));
        }
        let line = sub_vec(&v, a, b);
        if !strip_ok_exec(&line) {
            return false;
        }
        k = k + 1;
    }
    true
}

/// The program text lines: the source's lines, each stripped of its fixed-format columns.
pub open spec fn program_lines(source: Seq<char>) -> Seq<Seq<char>> {
    std_lines(source).map_values(|l: Seq<char>| stripped(l))
}

fn program_lines_exec(source: &str) -> (r: Vec<Vec<char>>)
    requires
        lines_strippable(source@),
    ensures
        r@.map_values(|l: Vec<char>| l@) == program_lines(source@),
        r@.len() == program_lines(source@).len(),
{
    let v = str_chars(source);
    let bs = line_bounds(&v);
    let mut r: Vec<Vec<char>> = Vec::new();
    let mut k: usize = 0;
    while k < bs.len()
        invariant
            k <= bs@.len(),
            v@ == source@,
            pieces_of(v@, bs@) == std_lines(v@),
            lines_strippable(v@),
            forall|m: int| 0 <= m < bs@.len() ==> (#[trigger] bs@[m]).0 <= bs@[m].1 <= v@.len(),
            r@.len() == k,
            forall|m: int| 0 <= m < k ==> (#[trigger] r@[m])@ == stripped(std_lines(v@)[m]),
        decreases bs@.len() - k,
    {
        let (a, b) = bs[k];
        proof {
            assert(std_lines(v@)[k as int] == v@.subrange(a as int, b as int));
        }
        let line = sub_vec(&v, a, b);
        let s = strip_vec(&line);
        r.push(s);
        k = k + 1;
    }
    proof {
        assert(r@.map_values(|l: Vec<char>| l@) =~= program_lines(source@));
    }
    r
}

// ---------------------------------------------------------------------------
// IDENTIFICATION DIVISION
// ---------------------------------------------------------------------------

/// `PROGRAM-ID. name` read at `p`: the bounds of the name.
pub open spec fn pid_at(l: Seq<char>, p: int) -> Option<(int, int)> {
    let q = ws_end(l, p + 11);
    let e = q + run(l, q, CharClass::Name);
    if kw_at(l, p, "PROGRAM-ID."@) && e > q {
        Some((q, e))
    } else {
        None
    }
}

pub open spec fn pid_f(l: Seq<char>) -> spec_fn(int) -> Option<(int, int)> {
    |p: int| pid_at(l, p)
}

/// The program name that line `l` declares, if any.
pub open spec fn program_id_in(l: Seq<char>) -> Option<Seq<char>> {
    match first_some(l.len() as int, 0, pid_f(l)) {
        Some((q, e)) => Some(l.subrange(q, e)),
        None => None,
    }
}

/// A line `PROGRAM-ID. name.` (any text after the name) declares that name, for a name of
/// name characters.
#[verifier::rlimit(30)]
#[verifier::spinoff_prover]
pub proof fn lemma_program_id_round_trip(name: Seq<char>, rest: Seq<char>)
    requires
        name.len() > 0,
        forall|j: int| 0 <= j < name.len() ==> crate::text::is_name_char(#[trigger] name[j]),
    ensures
        program_id_in("PROGRAM-ID. "@ + name + "."@ + rest) == Some(name),
{
    reveal_strlit("PROGRAM-ID. ");
    reveal_strlit("PROGRAM-ID.");
    reveal_strlit(".");
    let nl = name.len() as int;
    let l = "PROGRAM-ID. "@ + name + "."@ + rest;
    assert(forall|j: int| 0 <= j < 12 ==> l[j] == "PROGRAM-ID. "@[j]);
    assert(forall|j: int| 0 <= j < nl ==> l[12 + j] == name[j]);
    assert(l[12 + nl] == '.');
    assert(upper(l).subrange(0, 11) =~= "PROGRAM-ID."@);
    assert(crate::text::is_name_char(name[0]));
    crate::text::lemma_run(l, 11, CharClass::Space);
    crate::text::lemma_run(l, 12, CharClass::Space);
    assert(ws_end(l, 11) == 12);
    crate::text::lemma_run(l, 12, CharClass::Name);
    let r = run(l, 12, CharClass::Name);
    if r < nl {
        assert(crate::text::in_class(l[12 + r as int], CharClass::Name));
    }
    if r > nl {
        assert(crate::text::in_class(l[12 + nl], CharClass::Name));
    }
    assert(r == nl);
    assert(pid_at(l, 0) == Some((12int, 12 + nl)));
    assert(l.subrange(12, 12 + nl) =~= name);
}

/// The program name that the first declaring line from `i` on gives.
pub open spec fn program_id_from(ls: Seq<Seq<char>>, i: int) -> Option<Seq<char>>
    decreases ls.len() - i,
{
    if i < 0 || i >= ls.len() {
        None
    } else if program_id_in(ls[i]) is Some {
        program_id_in(ls[i])
    } else {
        program_id_from(ls, i + 1)
    }
}

pub open spec fn vviews(ls: Seq<Vec<char>>) -> Seq<Seq<char>> {
    ls.map_values(|l: Vec<char>| l@)
}

fn pid_at_exec(l: &Vec<char>, up: &Vec<char>, p: usize) -> (r: Option<(usize, usize)>)
    requires
        up@ == upper(l@),
        p <= l@.len(),
    ensures
        match r {
            Some((q, e)) => pid_at(l@, p as int) == Some((q as int, e as int)) && q <= e <= l@.len(),
            None => pid_at(l@, p as int) is None,
        },
{
    let _n = l.len();
    if !at_exec(up, p, "PROGRAM-ID.") {
        return None;
    }
    proof {
        reveal_strlit("PROGRAM-ID.");
    }
    let q = skip_class(l, p + 11, CharClass::Space);
    let e = skip_class(l, q, CharClass::Name);
    if e > q {
        Some((q, e))
    } else {
        None
    }
}

fn program_id_in_exec(l: &Vec<char>) -> (r: Option<String>)
    ensures
        crate::exec_sql::opt_str(r) == program_id_in(l@),
{
    let up = upper_vec(l);
    let n = l.len();
    let mut p: usize = 0;
    while p < n
        invariant
            n == l@.len(),
            p <= n,
            up@ == upper(l@),
            first_some(n as int, 0, pid_f(l@)) == first_some(n as int, p as int, pid_f(l@)),
        decreases n - p,
    {
        if let Some((q, e)) = pid_at_exec(l, &up, p) {
            return Some(string_of(l, q, e));
        }
        p = p + 1;
    }
    proof {
        assert(first_some(n as int, n + 1, pid_f(l@)) is None);
    }
    match pid_at_exec(l, &up, n) {
        Some((q, e)) => Some(string_of(l, q, e)),
        None => None,
    }
}

fn extract_program_id(lines: &Vec<Vec<char>>) -> (r: Result<String, ParseError>)
    ensures
        match program_id_from(vviews(lines@), 0) {
            Some(id) => r matches Ok(s) && s@ == id,
            None => r == Err::<String, ParseError>(ParseError::MissingProgramId),
        },
{
    let ghost ls = vviews(lines@);
    let mut i: usize = 0;
    while i < lines.len()
        invariant
            i <= lines@.len(),
            ls == vviews(lines@),
            program_id_from(ls, 0) == program_id_from(ls, i as int),
        decreases lines@.len() - i,
    {
        if let Some(id) = program_id_in_exec(&lines[i]) {
            return Ok(id);
        }
        i = i + 1;
    }
    Err(ParseError::MissingProgramId)
}

/// The trimmed rest of line `l` after the first `kw` (ignoring ASCII case), when that rest
/// is not empty.
pub open spec fn text_after(l: Seq<char>, kw: Seq<char>) -> Option<Seq<char>> {
    match find(upper(l), kw) {
        Some(p) => if p + kw.len() < l.len() {
            Some(trim(l.subrange(p + kw.len(), l.len() as int)))
        } else {
            None
        },
        None => None,
    }
}

/// The value that the last of `ls[0..k]` giving one gives.
pub open spec fn last_text_after(ls: Seq<Seq<char>>, kw: Seq<char>, k: int) -> Option<Seq<char>>
    decreases k,
{
    if k <= 0 || k > ls.len() {
        None
    } else if text_after(ls[k - 1], kw) is Some {
        text_after(ls[k - 1], kw)
    } else {
        last_text_after(ls, kw, k - 1)
    }
}

fn text_after_exec(l: &Vec<char>, kw: &str) -> (r: Option<String>)
    ensures
        crate::exec_sql::opt_str(r) == text_after(l@, kw@),
{
    let n = l.len();
    match crate::text::find_upper(l, kw) {
        Some(p) => {
            let e = p + kw.unicode_len();
            if e < n {
                let (a, b) = trim_bounds(l, e, n);
                Some(string_of(l, a, b))
            } else {
                None
            }
        },
        None => None,
    }
}

/// The identification division: the program name (or `UNKNOWN`), and the last AUTHOR and
/// DATE-WRITTEN values.
pub open spec fn identification_is(d: IdentificationDivision, ls: Seq<Seq<char>>) -> bool {
    &&& d.program_id@ == (match program_id_from(ls, 0) {
        Some(id) => id,
        None => "UNKNOWN"@,
    })
    &&& crate::exec_sql::opt_str(d.author) == last_text_after(ls, "AUTHOR."@, ls.len() as int)
    &&& crate::exec_sql::opt_str(d.date_written) == last_text_after(
        ls,
        "DATE-WRITTEN."@,
        ls.len() as int,
    )
}

fn parse_identification_division(lines: &Vec<Vec<char>>) -> (r: IdentificationDivision)
    ensures
        identification_is(r, vviews(lines@)),
{
    let program_id = match extract_program_id(lines) {
        Ok(id) => id,
        Err(_) => String::from_str("UNKNOWN"),
    };
    let ghost ls = vviews(lines@);
    let mut author: Option<String> = None;
    let mut date_written: Option<String> = None;
    let mut i: usize = 0;
    while i < lines.len()
        invariant
            i <= lines@.len(),
            ls == vviews(lines@),
            crate::exec_sql::opt_str(author) == last_text_after(ls, "AUTHOR."@, i as int),
            crate::exec_sql::opt_str(date_written) == last_text_after(ls, "DATE-WRITTEN."@, i as int),
        decreases lines@.len() - i,
    {
        if let Some(a) = text_after_exec(&lines[i], "AUTHOR.") {
            author = Some(a);
        }
        if let Some(d) = text_after_exec(&lines[i], "DATE-WRITTEN.") {
            date_written = Some(d);
        }
        i = i + 1;
    }
    IdentificationDivision { program_id, author, date_written }
}

} // verus!

verus! {

// ---------------------------------------------------------------------------
// Division and section headers
// ---------------------------------------------------------------------------

/// `w1` and `w2` (upper case) read at `p` with white space between them.
pub open spec fn pair_at(l: Seq<char>, p: int, w1: Seq<char>, w2: Seq<char>) -> Option<int> {
    let q = ws_end(l, p + w1.len());
    if kw_at(l, p, w1) && q > p + w1.len() && kw_at(l, q, w2) {
        Some(p)
    } else {
        None
    }
}

pub open spec fn pair_f(l: Seq<char>, w1: Seq<char>, w2: Seq<char>) -> spec_fn(int) -> Option<int> {
    |p: int| pair_at(l, p, w1, w2)
}

/// Line `l` holds `w1`, white space and `w2`, ignoring ASCII case.
pub open spec fn has_pair(l: Seq<char>, w1: Seq<char>, w2: Seq<char>) -> bool {
    first_some(l.len() as int, 0, pair_f(l, w1, w2)) is Some
}

fn pair_at_exec(l: &Vec<char>, up: &Vec<char>, p: usize, w1: &str, w2: &str) -> (r: bool)
    requires
        up@ == upper(l@),
        p <= l@.len(),
    ensures
        r == (pair_at(l@, p as int, w1@, w2@) is Some),
{
    let _n = l.len();
    if !at_exec(up, p, w1) {
        return false;
    }
    let e = p + w1.unicode_len();
    let q = skip_class(l, e, CharClass::Space);
    q > e && at_exec(up, q, w2)
}

fn has_pair_exec(l: &Vec<char>, up: &Vec<char>, w1: &str, w2: &str) -> (r: bool)
    requires
        up@ == upper(l@),
    ensures
        r == has_pair(l@, w1@, w2@),
{
    let n = l.len();
    let mut p: usize = 0;
    while p < n
        invariant
            n == l@.len(),
            p <= n,
            up@ == upper(l@),
            first_some(n as int, 0, pair_f(l@, w1@, w2@)) == first_some(
                n as int,
                p as int,
                pair_f(l@, w1@, w2@),
            ),
        decreases n - p,
    {
        if pair_at_exec(l, up, p, w1, w2) {
            return true;
        }
        p = p + 1;
    }
    proof {
        assert(first_some(n as int, n + 1, pair_f(l@, w1@, w2@)) is None);
    }
    pair_at_exec(l, up, n, w1, w2)
}

/// Line `l` is a header of any of the four divisions.
pub open spec fn any_division(l: Seq<char>) -> bool {
    ||| has_pair(l, "IDENTIFICATION"@, "DIVISION"@)
    ||| has_pair(l, "ENVIRONMENT"@, "DIVISION"@)
    ||| has_pair(l, "DATA"@, "DIVISION"@)
    ||| has_pair(l, "PROCEDURE"@, "DIVISION"@)
}

/// Scanning from line `i` with the division's start so far: the division runs from its
/// last header line before the next other division header, up to that header or to the
/// end of the lines.
pub open spec fn div_scan(ls: Seq<Seq<char>>, name: Seq<char>, i: int, start: Option<int>) -> Option<(int, int)>
    decreases ls.len() - i,
{
    if i < 0 || i >= ls.len() {
        match start {
            Some(s) => Some((s, ls.len() as int)),
            None => None,
        }
    } else if has_pair(ls[i], name, "DIVISION"@) {
        div_scan(ls, name, i + 1, Some(i))
    } else if start is Some && any_division(ls[i]) {
        Some((start->0, i))
    } else {
        div_scan(ls, name, i + 1, start)
    }
}

/// The lines `[start, end)` of the division `name`.
pub open spec fn division_range(ls: Seq<Seq<char>>, name: Seq<char>) -> Option<(int, int)> {
    div_scan(ls, name, 0, None)
}

pub open spec fn uviews(ls: Seq<Vec<char>>) -> Seq<Seq<char>> {
    ls.map_values(|l: Vec<char>| upper(l@))
}

fn upper_lines(lines: &Vec<Vec<char>>) -> (r: Vec<Vec<char>>)
    ensures
        r@.len() == lines@.len(),
        forall|i: int| 0 <= i < r@.len() ==> (#[trigger] r@[i])@ == upper(lines@[i]@),
{
    let mut r: Vec<Vec<char>> = Vec::new();
    let mut i: usize = 0;
    while i < lines.len()
        invariant
            i <= lines@.len(),
            r@.len() == i,
            forall|k: int| 0 <= k < i ==> (#[trigger] r@[k])@ == upper(lines@[k]@),
        decreases lines@.len() - i,
    {
        r.push(upper_vec(&lines[i]));
        i = i + 1;
    }
    r
}

fn any_division_exec(l: &Vec<char>, up: &Vec<char>) -> (r: bool)
    requires
        up@ == upper(l@),
    ensures
        r == any_division(l@),
{
    has_pair_exec(l, up, "IDENTIFICATION", "DIVISION") || has_pair_exec(l, up, "ENVIRONMENT", "DIVISION")
        || has_pair_exec(l, up, "DATA", "DIVISION") || has_pair_exec(l, up, "PROCEDURE", "DIVISION")
}

fn find_division_range(lines: &Vec<Vec<char>>, ups: &Vec<Vec<char>>, division_name: &str) -> (r: Option<(usize, usize)>)
    requires
        ups@.len() == lines@.len(),
        forall|i: int| 0 <= i < ups@.len() ==> (#[trigger] ups@[i])@ == upper(lines@[i]@),
    ensures
        match r {
            Some((s, e)) => division_range(vviews(lines@), division_name@) == Some((s as int, e as int))
                && s < e <= lines@.len(),
            None => division_range(vviews(lines@), division_name@) is None,
        },
{
    let ghost ls = vviews(lines@);
    let mut start: Option<usize> = None;
    let mut i: usize = 0;
    while i < lines.len()
        invariant
            i <= lines@.len(),
            ls == vviews(lines@),
            ups@.len() == lines@.len(),
            forall|k: int| 0 <= k < ups@.len() ==> (#[trigger] ups@[k])@ == upper(lines@[k]@),
            start matches Some(s) ==> s < i,
            division_range(ls, division_name@) == div_scan(
                ls,
                division_name@,
                i as int,
                match start {
                    Some(s) => Some(s as int),
                    None => None,
                },
            ),
        decreases lines@.len() - i,
    {
        proof {
            assert(ls[i as int] == lines@[i as int]@);
        }
        if has_pair_exec(&lines[i], &ups[i], division_name, "DIVISION") {
            start = Some(i);
        } else if start.is_some() && any_division_exec(&lines[i], &ups[i]) {
            let s = start.unwrap();
            return Some((s, i));
        }
        i = i + 1;
    }
    match start {
        Some(s) => Some((s, lines.len())),
        None => None,
    }
}

} // verus!

verus! {

// ---------------------------------------------------------------------------
// ENVIRONMENT DIVISION
// ---------------------------------------------------------------------------

pub type Span = (int, int);

/// `SELECT name ASSIGN TO ["]target["]` read at `p`: the name, the target, and where the
/// match ends (after a closing quote, if there is one).
pub open spec fn select_at(t: Seq<char>, p: int) -> Option<(Span, Span, int)> {
    let q = ws_end(t, p + 6);
    let b = q + run(t, q, CharClass::Name);
    let c = ws_end(t, b);
    let d = ws_end(t, c + 6);
    let e = ws_end(t, d + 2);
    if kw_at(t, p, "SELECT"@) && q > p + 6 && b > q && c > b && kw_at(t, c, "ASSIGN"@) && d > c
        + 6 && kw_at(t, d, "TO"@) && e > d + 2 {
        let a0 = if e < t.len() && t[e] == '"' && run(t, e + 1, CharClass::Bare) > 0 {
            e + 1
        } else {
            e
        };
        let a1 = a0 + run(t, a0, CharClass::Bare);
        if a1 > a0 {
            Some(
                (
                    (q, b),
                    (a0, a1),
                    if a1 < t.len() && t[a1] == '"' {
                        a1 + 1
                    } else {
                        a1
                    },
                ),
            )
        } else {
            None
        }
    } else {
        None
    }
}

pub open spec fn select_f(t: Seq<char>) -> spec_fn(int) -> Option<(Span, Span, int)> {
    |p: int| select_at(t, p)
}

/// The SELECT clauses of `t` from `s` on, found one after another without overlap.
pub open spec fn selects_from(t: Seq<char>, s: int) -> Seq<(Span, Span)>
    decreases t.len() + 1 - s,
{
    if s < 0 || s > t.len() {
        Seq::empty()
    } else {
        match first_some(t.len() as int, s, select_f(t)) {
            Some((nm, asg, end)) => if s < end <= t.len() {
                seq![(nm, asg)] + selects_from(t, end)
            } else {
                Seq::empty()
            },
            None => Seq::empty(),
        }
    }
}

/// `ORGANIZATION IS word` read at `p`: the word.
pub open spec fn org_at(t: Seq<char>, p: int) -> Option<Span> {
    let q = ws_end(t, p + 12);
    let r = ws_end(t, q + 2);
    let e = r + run(t, r, CharClass::Word);
    if kw_at(t, p, "ORGANIZATION"@) && q > p + 12 && kw_at(t, q, "IS"@) && r > q + 2 && e > r {
        Some((r, e))
    } else {
        None
    }
}

pub open spec fn org_f(t: Seq<char>) -> spec_fn(int) -> Option<Span> {
    |p: int| org_at(t, p)
}

/// The file organization that the first ORGANIZATION clause of `t` names.
pub open spec fn organization_of(t: Seq<char>) -> crate::types::FileOrganization {
    match first_some(t.len() as int, 0, org_f(t)) {
        Some((r, e)) => if upper(t.subrange(r, e)) == "INDEXED"@ {
            crate::types::FileOrganization::Indexed
        } else if upper(t.subrange(r, e)) == "RELATIVE"@ {
            crate::types::FileOrganization::Relative
        } else {
            crate::types::FileOrganization::Sequential
        },
        None => crate::types::FileOrganization::Sequential,
    }
}

/// `e` holds one file control for each SELECT clause of the text `t`, all with the
/// organization of the text's first ORGANIZATION clause.
pub open spec fn environment_is(e: crate::types::EnvironmentDivision, t: Seq<char>) -> bool {
    let sels = selects_from(t, 0);
    &&& e.file_controls@.len() == sels.len()
    &&& forall|i: int|
        0 <= i < sels.len() ==> {
            &&& (#[trigger] e.file_controls@[i]).name@ == t.subrange(sels[i].0.0, sels[i].0.1)
            &&& e.file_controls@[i].assign_to@ == t.subrange(sels[i].1.0, sels[i].1.1)
            &&& e.file_controls@[i].organization == organization_of(t)
        }
}

/// The lines `ls[s..e]` joined with single spaces.
pub open spec fn joined(ls: Seq<Seq<char>>, s: int, e: int) -> Seq<char> {
    crate::text::join(ls.subrange(s, e), " "@)
}

fn join_lines(lines: &Vec<Vec<char>>, s: usize, e: usize) -> (r: Vec<char>)
    requires
        s <= e <= lines@.len(),
    ensures
        r@ == joined(vviews(lines@), s as int, e as int),
{
    let ghost ls = vviews(lines@);
    let mut r: Vec<char> = Vec::new();
    let mut i = s;
    proof {
        reveal_strlit(" ");
        assert(ls.subrange(s as int, s as int) =~= Seq::<Seq<char>>::empty());
    }
    while i < e
        invariant
            s <= i <= e <= lines@.len(),
            ls == vviews(lines@),
            r@ == crate::text::join(ls.subrange(s as int, i as int), " "@),
            " "@ == seq![' '],
        decreases e - i,
    {
        let ghost r0 = r@;
        if i > s {
            r.push(' ');
        }
        let line = &lines[i];
        let mut k: usize = 0;
        let ghost r1 = r@;
        while k < line.len()
            invariant
                k <= line@.len(),
                r@ == r1 + line@.take(k as int),
            decreases line@.len() - k,
        {
            r.push(line[k]);
            proof {
                assert(line@.take(k + 1) =~= line@.take(k as int).push(line@[k as int]));
            }
            k = k + 1;
        }
        proof {
            assert(line@.take(line@.len() as int) =~= line@);
            let ss = ls.subrange(s as int, i + 1);
            assert(ss.drop_last() =~= ls.subrange(s as int, i as int));
            assert(ss.last() == line@);
            if i > s {
                assert(r@ =~= r0 + " "@ + line@);
            } else {
                assert(ss.len() == 1);
                assert(r@ =~= line@);
            }
        }
        i = i + 1;
    }
    r
}

fn select_at_exec(t: &Vec<char>, up: &Vec<char>, p: usize) -> (r: Option<((usize, usize), (usize, usize), usize)>)
    requires
        up@ == upper(t@),
        p <= t@.len(),
    ensures
        match r {
            Some((nm, asg, end)) => select_at(t@, p as int) == Some(
                ((nm.0 as int, nm.1 as int), (asg.0 as int, asg.1 as int), end as int),
            ) && nm.0 <= nm.1 <= t@.len() && asg.0 <= asg.1 <= t@.len() && p < end <= t@.len(),
            None => select_at(t@, p as int) is None,
        },
{
    let n = t.len();
    if !at_exec(up, p, "SELECT") {
        return None;
    }
    proof {
        reveal_strlit("SELECT");
    }
    let q = skip_class(t, p + 6, CharClass::Space);
    let b = skip_class(t, q, CharClass::Name);
    let c = skip_class(t, b, CharClass::Space);
    if !(q > p + 6 && b > q && c > b && at_exec(up, c, "ASSIGN")) {
        return None;
    }
    proof {
        reveal_strlit("ASSIGN");
    }
    let d = skip_class(t, c + 6, CharClass::Space);
    if !(d > c + 6 && at_exec(up, d, "TO")) {
        return None;
    }
    proof {
        reveal_strlit("TO");
    }
    let e = skip_class(t, d + 2, CharClass::Space);
    if !(e > d + 2) {
        return None;
    }
    let a0 = if e < n && t[e] == '"' && skip_class(t, e + 1, CharClass::Bare) > e + 1 {
        e + 1
    } else {
        e
    };
    let a1 = skip_class(t, a0, CharClass::Bare);
    if !(a1 > a0) {
        return None;
    }
    let end = if a1 < n && t[a1] == '"' {
        a1 + 1
    } else {
        a1
    };
    Some(((q, b), (a0, a1), end))
}

fn select_find(t: &Vec<char>, up: &Vec<char>, s: usize) -> (r: Option<((usize, usize), (usize, usize), usize)>)
    requires
        up@ == upper(t@),
        s <= t@.len(),
    ensures
        match r {
            Some((nm, asg, end)) => first_some(t@.len() as int, s as int, select_f(t@)) == Some(
                ((nm.0 as int, nm.1 as int), (asg.0 as int, asg.1 as int), end as int),
            ) && nm.0 <= nm.1 <= t@.len() && asg.0 <= asg.1 <= t@.len() && s < end <= t@.len(),
            None => first_some(t@.len() as int, s as int, select_f(t@)) is None,
        },
{
    let n = t.len();
    let mut p: usize = s;
    while p < n
        invariant
            n == t@.len(),
            s <= p <= n,
            up@ == upper(t@),
            first_some(n as int, s as int, select_f(t@)) == first_some(n as int, p as int, select_f(t@)),
        decreases n - p,
    {
        if let Some(m) = select_at_exec(t, up, p) {
            return Some(m);
        }
        p = p + 1;
    }
    proof {
        assert(first_some(n as int, n + 1, select_f(t@)) is None);
    }
    select_at_exec(t, up, n)
}

fn organization_exec(t: &Vec<char>, up: &Vec<char>) -> (r: crate::types::FileOrganization)
    requires
        up@ == upper(t@),
    ensures
        r == organization_of(t@),
{
    let n = t.len();
    let mut p: usize = 0;
    while p <= n
        invariant
            n == t@.len(),
            up@ == upper(t@),
            first_some(n as int, 0, org_f(t@)) == first_some(n as int, p as int, org_f(t@)),
        decreases n + 1 - p,
    {
        let m = org_at_exec(t, up, p);
        if let Some((r0, e)) = m {
            proof {
                assert(up@.subrange(r0 as int, e as int) =~= upper(t@.subrange(r0 as int, e as int)));
            }
            if crate::text::equals_exec(up, r0, e, "INDEXED") {
                return crate::types::FileOrganization::Indexed;
            } else if crate::text::equals_exec(up, r0, e, "RELATIVE") {
                return crate::types::FileOrganization::Relative;
            } else {
                return crate::types::FileOrganization::Sequential;
            }
        }
        if p == n {
            proof {
                assert(first_some(n as int, n + 1, org_f(t@)) is None);
            }
            return crate::types::FileOrganization::Sequential;
        }
        p = p + 1;
    }
    crate::types::FileOrganization::Sequential
}

fn org_at_exec(t: &Vec<char>, up: &Vec<char>, p: usize) -> (r: Option<(usize, usize)>)
    requires
        up@ == upper(t@),
        p <= t@.len(),
    ensures
        match r {
            Some((a, b)) => org_at(t@, p as int) == Some((a as int, b as int)) && a <= b <= t@.len(),
            None => org_at(t@, p as int) is None,
        },
{
    let _n = t.len();
    if !at_exec(up, p, "ORGANIZATION") {
        return None;
    }
    proof {
        reveal_strlit("ORGANIZATION");
    }
    let q = skip_class(t, p + 12, CharClass::Space);
    if !(q > p + 12 && at_exec(up, q, "IS")) {
        return None;
    }
    proof {
        reveal_strlit("IS");
    }
    let r0 = skip_class(t, q + 2, CharClass::Space);
    let e = skip_class(t, r0, CharClass::Word);
    if r0 > q + 2 && e > r0 {
        Some((r0, e))
    } else {
        None
    }
}

/// The ENVIRONMENT DIVISION of the lines, if they have one.
fn parse_environment_division(lines: &Vec<Vec<char>>, ups: &Vec<Vec<char>>) -> (r: Option<crate::types::EnvironmentDivision>)
    requires
        ups@.len() == lines@.len(),
        forall|i: int| 0 <= i < ups@.len() ==> (#[trigger] ups@[i])@ == upper(lines@[i]@),
    ensures
        match division_range(vviews(lines@), "ENVIRONMENT"@) {
            Some((s, e)) => r matches Some(env) && environment_is(env, joined(vviews(lines@), s, e)),
            None => r is None,
        },
{
    let (start, end) = match find_division_range(lines, ups, "ENVIRONMENT") {
        Some(x) => x,
        None => return None,
    };
    let full = join_lines(lines, start, end);
    let up = upper_vec(&full);
    let organization = organization_exec(&full, &up);
    let ghost t = full@;
    let ghost sels = selects_from(t, 0);
    let mut file_controls: Vec<crate::types::FileControl> = Vec::new();
    let mut s: usize = 0;
    while s <= full.len()
        invariant
            s <= full@.len(),
            t == full@,
            t == joined(vviews(lines@), start as int, end as int),
            division_range(vviews(lines@), "ENVIRONMENT"@) == Some((start as int, end as int)),
            up@ == upper(t),
            organization == organization_of(t),
            sels == selects_from(t, 0),
            file_controls@.len() <= sels.len(),
            selects_from(t, s as int) == sels.skip(file_controls@.len() as int),
            forall|i: int|
                0 <= i < file_controls@.len() ==> {
                    &&& (#[trigger] file_controls@[i]).name@ == t.subrange(sels[i].0.0, sels[i].0.1)
                    &&& file_controls@[i].assign_to@ == t.subrange(sels[i].1.0, sels[i].1.1)
                    &&& file_controls@[i].organization == organization
                },
        decreases full@.len() + 1 - s,
    {
        match select_find(&full, &up, s) {
            Some((nm, asg, end)) => {
                let ghost k = file_controls@.len() as int;
                proof {
                    assert(selects_from(t, s as int) == seq![
                        ((nm.0 as int, nm.1 as int), (asg.0 as int, asg.1 as int)),
                    ] + selects_from(t, end as int));
                }
                file_controls.push(
                    crate::types::FileControl {
                        name: string_of(&full, nm.0, nm.1),
                        assign_to: string_of(&full, asg.0, asg.1),
                        organization,
                    },
                );
                proof {
                    assert(sels.skip(k)[0] == sels[k]);
                    assert(sels[k] == ((nm.0 as int, nm.1 as int), (asg.0 as int, asg.1 as int)));
                    assert(sels.skip(k + 1) =~= sels.skip(k).drop_first());
                }
                s = end;
            },
            None => {
                proof {
                    assert(selects_from(t, s as int) =~= Seq::<(Span, Span)>::empty());
                    assert(sels.skip(file_controls@.len() as int).len() == 0);
                }
                return Some(crate::types::EnvironmentDivision { file_controls });
            },
        }
    }
    Some(crate::types::EnvironmentDivision { file_controls })
}

} // verus!

verus! {

// ---------------------------------------------------------------------------
// DATA DIVISION
// ---------------------------------------------------------------------------

/// One past the index of the last of `sl[0..k]` that holds `w1 w2`.
pub open spec fn last_pair(sl: Seq<Seq<char>>, w1: Seq<char>, w2: Seq<char>, k: int) -> Option<int>
    decreases k,
{
    if k <= 0 || k > sl.len() {
        None
    } else if has_pair(sl[k - 1], w1, w2) {
        Some(k)
    } else {
        last_pair(sl, w1, w2, k - 1)
    }
}

/// Where the FILE SECTION's lines start (after its last header), if there is one.
pub open spec fn file_start(sl: Seq<Seq<char>>) -> Option<int> {
    last_pair(sl, "FILE"@, "SECTION"@, sl.len() as int)
}

/// Where the WORKING-STORAGE SECTION's lines start (after its last header), if any.
pub open spec fn storage_start(sl: Seq<Seq<char>>) -> Option<int> {
    last_pair(sl, "WORKING-STORAGE"@, "SECTION"@, sl.len() as int)
}

/// `FD name` at the start of a line: the bounds of the name.
pub open spec fn fd_name(l: Seq<char>) -> Option<Span> {
    let a = ws_end(l, 0);
    let b = ws_end(l, a + 2);
    let e = b + run(l, b, CharClass::Name);
    if kw_at(l, a, "FD"@) && b > a + 2 && e > b {
        Some((b, e))
    } else {
        None
    }
}

/// `w1 CONTAINS digits w2` read at `p`: the bounds of the digits.
pub open spec fn contains_at(l: Seq<char>, p: int, w1: Seq<char>, w2: Seq<char>) -> Option<Span> {
    let q = ws_end(l, p + w1.len());
    let r = ws_end(l, q + 8);
    let e = r + run(l, r, CharClass::Digit);
    let f = ws_end(l, e);
    if kw_at(l, p, w1) && q > p + w1.len() && kw_at(l, q, "CONTAINS"@) && r > q + 8 && e > r && f
        > e && kw_at(l, f, w2) {
        Some((r, e))
    } else {
        None
    }
}

pub open spec fn contains_f(l: Seq<char>, w1: Seq<char>, w2: Seq<char>) -> spec_fn(int) -> Option<Span> {
    |p: int| contains_at(l, p, w1, w2)
}

/// The number of the first `w1 CONTAINS n w2` clause of the line, if there is a clause:
/// `Some(None)` when the number does not fit in a `usize`.
pub open spec fn contains_value(l: Seq<char>, w1: Seq<char>, w2: Seq<char>) -> Option<Option<nat>> {
    match first_some(l.len() as int, 0, contains_f(l, w1, w2)) {
        Some((r, e)) => Some(
            if crate::text::digits_value(l.subrange(r, e)) <= usize::MAX {
                Some(crate::text::digits_value(l.subrange(r, e)))
            } else {
                None
            },
        ),
        None => None,
    }
}

/// The line opens a record layout: trimmed, it starts with `01 `.
pub open spec fn opens_record(l: Seq<char>) -> bool {
    crate::text::starts_with(trim(l), "01 "@)
}

/// Where the clauses of an FD that precede line `j` end: at the next FD line, the next
/// record layout, or the end.
pub open spec fn fd_stop(fl: Seq<Seq<char>>, j: int) -> int
    decreases fl.len() - j,
{
    if j < 0 || j >= fl.len() {
        fl.len() as int
    } else if fd_name(fl[j]) is Some || opens_record(fl[j]) {
        j
    } else {
        fd_stop(fl, j + 1)
    }
}

/// The number that the last clause in `fl[a..b]` gives.
pub open spec fn last_value(fl: Seq<Seq<char>>, a: int, b: int, w1: Seq<char>, w2: Seq<char>) -> Option<nat>
    decreases b - a,
{
    if b <= a || b > fl.len() || a < 0 {
        None
    } else {
        match contains_value(fl[b - 1], w1, w2) {
            Some(v) => v,
            None => last_value(fl, a, b - 1, w1, w2),
        }
    }
}

/// The number of an FD at line `i`: from the last clause among the lines that follow it,
/// else from its own line.
pub open spec fn fd_value(fl: Seq<Seq<char>>, i: int, w1: Seq<char>, w2: Seq<char>) -> Option<nat> {
    match last_value(fl, i + 1, fd_stop(fl, i + 1), w1, w2) {
        Some(v) => Some(v),
        None => match contains_value(fl[i], w1, w2) {
            Some(v) => v,
            None => None,
        },
    }
}

/// What an FD line is read into.
pub struct FdModel {
    pub name: Seq<char>,
    pub record_len: Option<nat>,
    pub block_contains: Option<nat>,
}

/// The file descriptions of `fl[i..]`.
pub open spec fn fds_from(fl: Seq<Seq<char>>, i: int) -> Seq<FdModel>
    decreases fl.len() - i,
{
    if i < 0 || i >= fl.len() {
        Seq::empty()
    } else {
        match fd_name(fl[i]) {
            Some((a, b)) => seq![
                FdModel {
                    name: fl[i].subrange(a, b),
                    record_len: fd_value(fl, i, "RECORD"@, "CHARACTER"@),
                    block_contains: fd_value(fl, i, "BLOCK"@, "RECORD"@),
                },
            ] + fds_from(fl, i + 1),
            None => fds_from(fl, i + 1),
        }
    }
}

/// The lines of the FILE SECTION: up to the WORKING-STORAGE header, or to the end.
pub open spec fn file_lines(sl: Seq<Seq<char>>) -> Seq<Seq<char>> {
    match file_start(sl) {
        Some(f) => sl.subrange(
            f,
            match storage_start(sl) {
                Some(w) => w,
                None => sl.len() as int,
            },
        ),
        None => Seq::empty(),
    }
}

/// The lines of the WORKING-STORAGE SECTION: from its header to the end.
pub open spec fn storage_lines(sl: Seq<Seq<char>>) -> Seq<Seq<char>> {
    match storage_start(sl) {
        Some(w) => sl.skip(w),
        None => Seq::empty(),
    }
}

/// The FILE SECTION does not start after the WORKING-STORAGE SECTION, and the data item
/// lines have PIC strings whose counts fit: the DATA DIVISION can be read.
pub open spec fn data_section_ok(sl: Seq<Seq<char>>) -> bool {
    &&& match (file_start(sl), storage_start(sl)) {
        (Some(f), Some(w)) => f <= w,
        _ => true,
    }
    &&& crate::data_division::data_items_ok(storage_lines(sl))
}

pub open spec fn opt_nat(o: Option<usize>) -> Option<nat> {
    match o {
        Some(x) => Some(x as nat),
        None => None,
    }
}

/// `d` is the file description `m`, with no record layout.
pub open spec fn fd_is(d: crate::types::FileDescription, m: FdModel) -> bool {
    &&& d.fd_name@ == m.name
    &&& opt_nat(d.record_len) == m.record_len
    &&& opt_nat(d.block_contains) == m.block_contains
    &&& d.record@.len() == 0
}

/// `d` is what the DATA DIVISION lines `sl` describe.
pub open spec fn data_is(d: crate::types::DataDivision, sl: Seq<Seq<char>>) -> bool {
    let fds = fds_from(file_lines(sl), 0);
    let items = crate::data_division::flat_items(storage_lines(sl));
    &&& d.file_section@.len() == fds.len()
    &&& forall|i: int| 0 <= i < fds.len() ==> fd_is(#[trigger] d.file_section@[i], fds[i])
    &&& crate::data_division::forest_is(d.working_storage@, items, 0, items.len() as int)
}

} // verus!

verus! {

/// Copies of `lines[s..e]` and of their upper-case forms.
fn copy_lines(lines: &Vec<Vec<char>>, s: usize, e: usize) -> (r: (Vec<Vec<char>>, Vec<Vec<char>>))
    requires
        s <= e <= lines@.len(),
    ensures
        vviews(r.0@) == vviews(lines@).subrange(s as int, e as int),
        r.1@.len() == r.0@.len(),
        forall|i: int| 0 <= i < r.1@.len() ==> (#[trigger] r.1@[i])@ == upper(r.0@[i]@),
{
    let mut a: Vec<Vec<char>> = Vec::new();
    let mut u: Vec<Vec<char>> = Vec::new();
    let mut i = s;
    while i < e
        invariant
            s <= i <= e <= lines@.len(),
            vviews(a@) == vviews(lines@).subrange(s as int, i as int),
            u@.len() == a@.len(),
            forall|k: int| 0 <= k < u@.len() ==> (#[trigger] u@[k])@ == upper(a@[k]@),
        decreases e - i,
    {
        let l = sub_vec(&lines[i], 0, lines[i].len());
        proof {
            assert(lines@[i as int]@.subrange(0, lines@[i as int]@.len() as int) =~= lines@[i as int]@);
        }
        let ul = upper_vec(&l);
        let ghost a0 = vviews(a@);
        a.push(l);
        u.push(ul);
        proof {
            assert(vviews(a@) =~= a0.push(l@));
            assert(vviews(lines@).subrange(s as int, i + 1) =~= vviews(lines@).subrange(s as int, i as int).push(lines@[i as int]@));
        }
        i = i + 1;
    }
    (a, u)
}

fn last_pair_exec(sec: &Vec<Vec<char>>, ups: &Vec<Vec<char>>, w1: &str, w2: &str) -> (r: Option<usize>)
    requires
        ups@.len() == sec@.len(),
        forall|i: int| 0 <= i < ups@.len() ==> (#[trigger] ups@[i])@ == upper(sec@[i]@),
    ensures
        match r {
            Some(k) => last_pair(vviews(sec@), w1@, w2@, sec@.len() as int) == Some(k as int) && k
                <= sec@.len(),
            None => last_pair(vviews(sec@), w1@, w2@, sec@.len() as int) is None,
        },
{
    let ghost sl = vviews(sec@);
    let mut last: Option<usize> = None;
    let mut i: usize = 0;
    while i < sec.len()
        invariant
            i <= sec@.len(),
            sl == vviews(sec@),
            ups@.len() == sec@.len(),
            forall|k: int| 0 <= k < ups@.len() ==> (#[trigger] ups@[k])@ == upper(sec@[k]@),
            match last {
                Some(k) => last_pair(sl, w1@, w2@, i as int) == Some(k as int) && k <= i,
                None => last_pair(sl, w1@, w2@, i as int) is None,
            },
        decreases sec@.len() - i,
    {
        proof {
            assert(sl[i as int] == sec@[i as int]@);
        }
        if has_pair_exec(&sec[i], &ups[i], w1, w2) {
            last = Some(i + 1);
        }
        i = i + 1;
    }
    last
}

fn fd_name_exec(l: &Vec<char>, up: &Vec<char>) -> (r: Option<(usize, usize)>)
    requires
        up@ == upper(l@),
    ensures
        match r {
            Some((a, b)) => fd_name(l@) == Some((a as int, b as int)) && a <= b <= l@.len(),
            None => fd_name(l@) is None,
        },
{
    let _n = l.len();
    let a = skip_class(l, 0, CharClass::Space);
    if !at_exec(up, a, "FD") {
        return None;
    }
    proof {
        reveal_strlit("FD");
    }
    let b = skip_class(l, a + 2, CharClass::Space);
    let e = skip_class(l, b, CharClass::Name);
    if b > a + 2 && e > b {
        Some((b, e))
    } else {
        None
    }
}

fn contains_at_exec(l: &Vec<char>, up: &Vec<char>, p: usize, w1: &str, w2: &str) -> (r: Option<(usize, usize)>)
    requires
        up@ == upper(l@),
        p <= l@.len(),
    ensures
        match r {
            Some((a, b)) => contains_at(l@, p as int, w1@, w2@) == Some((a as int, b as int)) && a <= b
                <= l@.len() && forall|j: int| a <= j < b ==> crate::text::is_digit(#[trigger] l@[j]),
            None => contains_at(l@, p as int, w1@, w2@) is None,
        },
{
    let _n = l.len();
    if !at_exec(up, p, w1) {
        return None;
    }
    let e1 = p + w1.unicode_len();
    let q = skip_class(l, e1, CharClass::Space);
    if !(q > e1 && at_exec(up, q, "CONTAINS")) {
        return None;
    }
    proof {
        reveal_strlit("CONTAINS");
    }
    let r0 = skip_class(l, q + 8, CharClass::Space);
    let e = skip_class(l, r0, CharClass::Digit);
    let f = skip_class(l, e, CharClass::Space);
    if r0 > q + 8 && e > r0 && f > e && at_exec(up, f, w2) {
        proof {
            crate::text::lemma_run(l@, r0 as int, CharClass::Digit);
        }
        Some((r0, e))
    } else {
        None
    }
}

fn contains_value_exec(l: &Vec<char>, up: &Vec<char>, w1: &str, w2: &str) -> (r: Option<Option<usize>>)
    requires
        up@ == upper(l@),
    ensures
        match contains_value(l@, w1@, w2@) {
            Some(v) => r matches Some(x) && opt_nat(x) == v,
            None => r is None,
        },
{
    let n = l.len();
    let mut p: usize = 0;
    while p <= n
        invariant
            n == l@.len(),
            up@ == upper(l@),
            first_some(n as int, 0, contains_f(l@, w1@, w2@)) == first_some(
                n as int,
                p as int,
                contains_f(l@, w1@, w2@),
            ),
        decreases n + 1 - p,
    {
        if let Some((a, b)) = contains_at_exec(l, up, p, w1, w2) {
            let v = crate::text::digits_upto(l, a, b, usize::MAX as u64);
            return Some(
                match v {
                    Some(x) => Some(x as usize),
                    None => None,
                },
            );
        }
        if p == n {
            proof {
                assert(first_some(n as int, n + 1, contains_f(l@, w1@, w2@)) is None);
            }
            return None;
        }
        p = p + 1;
    }
    None
}

fn opens_record_exec(l: &Vec<char>) -> (r: bool)
    ensures
        r == opens_record(l@),
{
    let (a, b) = trim_bounds(l, 0, l.len());
    proof {
        assert(l@.subrange(0, l@.len() as int) =~= l@);
    }
    crate::text::starts_with_exec(l, a, b, "01 ")
}

} // verus!

verus! {

/// The number of the FD at line `i` of `fl`, as `fd_value` describes.
fn fd_value_exec(fl: &Vec<Vec<char>>, fups: &Vec<Vec<char>>, i: usize, w1: &str, w2: &str) -> (r: Option<usize>)
    requires
        i < fl@.len(),
        fups@.len() == fl@.len(),
        forall|k: int| 0 <= k < fups@.len() ==> (#[trigger] fups@[k])@ == upper(fl@[k]@),
    ensures
        opt_nat(r) == fd_value(vviews(fl@), i as int, w1@, w2@),
{
    let ghost ls = vviews(fl@);
    let _n = fl.len();
    let mut v: Option<usize> = None;
    let mut j = i + 1;
    while j < fl.len() && !(fd_name_exec(&fl[j], &fups[j]).is_some() || opens_record_exec(&fl[j]))
        invariant
            i < j <= fl@.len(),
            ls == vviews(fl@),
            fups@.len() == fl@.len(),
            forall|k: int| 0 <= k < fups@.len() ==> (#[trigger] fups@[k])@ == upper(fl@[k]@),
            fd_stop(ls, i + 1) == fd_stop(ls, j as int),
            opt_nat(v) == last_value(ls, i + 1, j as int, w1@, w2@),
        decreases fl@.len() - j,
    {
        proof {
            assert(ls[j as int] == fl@[j as int]@);
        }
        match contains_value_exec(&fl[j], &fups[j], w1, w2) {
            Some(x) => {
                v = x;
            },
            None => {},
        }
        j = j + 1;
    }
    proof {
        if j < fl@.len() {
            assert(ls[j as int] == fl@[j as int]@);
        }
        assert(fd_stop(ls, j as int) == j);
        assert(ls[i as int] == fl@[i as int]@);
    }
    if v.is_some() {
        return v;
    }
    match contains_value_exec(&fl[i], &fups[i], w1, w2) {
        Some(x) => x,
        None => None,
    }
}

/// The file descriptions of the FILE SECTION lines `fl`.
fn parse_file_section(fl: &Vec<Vec<char>>, fups: &Vec<Vec<char>>) -> (r: Vec<crate::types::FileDescription>)
    requires
        fups@.len() == fl@.len(),
        forall|k: int| 0 <= k < fups@.len() ==> (#[trigger] fups@[k])@ == upper(fl@[k]@),
    ensures
        r@.len() == fds_from(vviews(fl@), 0).len(),
        forall|k: int|
            0 <= k < r@.len() ==> fd_is(#[trigger] r@[k], fds_from(vviews(fl@), 0)[k]),
{
    let ghost ls = vviews(fl@);
    let mut fds: Vec<crate::types::FileDescription> = Vec::new();
    let mut i: usize = 0;
    while i < fl.len()
        invariant
            i <= fl@.len(),
            ls == vviews(fl@),
            fups@.len() == fl@.len(),
            forall|k: int| 0 <= k < fups@.len() ==> (#[trigger] fups@[k])@ == upper(fl@[k]@),
            fds@.len() + fds_from(ls, i as int).len() == fds_from(ls, 0).len(),
            forall|k: int| 0 <= k < fds@.len() ==> fd_is(#[trigger] fds@[k], fds_from(ls, 0)[k]),
            fds_from(ls, i as int) =~= fds_from(ls, 0).skip(fds@.len() as int),
        decreases fl@.len() - i,
    {
        proof {
            assert(ls[i as int] == fl@[i as int]@);
        }
        if let Some((a, b)) = fd_name_exec(&fl[i], &fups[i]) {
            let record_len = fd_value_exec(fl, fups, i, "RECORD", "CHARACTER");
            let block_contains = fd_value_exec(fl, fups, i, "BLOCK", "RECORD");
            let ghost k = fds@.len() as int;
            fds.push(
                crate::types::FileDescription {
                    fd_name: string_of(&fl[i], a, b),
                    record_len,
                    block_contains,
                    record: Vec::new(),
                },
            );
            proof {
                let all = fds_from(ls, 0);
                assert(all.skip(k)[0] == all[k]);
                assert(all.skip(k + 1) =~= all.skip(k).drop_first());
            }
        }
        i = i + 1;
    }
    fds
}

/// The DATA DIVISION of the lines, if they have one.
fn parse_data_division(lines: &Vec<Vec<char>>, ups: &Vec<Vec<char>>) -> (r: Option<crate::types::DataDivision>)
    requires
        ups@.len() == lines@.len(),
        forall|i: int| 0 <= i < ups@.len() ==> (#[trigger] ups@[i])@ == upper(lines@[i]@),
        division_range(vviews(lines@), "DATA"@) matches Some((s, e)) ==> data_section_ok(
            vviews(lines@).subrange(s, e),
        ),
    ensures
        match division_range(vviews(lines@), "DATA"@) {
            Some((s, e)) => r matches Some(d) && data_is(d, vviews(lines@).subrange(s, e)),
            None => r is None,
        },
{
    let (start, end) = match find_division_range(lines, ups, "DATA") {
        Some(x) => x,
        None => return None,
    };
    let (sec, sups) = copy_lines(lines, start, end);
    let ghost sl = vviews(sec@);
    let fs_start = last_pair_exec(&sec, &sups, "FILE", "SECTION");
    let ws_start = last_pair_exec(&sec, &sups, "WORKING-STORAGE", "SECTION");
    let file_section = match fs_start {
        Some(fs) => {
            let fs_end = match ws_start {
                Some(w) => w,
                None => sec.len(),
            };
            let (fl, fups) = copy_lines(&sec, fs, fs_end);
            proof {
                assert(vviews(fl@) == file_lines(sl));
            }
            parse_file_section(&fl, &fups)
        },
        None => {
            proof {
                assert(fds_from(file_lines(sl), 0) =~= Seq::<FdModel>::empty());
            }
            Vec::new()
        },
    };
    let working_storage = match ws_start {
        Some(w) => {
            let mut strings: Vec<String> = Vec::new();
            let mut i = w;
            while i < sec.len()
                invariant
                    w <= i <= sec@.len(),
                    crate::text::strs(strings@) == sl.subrange(w as int, i as int),
                    sl == vviews(sec@),
                decreases sec@.len() - i,
            {
                let ghost s0 = crate::text::strs(strings@);
                strings.push(string_of(&sec[i], 0, sec[i].len()));
                proof {
                    assert(sec@[i as int]@.subrange(0, sec@[i as int]@.len() as int) =~= sec@[i as int]@);
                    assert(crate::text::strs(strings@) =~= s0.push(sl[i as int]));
                    assert(sl.subrange(w as int, i + 1) =~= sl.subrange(w as int, i as int).push(sl[i as int]));
                }
                i = i + 1;
            }
            let mut refs: Vec<&str> = Vec::new();
            let mut k: usize = 0;
            while k < strings.len()
                invariant
                    k <= strings@.len(),
                    refs@.len() == k,
                    forall|m: int| 0 <= m < k ==> (#[trigger] refs@[m])@ == strings@[m]@,
                decreases strings@.len() - k,
            {
                refs.push(strings[k].as_str());
                k = k + 1;
            }
            proof {
                assert(crate::data_division::str_views(refs@) =~= crate::text::strs(strings@));
                assert(sl.subrange(w as int, sl.len() as int) =~= sl.skip(w as int));
                assert(crate::data_division::str_views(refs@) == storage_lines(sl));
            }
            match crate::data_division::parse_data_items(refs.as_slice()) {
                Ok(items) => items,
                Err(_) => Vec::new(),
            }
        },
        None => {
            proof {
                assert(storage_lines(sl) =~= Seq::<Seq<char>>::empty());
                assert(crate::data_division::flat_items(storage_lines(sl)) =~= Seq::<crate::data_division::FlatItem>::empty());
            }
            Vec::new()
        },
    };
    Some(crate::types::DataDivision { file_section, working_storage })
}

} // verus!

verus! {

// ---------------------------------------------------------------------------
// PROCEDURE DIVISION
// ---------------------------------------------------------------------------

use crate::statements::{statement_of, stmt_is, StmtModel};

/// A paragraph header line, trimmed: a name that starts with an upper-case ASCII letter,
/// followed by a period.
pub open spec fn para_header(t: Seq<char>) -> Option<Seq<char>> {
    let n = t.len() as int;
    if n >= 2 && 'A' <= t[0] && t[0] <= 'Z' && 1 + run(t, 1, CharClass::Name) == n - 1 && t[n
        - 1] == '.' {
        Some(t.take(n - 1))
    } else {
        None
    }
}

/// The state of the paragraph scanner: finished paragraphs, and the current paragraph's
/// name and statements.
pub struct ProcState {
    pub paras: Seq<(Seq<char>, Seq<StmtModel>)>,
    pub name: Seq<char>,
    pub stmts: Seq<StmtModel>,
}

/// One line through the scanner: a header closes the current paragraph (unless it is the
/// unnamed `MAIN` one with no statements) and opens a new one; any other line adds its
/// statement, if it has one.
pub open spec fn proc_step(st: ProcState, line: Seq<char>) -> ProcState {
    let t = trim(line);
    if t.len() == 0 {
        st
    } else {
        match para_header(t) {
            Some(nm) => ProcState {
                paras: if st.stmts.len() > 0 || st.name != "MAIN"@ {
                    st.paras.push((st.name, st.stmts))
                } else {
                    st.paras
                },
                name: nm,
                stmts: Seq::empty(),
            },
            None => match statement_of(t) {
                Some(m) => ProcState { stmts: st.stmts.push(m), ..st },
                None => st,
            },
        }
    }
}

pub open spec fn proc_run(ls: Seq<Seq<char>>) -> ProcState
    decreases ls.len(),
{
    if ls.len() == 0 {
        ProcState { paras: Seq::empty(), name: "MAIN"@, stmts: Seq::empty() }
    } else {
        proc_step(proc_run(ls.drop_last()), ls.last())
    }
}

/// The paragraphs of the PROCEDURE DIVISION lines `ls`; the last one is kept only when it
/// has statements.
pub open spec fn procedure_paras(ls: Seq<Seq<char>>) -> Seq<(Seq<char>, Seq<StmtModel>)> {
    let st = proc_run(ls);
    if st.stmts.len() > 0 {
        st.paras.push((st.name, st.stmts))
    } else {
        st.paras
    }
}

pub open spec fn stmts_are(ss: Seq<crate::types::Statement>, ms: Seq<StmtModel>) -> bool {
    ss.len() == ms.len() && forall|j: int| 0 <= j < ss.len() ==> stmt_is(#[trigger] ss[j], ms[j])
}

pub open spec fn paras_are(ps: Seq<crate::types::Paragraph>, ms: Seq<(Seq<char>, Seq<StmtModel>)>) -> bool {
    ps.len() == ms.len() && forall|j: int|
        0 <= j < ps.len() ==> (#[trigger] ps[j]).name@ == ms[j].0 && stmts_are(
            ps[j].statements@,
            ms[j].1,
        )
}

/// `p` is what the PROCEDURE DIVISION lines `ls` (after its header) describe.
pub open spec fn procedure_is(p: crate::types::ProcedureDivision, ls: Seq<Seq<char>>) -> bool {
    p.sections@.len() == 0 && paras_are(p.paragraphs@, procedure_paras(ls))
}

pub open spec fn no_lf(ls: Seq<Seq<char>>) -> bool {
    forall|i: int| 0 <= i < ls.len() ==> !(#[trigger] ls[i]).contains('\n')
}

fn str_is(s: &String, p: &str) -> (r: bool)
    ensures
        r == (s@ == p@),
{
    let v = str_chars(s.as_str());
    proof {
        assert(v@.subrange(0, v@.len() as int) =~= v@);
    }
    crate::text::equals_exec(&v, 0, v.len(), p)
}

fn para_header_exec(t: &Vec<char>) -> (r: Option<String>)
    ensures
        crate::exec_sql::opt_str(r) == para_header(t@),
{
    let n = t.len();
    if n >= 2 && 'A' <= t[0] && t[0] <= 'Z' && skip_class(t, 1, CharClass::Name) == n - 1 && t[n
        - 1] == '.' {
        proof {
            assert(t@.subrange(0, n - 1) =~= t@.take(n - 1));
        }
        Some(string_of(t, 0, n - 1))
    } else {
        None
    }
}

/// Close the current paragraph into `paragraphs`, when it is kept.
fn close_paragraph(
    paragraphs: &mut Vec<crate::types::Paragraph>,
    current_name: String,
    current_statements: Vec<crate::types::Statement>,
    Ghost(st): Ghost<ProcState>,
    always: bool,
)
    requires
        paras_are(old(paragraphs)@, st.paras),
        current_name@ == st.name,
        stmts_are(current_statements@, st.stmts),
    ensures
        paras_are(
            final(paragraphs)@,
            if always || st.stmts.len() > 0 || st.name != "MAIN"@ {
                st.paras.push((st.name, st.stmts))
            } else {
                st.paras
            },
        ),
{
    let keep = current_statements.len() > 0 || !str_is(&current_name, "MAIN");
    if always || keep {
        let ghost p0 = paragraphs@;
        paragraphs.push(
            crate::types::Paragraph { name: current_name, statements: current_statements },
        );
        proof {
            let np = st.paras.push((st.name, st.stmts));
            assert forall|j: int| 0 <= j < paragraphs@.len() implies (#[trigger] paragraphs@[j]).name@
                == np[j].0 && stmts_are(paragraphs@[j].statements@, np[j].1) by {
                if j < p0.len() {
                    assert(paragraphs@[j] == p0[j]);
                }
            }
        }
    }
}

/// One PROCEDURE DIVISION line through the paragraph scanner.
fn proc_line(
    paragraphs: &mut Vec<crate::types::Paragraph>,
    current_name: &mut String,
    current_statements: &mut Vec<crate::types::Statement>,
    line: &Vec<char>,
    Ghost(st): Ghost<ProcState>,
)
    requires
        !line@.contains('\n'),
        paras_are(old(paragraphs)@, st.paras),
        old(current_name)@ == st.name,
        stmts_are(old(current_statements)@, st.stmts),
    ensures
        paras_are(final(paragraphs)@, proc_step(st, line@).paras),
        final(current_name)@ == proc_step(st, line@).name,
        stmts_are(final(current_statements)@, proc_step(st, line@).stmts),
{
    let (ta, tb) = trim_bounds(line, 0, line.len());
    proof {
        assert(line@.subrange(0, line@.len() as int) =~= line@);
    }
    let t = sub_vec(line, ta, tb);
    if t.len() == 0 {
        return;
    }
    match para_header_exec(&t) {
        Some(name) => {
            let mut stmts: Vec<crate::types::Statement> = Vec::new();
            std::mem::swap(&mut stmts, current_statements);
            let mut old_name = name;
            std::mem::swap(&mut old_name, current_name);
            close_paragraph(paragraphs, old_name, stmts, Ghost(st), false);
            proof {
                assert(current_statements@ =~= Seq::<crate::types::Statement>::empty());
            }
        },
        None => {
            let ts = string_of(&t, 0, t.len());
            proof {
                assert(t@.subrange(0, t@.len() as int) =~= t@);
                assert(!t@.contains('\n')) by {
                    if t@.contains('\n') {
                        let j = choose|j: int| 0 <= j < t@.len() && t@[j] == '\n';
                        assert(line@[ta + j] == '\n');
                    }
                }
                crate::text::lemma_trim_idempotent(line@);
            }
            match crate::statements::parse_statement(ts.as_str()) {
                Some(stmt) => {
                    let ghost c0 = current_statements@;
                    current_statements.push(stmt);
                    proof {
                        let ns = st.stmts.push(statement_of(t@)->0);
                        assert forall|j: int| 0 <= j < current_statements@.len() implies stmt_is(
                            #[trigger] current_statements@[j],
                            ns[j],
                        ) by {
                            if j < c0.len() {
                                assert(current_statements@[j] == c0[j]);
                            }
                        }
                    }
                },
                None => {},
            }
        },
    }
}

/// The PROCEDURE DIVISION of the lines, if they have one.
fn parse_procedure_division(lines: &Vec<Vec<char>>, ups: &Vec<Vec<char>>) -> (r: Option<crate::types::ProcedureDivision>)
    requires
        ups@.len() == lines@.len(),
        forall|i: int| 0 <= i < ups@.len() ==> (#[trigger] ups@[i])@ == upper(lines@[i]@),
        no_lf(vviews(lines@)),
    ensures
        match division_range(vviews(lines@), "PROCEDURE"@) {
            Some((s, e)) => r matches Some(p) && procedure_is(p, vviews(lines@).subrange(s + 1, e)),
            None => r is None,
        },
{
    let (start, end) = match find_division_range(lines, ups, "PROCEDURE") {
        Some(x) => x,
        None => return None,
    };
    let ghost ls = vviews(lines@);
    let ghost sec = ls.subrange(start + 1, end as int);
    let mut paragraphs: Vec<crate::types::Paragraph> = Vec::new();
    let mut current_name = String::from_str("MAIN");
    let mut current_statements: Vec<crate::types::Statement> = Vec::new();
    proof {
        reveal_strlit("MAIN");
        assert(sec.take(0) =~= Seq::<Seq<char>>::empty());
    }
    let mut i = start + 1;
    while i < end
        invariant
            start < end <= lines@.len(),
            start + 1 <= i <= end,
            ls == vviews(lines@),
            sec == ls.subrange(start + 1, end as int),
            no_lf(ls),
            paras_are(paragraphs@, proc_run(sec.take(i - start - 1)).paras),
            current_name@ == proc_run(sec.take(i - start - 1)).name,
            stmts_are(current_statements@, proc_run(sec.take(i - start - 1)).stmts),
        decreases end - i,
    {
        let ghost k = i - start - 1;
        proof {
            assert(sec.take(k + 1).drop_last() =~= sec.take(k));
            assert(sec.take(k + 1).last() == lines@[i as int]@);
            assert(ls[i as int] == lines@[i as int]@);
        }
        proc_line(
            &mut paragraphs,
            &mut current_name,
            &mut current_statements,
            &lines[i],
            Ghost(proc_run(sec.take(k))),
        );
        i = i + 1;
    }
    proof {
        assert(sec.take(end - start - 1) =~= sec);
    }
    if current_statements.len() > 0 {
        close_paragraph(&mut paragraphs, current_name, current_statements, Ghost(proc_run(sec)), true);
    }
    Some(crate::types::ProcedureDivision { sections: Vec::new(), paragraphs })
}

} // verus!

verus! {

// ---------------------------------------------------------------------------
// The whole program
// ---------------------------------------------------------------------------

use crate::types::{CobolProgram, DataItem, ProgramSummary};

/// Every line can be stripped of its fixed-format columns, and the source's DATA
/// DIVISION, if any, can be read (see `data_section_ok`).
pub open spec fn source_ok(source: Seq<char>) -> bool {
    let ls = program_lines(source);
    &&& lines_strippable(source)
    &&& (division_range(ls, "DATA"@) matches Some((s, e)) ==> data_section_ok(ls.subrange(s, e)))
}

/// `p` is the program that `source` describes: its name from the first PROGRAM-ID line,
/// and each division that has a header, read from its lines.
pub open spec fn program_is(p: CobolProgram, source: Seq<char>) -> bool {
    let ls = program_lines(source);
    &&& program_id_from(ls, 0) == Some(p.program_id@)
    &&& identification_is(p.identification, ls)
    &&& match division_range(ls, "ENVIRONMENT"@) {
        Some((s, e)) => p.environment matches Some(env) && environment_is(env, joined(ls, s, e)),
        None => p.environment is None,
    }
    &&& match division_range(ls, "DATA"@) {
        Some((s, e)) => p.data matches Some(d) && data_is(d, ls.subrange(s, e)),
        None => p.data is None,
    }
    &&& match division_range(ls, "PROCEDURE"@) {
        Some((s, e)) => p.procedure matches Some(pd) && procedure_is(pd, ls.subrange(s + 1, e)),
        None => p.procedure is None,
    }
}

proof fn lemma_program_lines_no_lf(source: Seq<char>)
    ensures
        no_lf(program_lines(source)),
{
    crate::text::lemma_lines_no_lf(source);
    let ls = program_lines(source);
    assert forall|i: int| 0 <= i < ls.len() implies !(#[trigger] ls[i]).contains('\n') by {
        let l = std_lines(source)[i];
        assert(!l.contains('\n'));
        if ls[i].contains('\n') {
            let j = choose|j: int| 0 <= j < ls[i].len() && ls[i][j] == '\n';
            lemma_char_index_found(l, 7, 0);
            lemma_char_index_found(l, strip_end(l), 0);
            match (char_index(l, 7), char_index(l, strip_end(l))) {
                (Some(a), Some(b)) => {
                    if b < a {
                        lemma_prefix_bytes(l, b, a);
                    }
                    assert(ls[i] == l.subrange(a, b));
                    assert(l[a + j] == '\n');
                },
                _ => {},
            }
        }
    }
}

/// Parse a COBOL source file into a structured CobolProgram.
pub fn parse_cobol_source(source: &str) -> (r: Result<CobolProgram, ParseError>)
    requires
        source_ok(source@),
    ensures
        match program_id_from(program_lines(source@), 0) {
            Some(_) => r matches Ok(p) && program_is(p, source@),
            None => r == Err::<CobolProgram, ParseError>(ParseError::MissingProgramId),
        },
{
    let lines = program_lines_exec(source);
    let ups = upper_lines(&lines);
    proof {
        assert(vviews(lines@) == program_lines(source@));
        lemma_program_lines_no_lf(source@);
    }
    let program_id = match extract_program_id(&lines) {
        Ok(id) => id,
        Err(e) => return Err(e),
    };
    let identification = parse_identification_division(&lines);
    let environment = parse_environment_division(&lines, &ups);
    let data = parse_data_division(&lines, &ups);
    let procedure = parse_procedure_division(&lines, &ups);
    Ok(CobolProgram { program_id, identification, environment, data, procedure })
}

/// Number of data items in a forest, every nested item included.
pub fn count_data_items(items: &[DataItem]) -> (r: usize)
    requires
        crate::data_division::item_count(items@) <= usize::MAX,
    ensures
        r == crate::data_division::item_count(items@),
    decreases items@,
{
    let mut total: usize = 0;
    let mut i: usize = 0;
    while i < items.len()
        invariant
            i <= items@.len(),
            total == crate::data_division::item_count(items@.take(i as int)),
            crate::data_division::item_count(items@) <= usize::MAX,
        decreases items@.len() - i,
    {
        proof {
            let t = items@.take(i + 1);
            assert(t.drop_last() =~= items@.take(i as int));
            assert(t.last() == items@[i as int]);
            crate::data_division::lemma_item_count_append(t, items@.skip(i + 1));
            assert(t + items@.skip(i + 1) =~= items@);
        }
        let c = count_data_items(items[i].children.as_slice());
        total = total + 1 + c;
        i = i + 1;
    }
    proof {
        assert(items@.take(items@.len() as int) =~= items@);
    }
    total
}

} // verus!

verus! {

/// The division names that a summary lists: IDENTIFICATION, then each other division
/// that has a header.
pub open spec fn divisions_of(ls: Seq<Seq<char>>) -> Seq<Seq<char>> {
    seq!["IDENTIFICATION"@] + (if division_range(ls, "ENVIRONMENT"@) is Some {
        seq!["ENVIRONMENT"@]
    } else {
        Seq::empty()
    }) + (if division_range(ls, "DATA"@) is Some {
        seq!["DATA"@]
    } else {
        Seq::empty()
    }) + (if division_range(ls, "PROCEDURE"@) is Some {
        seq!["PROCEDURE"@]
    } else {
        Seq::empty()
    })
}

/// `s` summarizes the program that `source`, read from `path`, describes.
pub open spec fn summary_is(s: ProgramSummary, path: Seq<char>, source: Seq<char>) -> bool {
    let ls = program_lines(source);
    &&& s.file_path@ == path
    &&& program_id_from(ls, 0) == Some(s.program_id@)
    &&& crate::text::strs(s.divisions@) == divisions_of(ls)
    &&& s.data_items == (match division_range(ls, "DATA"@) {
        Some((a, b)) => crate::data_division::flat_items(storage_lines(ls.subrange(a, b))).len(),
        None => 0,
    })
    &&& s.paragraphs == (match division_range(ls, "PROCEDURE"@) {
        Some((a, b)) => procedure_paras(ls.subrange(a + 1, b)).len(),
        None => 0,
    })
    &&& s.file_io == ((match division_range(ls, "ENVIRONMENT"@) {
        Some((a, b)) => selects_from(joined(ls, a, b), 0).len() > 0,
        None => false,
    }) || (match division_range(ls, "DATA"@) {
        Some((a, b)) => fds_from(file_lines(ls.subrange(a, b)), 0).len() > 0,
        None => false,
    }))
    &&& s.line_count == std_lines(source).len()
}

proof fn lemma_div_scan_bounds(ls: Seq<Seq<char>>, name: Seq<char>, i: int, start: Option<int>)
    requires
        0 <= i <= ls.len(),
        start matches Some(x) ==> 0 <= x < i,
    ensures
        div_scan(ls, name, i, start) matches Some((s, e)) ==> 0 <= s < e <= ls.len(),
    decreases ls.len() - i,
{
    if i < ls.len() {
        if has_pair(ls[i], name, "DIVISION"@) {
            lemma_div_scan_bounds(ls, name, i + 1, Some(i));
        } else if !(start is Some && any_division(ls[i])) {
            lemma_div_scan_bounds(ls, name, i + 1, start);
        }
    }
}

proof fn lemma_last_pair_bounds(sl: Seq<Seq<char>>, w1: Seq<char>, w2: Seq<char>, k: int)
    ensures
        last_pair(sl, w1, w2, k) matches Some(x) ==> 1 <= x <= k && x <= sl.len(),
    decreases k,
{
    if k > 0 && k <= sl.len() && !has_pair(sl[k - 1], w1, w2) {
        lemma_last_pair_bounds(sl, w1, w2, k - 1);
    }
}

proof fn lemma_flat_items_len(ls: Seq<Seq<char>>)
    ensures
        crate::data_division::flat_items(ls).len() <= ls.len(),
    decreases ls.len(),
{
    if ls.len() > 0 {
        lemma_flat_items_len(ls.drop_last());
    }
}

/// Analyze a COBOL source file and produce a summary.
pub fn analyze_file(file_path: &str, source: &str) -> (r: Result<ProgramSummary, ParseError>)
    requires
        source_ok(source@),
    ensures
        match program_id_from(program_lines(source@), 0) {
            Some(_) => r matches Ok(s) && summary_is(s, file_path@, source@),
            None => r == Err::<ProgramSummary, ParseError>(ParseError::MissingProgramId),
        },
{
    let program = match parse_cobol_source(source) {
        Ok(p) => p,
        Err(e) => return Err(e),
    };
    let ghost ls = program_lines(source@);
    let sv = str_chars(source);
    let line_count = line_bounds(&sv).len();
    let mut divisions: Vec<String> = Vec::new();
    divisions.push(String::from_str("IDENTIFICATION"));
    if program.environment.is_some() {
        divisions.push(String::from_str("ENVIRONMENT"));
    }
    if program.data.is_some() {
        divisions.push(String::from_str("DATA"));
    }
    if program.procedure.is_some() {
        divisions.push(String::from_str("PROCEDURE"));
    }
    proof {
        assert(crate::text::strs(divisions@) =~= divisions_of(ls));
    }
    let data_items = match &program.data {
        Some(d) => {
            proof {
                let (a, b) = division_range(ls, "DATA"@)->0;
                let sl = ls.subrange(a, b);
                crate::data_division::lemma_hierarchy_keeps_every_item(
                    storage_lines(sl),
                    d.working_storage@,
                );
                lemma_flat_items_len(storage_lines(sl));
                lemma_div_scan_bounds(ls, "DATA"@, 0, None);
                lemma_last_pair_bounds(sl, "WORKING-STORAGE"@, "SECTION"@, sl.len() as int);
                assert(storage_lines(sl).len() <= sl.len());
                assert(ls.len() == std_lines(source@).len());
                assert(line_count == std_lines(source@).len());
            }
            count_data_items(d.working_storage.as_slice())
        },
        None => 0,
    };
    let paragraphs = match &program.procedure {
        Some(p) => p.paragraphs.len(),
        None => 0,
    };
    let has_file_controls = match &program.environment {
        Some(e) => e.file_controls.len() > 0,
        None => false,
    };
    let has_file_section = match &program.data {
        Some(d) => d.file_section.len() > 0,
        None => false,
    };
    Ok(
        ProgramSummary {
            file_path: String::from_str(file_path),
            program_id: program.program_id,
            divisions,
            data_items,
            paragraphs,
            file_io: has_file_controls || has_file_section,
            line_count,
        },
    )
}

} // verus!

verus! {

/// Whether `parse_cobol_source` can read `source`: the FILE SECTION does not start after
/// the WORKING-STORAGE SECTION, and every PIC string of a data item line has counts that
/// fit in a `u32`.
pub fn source_readable(source: &str) -> (r: bool)
    ensures
        r == source_ok(source@),
{
    if !lines_strippable_exec(source) {
        return false;
    }
    let lines = program_lines_exec(source);
    let ups = upper_lines(&lines);
    let ghost ls = program_lines(source@);
    proof {
        assert(vviews(lines@) == ls);
    }
    let (start, end) = match find_division_range(&lines, &ups, "DATA") {
        Some(x) => x,
        None => return true,
    };
    let (sec, sups) = copy_lines(&lines, start, end);
    let ghost sl = vviews(sec@);
    proof {
        assert(sl == ls.subrange(start as int, end as int));
    }
    let fs = last_pair_exec(&sec, &sups, "FILE", "SECTION");
    let ws = last_pair_exec(&sec, &sups, "WORKING-STORAGE", "SECTION");
    if let (Some(f), Some(w)) = (fs, ws) {
        if f > w {
            return false;
        }
    }
    let w = match ws {
        Some(w) => w,
        None => {
            proof {
                assert(storage_lines(sl) =~= Seq::<Seq<char>>::empty());
                assert(crate::data_division::data_items_ok(storage_lines(sl)));
            }
            return true;
        },
    };
    proof {
        lemma_last_pair_bounds(sl, "WORKING-STORAGE"@, "SECTION"@, sl.len() as int);
    }
    let ghost st = storage_lines(sl);
    proof {
        assert(source_ok(source@) == crate::data_division::data_items_ok(st));
    }
    let mut i = w;
    while i < sec.len()
        invariant
            source_ok(source@) == crate::data_division::data_items_ok(st),
            w <= i <= sec@.len(),
            sl == vviews(sec@),
            st == storage_lines(sl),
            st == sl.skip(w as int),
            forall|k: int| 0 <= k < i - w ==> crate::data_division::line_pic_ok(#[trigger] st[k]),
        decreases sec@.len() - i,
    {
        let s = string_of(&sec[i], 0, sec[i].len());
        proof {
            assert(sec@[i as int]@.subrange(0, sec@[i as int]@.len() as int) =~= sec@[i as int]@);
            assert(st[i - w] == sl[i as int]);
        }
        if !crate::data_division::line_pic_fits(s.as_str()) {
            proof {
                assert(!crate::data_division::line_pic_ok(st[i - w]));
                assert(!crate::data_division::data_items_ok(st));
            }
            return false;
        }
        i = i + 1;
    }
    proof {
        assert(crate::data_division::data_items_ok(st));
    }
    true
}

} // verus!
