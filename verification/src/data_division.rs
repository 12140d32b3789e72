//! DATA DIVISION parsing: PIC clauses and data item hierarchies.
use vstd::prelude::*;

use crate::text::{
    decimal, lemma_decimal_digits, in_class, at_exec, digits_upto, digits_value, is_digit, matches_at, run, lemma_run, skip_class, skip_char_backward, trail_ws, ws_end,
    split_bounds, split_char, pieces_of, str_chars, string_of, sub_vec, trim, trim_bounds,
    to_uppercase_string, trim_char, trim_end_char, unicode_upper, upper, upper_vec, CharClass,
};
use crate::exec_sql::opt_str;
use crate::types::{DataItem, ParseError, PicClause, PicType};

verus! {

// ---------------------------------------------------------------------------
// PIC clauses
// ---------------------------------------------------------------------------

pub open spec fn is_pic_letter(c: char) -> bool {
    c == 'X' || c == 'A' || c == '9'
}

/// What the PIC letter at `i` stands for, and where the next symbol starts: `X(n)` stands
/// for `n` characters (1 when `n` does not fit in a `u32`), a bare letter for one.
pub open spec fn pic_step(s: Seq<char>, i: int) -> (nat, int) {
    let k = run(s, i + 2, CharClass::Digit);
    if i + 1 < s.len() && s[i + 1] == '(' && k > 0 && i + 2 + k < s.len() && s[i + 2 + k] == ')' {
        let v = digits_value(s.subrange(i + 2, i + 2 + k));
        (
            if v <= u32::MAX {
                v
            } else {
                1
            },
            i + 3 + k,
        )
    } else {
        (1, i + 1)
    }
}

/// Number of character positions that the PIC letters of `s[i..]` stand for.
pub open spec fn pic_count_from(s: Seq<char>, i: int) -> nat
    decreases s.len() - i,
{
    if i < 0 || i >= s.len() {
        0
    } else if is_pic_letter(s[i]) {
        let (c, j) = pic_step(s, i);
        if j <= i {
            0
        } else {
            c + pic_count_from(s, j)
        }
    } else {
        pic_count_from(s, i + 1)
    }
}

pub open spec fn pic_count(s: Seq<char>) -> nat {
    pic_count_from(s, 0)
}

proof fn lemma_pic_count_nonneg_step(s: Seq<char>, i: int)
    requires
        0 <= i < s.len(),
        is_pic_letter(s[i]),
    ensures
        pic_step(s, i).1 > i,
        pic_step(s, i).1 <= s.len(),
        pic_count_from(s, i) == pic_step(s, i).0 + pic_count_from(s, pic_step(s, i).1),
{
    if i + 2 <= s.len() {
        lemma_run(s, i + 2, CharClass::Digit);
    }
}

/// Count repeated PIC characters, expanding `X(n)` notation.
fn count_pic_chars(v: &Vec<char>) -> (r: u32)
    requires
        pic_count(v@) <= u32::MAX,
    ensures
        r == pic_count(v@),
{
    let mut total: u32 = 0;
    let mut i: usize = 0;
    while i < v.len()
        invariant
            i <= v@.len(),
            total + pic_count_from(v@, i as int) == pic_count(v@),
            pic_count(v@) <= u32::MAX,
        decreases v@.len() - i,
    {
        let c = v[i];
        if c == 'X' || c == 'A' || c == '9' {
            proof {
                lemma_pic_count_nonneg_step(v@, i as int);
                if i + 2 <= v@.len() {
                    lemma_run(v@, i + 2, CharClass::Digit);
                }
            }
            let mut done = false;
            if i + 1 < v.len() && v[i + 1] == '(' {
                let e = skip_class(v, i + 2, CharClass::Digit);
                if e > i + 2 && e < v.len() && v[e] == ')' {
                    let n = digits_upto(v, i + 2, e, 0xFFFF_FFFF);
                    let add: u32 = match n {
                        Some(x) => x as u32,
                        None => 1,
                    };
                    total = total + add;
                    i = e + 1;
                    done = true;
                }
            }
            if !done {
                total = total + 1;
                i = i + 1;
            }
        } else {
            i = i + 1;
        }
    }
    total
}

/// The PIC string without surrounding white space and trailing periods.
pub open spec fn pic_body(raw: Seq<char>) -> Seq<char> {
    trim_end_char(trim(raw), '.')
}

/// The PIC string is signed: its (Unicode) upper-case mapping starts with `S`.
pub open spec fn pic_signed(raw: Seq<char>) -> bool {
    unicode_upper(pic_body(raw)).len() > 0 && unicode_upper(pic_body(raw))[0] == 'S'
}

/// The upper-cased PIC symbols after a leading sign.
pub open spec fn pic_symbols(raw: Seq<char>) -> Seq<char> {
    if pic_signed(raw) {
        unicode_upper(pic_body(raw)).drop_first()
    } else {
        unicode_upper(pic_body(raw))
    }
}

/// The Unicode upper-case mapping of `v`, as characters.
fn upper_chars(v: &Vec<char>) -> (r: Vec<char>)
    ensures
        r@ == unicode_upper(v@),
{
    let s = string_of(v, 0, v.len());
    proof {
        assert(v@.subrange(0, v@.len() as int) =~= v@);
    }
    let u = to_uppercase_string(s.as_str());
    str_chars(u.as_str())
}

pub open spec fn pic_kind(p: Seq<char>) -> PicType {
    if p.contains('X') {
        PicType::Alphanumeric
    } else if p.contains('A') {
        PicType::Alphabetic
    } else {
        PicType::Numeric
    }
}

/// Integer and decimal digits of a numeric PIC: the positions before and after the `V`.
pub open spec fn numeric_digits(p: Seq<char>) -> (nat, nat) {
    let parts = split_char(p, 'V');
    (
        pic_count(parts[0]),
        if parts.len() > 1 {
            pic_count(parts[1])
        } else {
            0
        },
    )
}

/// The counts of the PIC string `raw` fit in a `u32`.
pub open spec fn pic_ok(raw: Seq<char>) -> bool {
    let p = pic_symbols(raw);
    match pic_kind(p) {
        PicType::Numeric => numeric_digits(p).0 + numeric_digits(p).1 <= u32::MAX,
        _ => pic_count(p) <= u32::MAX,
    }
}

/// `clause` is what the PIC string `raw` describes.
pub open spec fn pic_describes(clause: PicClause, raw: Seq<char>) -> bool {
    let p = pic_symbols(raw);
    &&& clause.raw@ == pic_body(raw)
    &&& clause.pic_type == pic_kind(p)
    &&& match pic_kind(p) {
        PicType::Numeric => {
            &&& clause.integer_digits == numeric_digits(p).0
            &&& clause.decimal_digits == numeric_digits(p).1
            &&& clause.signed == pic_signed(raw)
            &&& clause.total_size == numeric_digits(p).0 + numeric_digits(p).1
        },
        _ => {
            &&& clause.integer_digits == 0
            &&& clause.decimal_digits == 0
            &&& !clause.signed
            &&& clause.total_size == pic_count(p)
        },
    }
}

/// The numeral of `n` reads back as `n`.
pub proof fn lemma_digits_value_decimal(n: nat)
    ensures
        digits_value(decimal(n)) == n,
    decreases n,
{
    let d = decimal(n);
    if n >= 10 {
        lemma_digits_value_decimal(n / 10);
        assert(d.drop_last() =~= decimal(n / 10));
        assert(d.last() == crate::text::digit_char(n % 10));
        assert(crate::text::digit_char(n % 10) as int == 48 + n % 10);
        assert(n == (n / 10) * 10 + n % 10);
        assert(d.len() > 0);
        assert(digits_value(d) == digits_value(d.drop_last()) * 10 + ((d.last() as int - 48) as nat));
    } else {
        assert(d.drop_last() =~= Seq::<char>::empty());
        assert(crate::text::digit_char(n) as int == 48 + n);
        assert(d.len() == 1);
        assert(digits_value(d) == digits_value(d.drop_last()) * 10 + ((d.last() as int - 48) as nat));
        assert(digits_value(d.drop_last()) == 0);
    }
}

/// A picture letter with a repeat count, `L(n)`, counts `n` positions.
#[verifier::spinoff_prover]
proof fn lemma_pic_count_repeat(l: char, n: nat)
    requires
        is_pic_letter(l),
        n <= u32::MAX,
    ensures
        pic_count(seq![l, '('] + decimal(n) + seq![')']) == n,
{
    let d = decimal(n);
    let s = seq![l, '('] + d + seq![')'];
    lemma_decimal_digits(n);
    lemma_digits_value_decimal(n);
    lemma_run(s, 2, CharClass::Digit);
    let k = run(s, 2, CharClass::Digit);
    assert(forall|j: int| 0 <= j < d.len() ==> s[2 + j] == d[j]);
    assert(s[2 + d.len() as int] == ')');
    if k < d.len() {
        assert(is_digit(s[2 + k as int]));
    }
    if k > d.len() {
        assert(in_class(s[2 + d.len() as int], CharClass::Digit));
    }
    assert(k == d.len());
    assert(s.subrange(2, 2 + k as int) =~= d);
    lemma_pic_count_nonneg_step(s, 0);
}

/// Text without `c` is a single piece.
pub proof fn lemma_split_whole(s: Seq<char>, c: char)
    requires
        !s.contains(c),
    ensures
        split_char(s, c) == seq![s],
    decreases s.len(),
{
    if s.len() > 0 {
        assert(!s.drop_last().contains(c)) by {
            if s.drop_last().contains(c) {
                let k = choose|k: int| 0 <= k < s.drop_last().len() && s.drop_last()[k] == c;
                assert(s[k] == c);
            }
        }
        lemma_split_whole(s.drop_last(), c);
        assert(s.last() != c) by {
            assert(s[s.len() - 1] == s.last());
        }
        assert(s.drop_last().push(s.last()) =~= s);
        assert(split_char(s, c) =~= seq![s]);
    } else {
        assert(s =~= Seq::<char>::empty());
        assert(split_char(s, c) =~= seq![s]);
    }
}

/// `a`, the separator, and `b` split into the two pieces `a` and `b`.
proof fn lemma_split_pair(a: Seq<char>, b: Seq<char>, c: char)
    requires
        !a.contains(c),
        !b.contains(c),
    ensures
        split_char(a + seq![c] + b, c) == seq![a, b],
    decreases b.len(),
{
    let x = a + seq![c] + b;
    if b.len() == 0 {
        assert(x.drop_last() =~= a);
        assert(x.last() == c);
        lemma_split_whole(a, c);
        assert(b =~= Seq::<char>::empty());
        assert(split_char(x, c) =~= seq![a, b]);
    } else {
        assert(!b.drop_last().contains(c)) by {
            if b.drop_last().contains(c) {
                let k = choose|k: int| 0 <= k < b.drop_last().len() && b.drop_last()[k] == c;
                assert(b[k] == c);
            }
        }
        lemma_split_pair(a, b.drop_last(), c);
        assert(x.drop_last() =~= a + seq![c] + b.drop_last());
        assert(x.last() == b.last());
        assert(b.last() != c) by {
            assert(b[b.len() - 1] == b.last());
        }
        assert(b.drop_last().push(b.last()) =~= b);
        assert(split_char(x, c) =~= seq![a, b]);
    }
}

proof fn lemma_repeat_letters(l: char, n: nat)
    requires
        l != 'V',
        l != 'X',
        l != 'A',
    ensures
        !(seq![l, '('] + decimal(n) + seq![')']).contains('V'),
        !(seq![l, '('] + decimal(n) + seq![')']).contains('X'),
        !(seq![l, '('] + decimal(n) + seq![')']).contains('A'),
{
    let s = seq![l, '('] + decimal(n) + seq![')'];
    lemma_decimal_digits(n);
    assert forall|k: int| 0 <= k < s.len() implies s[k] != 'V' && s[k] != 'X' && s[k] != 'A' by {
        if 2 <= k < 2 + decimal(n).len() {
            assert(s[k] == decimal(n)[k - 2]);
            assert(is_digit(decimal(n)[k - 2]));
        }
    }
}

/// A numeric picture `9(n)V9(m)` has `n` integer and `m` decimal digits, `9(n)` has `n`
/// integer digits and none after the point, and `X(n)` is alphanumeric with `n` positions.
#[verifier::spinoff_prover]
pub proof fn lemma_picture_counts(n: nat, m: nat)
    requires
        n <= u32::MAX,
        m <= u32::MAX,
    ensures
        pic_kind(seq!['9', '('] + decimal(n) + seq![')', 'V', '9', '('] + decimal(m) + seq![')'])
            == PicType::Numeric,
        numeric_digits(seq!['9', '('] + decimal(n) + seq![')', 'V', '9', '('] + decimal(m) + seq![')'])
            == (n, m),
        pic_kind(seq!['9', '('] + decimal(n) + seq![')']) == PicType::Numeric,
        numeric_digits(seq!['9', '('] + decimal(n) + seq![')']) == (n, 0nat),
        pic_kind(seq!['X', '('] + decimal(n) + seq![')']) == PicType::Alphanumeric,
        pic_count(seq!['X', '('] + decimal(n) + seq![')']) == n,
{
    let a = seq!['9', '('] + decimal(n) + seq![')'];
    let b = seq!['9', '('] + decimal(m) + seq![')'];
    let whole = seq!['9', '('] + decimal(n) + seq![')', 'V', '9', '('] + decimal(m) + seq![')'];
    assert(whole =~= a + seq!['V'] + b);
    lemma_repeat_letters('9', n);
    lemma_repeat_letters('9', m);
    lemma_split_pair(a, b, 'V');
    lemma_split_whole(a, 'V');
    lemma_pic_count_repeat('9', n);
    lemma_pic_count_repeat('9', m);
    lemma_pic_count_repeat('X', n);
    assert(!whole.contains('X')) by {
        if whole.contains('X') {
            let k = choose|k: int| 0 <= k < whole.len() && whole[k] == 'X';
            if k < a.len() {
                assert(a[k] == 'X');
            } else if k > a.len() {
                assert(b[k - a.len() - 1] == 'X');
            }
        }
    }
    assert(!whole.contains('A')) by {
        if whole.contains('A') {
            let k = choose|k: int| 0 <= k < whole.len() && whole[k] == 'A';
            if k < a.len() {
                assert(a[k] == 'A');
            } else if k > a.len() {
                assert(b[k - a.len() - 1] == 'A');
            }
        }
    }
    let x = seq!['X', '('] + decimal(n) + seq![')'];
    assert(x[0] == 'X');
}

fn contains_char(v: &Vec<char>, c: char) -> (r: bool)
    ensures
        r == v@.contains(c),
{
    let mut i: usize = 0;
    while i < v.len()
        invariant
            i <= v@.len(),
            forall|j: int| 0 <= j < i ==> v@[j] != c,
        decreases v@.len() - i,
    {
        if v[i] == c {
            proof {
                assert(v@[i as int] == c);
            }
            return true;
        }
        i = i + 1;
    }
    false
}

/// Parse numeric PIC like `9(7)V99`, `9(5)`, `99V9(3)`.
fn parse_numeric_pic(v: &Vec<char>) -> (r: (u32, u32))
    requires
        numeric_digits(v@).0 + numeric_digits(v@).1 <= u32::MAX,
    ensures
        r.0 == numeric_digits(v@).0,
        r.1 == numeric_digits(v@).1,
{
    let bs = split_bounds(v, 0, v.len(), 'V');
    proof {
        assert(v@.subrange(0, v@.len() as int) =~= v@);
        crate::text::lemma_split_char_len(v@, 'V');
    }
    let (a0, b0) = bs[0];
    let p0 = sub_vec(v, a0, b0);
    let integer_digits = count_pic_chars(&p0);
    let decimal_digits = if bs.len() > 1 {
        let (a1, b1) = bs[1];
        let p1 = sub_vec(v, a1, b1);
        count_pic_chars(&p1)
    } else {
        0
    };
    (integer_digits, decimal_digits)
}

/// Parse a PIC clause string into a structured PicClause.
///
/// Examples:
/// - `9(7)V99` → 7 integer digits + 2 decimal digits, numeric
/// - `X(30)` → 30 chars, alphanumeric
/// - `S9(5)V99` → signed, 5 integer + 2 decimal
/// - `9` → 1 digit numeric
pub fn parse_pic_clause(raw: &str) -> (r: Result<PicClause, ParseError>)
    requires
        pic_ok(raw@),
    ensures
        r matches Ok(c) && pic_describes(c, raw@),
{
    let v = str_chars(raw);
    let (a, b) = trim_bounds(&v, 0, v.len());
    let e = skip_char_backward(&v, a, b, '.');
    proof {
        assert(v@.subrange(0, v@.len() as int) =~= v@);
        assert(pic_body(raw@) == v@.subrange(a as int, e as int));
    }
    let body = sub_vec(&v, a, e);
    let up = upper_chars(&body);
    let signed = up.len() > 0 && up[0] == 'S';
    let sym = if signed {
        sub_vec(&up, 1, up.len())
    } else {
        sub_vec(&up, 0, up.len())
    };
    proof {
        assert(up@.subrange(1, up@.len() as int) =~= up@.drop_first());
        assert(up@.subrange(0, up@.len() as int) =~= up@);
        assert(sym@ == pic_symbols(raw@));
    }
    let raw_trimmed = string_of(&v, a, e);
    if contains_char(&sym, 'X') || contains_char(&sym, 'A') {
        let pic_type = if contains_char(&sym, 'X') {
            PicType::Alphanumeric
        } else {
            PicType::Alphabetic
        };
        let size = count_pic_chars(&sym);
        Ok(
            PicClause {
                raw: raw_trimmed,
                pic_type,
                integer_digits: 0,
                decimal_digits: 0,
                signed: false,
                total_size: size,
            },
        )
    } else {
        let (integer_digits, decimal_digits) = parse_numeric_pic(&sym);
        Ok(
            PicClause {
                raw: raw_trimmed,
                pic_type: PicType::Numeric,
                integer_digits,
                decimal_digits,
                signed,
                total_size: integer_digits + decimal_digits,
            },
        )
    }
}

// ---------------------------------------------------------------------------
// Counting items
// ---------------------------------------------------------------------------

/// Number of data items in a forest, every nested item included.
pub open spec fn item_count(items: Seq<DataItem>) -> nat
    decreases items,
{
    if items.len() == 0 {
        0
    } else {
        item_count(items.drop_last()) + 1 + item_count(items.last().children@)
    }
}

} // verus!

verus! {

// ---------------------------------------------------------------------------
// Data item lines
// ---------------------------------------------------------------------------
//
// A data item line, once trimmed, reads
//   `NN name [PIC[TURE] [IS] pic] [REDEFINES name] [VALUE [IS] value] .`
// with the keywords in any letter case. The functions below say which parts a line is
// read into, choosing between readings in the order of the alternatives above: a longer
// keyword form first, an optional part present before absent, a longer white-space run
// before a shorter one, and the shortest value that lets the line end in a period.

/// `kw`, in upper case, occurs in `l` at `x`, ignoring ASCII case.
pub open spec fn kw_at(l: Seq<char>, x: int, kw: Seq<char>) -> bool {
    matches_at(upper(l), kw, x)
}

/// Start of the white space before the final period of `l`.
pub open spec fn dot_start(l: Seq<char>) -> int {
    (l.len() - 1) - trail_ws(l.take(l.len() - 1))
}

/// From `k` on, `l` holds only white space and its final period.
pub open spec fn tail_at(l: Seq<char>, k: int) -> bool {
    dot_start(l) <= k <= l.len() - 1
}

pub open spec fn max_int(a: int, b: int) -> int {
    if a >= b {
        a
    } else {
        b
    }
}

/// Bounds of the value of a `VALUE [IS] value` part that starts at `x`.
pub open spec fn value_part(l: Seq<char>, x: int) -> Option<(int, int)> {
    let n = l.len();
    let q = ws_end(l, x);
    let r = q + 5;
    let r2 = ws_end(l, r);
    let r3 = ws_end(l, r2 + 2);
    let jp = if r3 <= n - 2 {
        r3
    } else {
        n - 2
    };
    if q > x && kw_at(l, q, "VALUE"@) && r2 > r {
        if kw_at(l, r2, "IS"@) && r3 > r2 + 2 && jp >= r2 + 3 {
            Some((jp, max_int(jp + 1, dot_start(l))))
        } else if r2 <= n - 2 {
            Some((r2, max_int(r2 + 1, dot_start(l))))
        } else if r2 - 1 >= r + 1 {
            Some((r2 - 1, max_int(r2, dot_start(l))))
        } else {
            None
        }
    } else {
        None
    }
}

/// The rest of the line from `x`: an optional value part, then the final period.
pub open spec fn after_redefines(l: Seq<char>, x: int) -> Option<Option<(int, int)>> {
    match value_part(l, x) {
        Some(v) => Some(Some(v)),
        None => if tail_at(l, x) {
            Some(None)
        } else {
            None
        },
    }
}

pub type Bounds = Option<(int, int)>;

/// The rest of the line from `x`: an optional `REDEFINES name` part, then the rest.
pub open spec fn after_pic(l: Seq<char>, x: int) -> Option<(Bounds, Bounds)> {
    let y = ws_end(l, x);
    let z = ws_end(l, y + 9);
    let zz = z + run(l, z, CharClass::Name);
    if y > x && kw_at(l, y, "REDEFINES"@) && z > y + 9 && zz > z && after_redefines(l, zz) is Some {
        Some((Some((z, zz)), after_redefines(l, zz)->0))
    } else {
        match after_redefines(l, x) {
            Some(v) => Some((None, v)),
            None => None,
        }
    }
}

/// A PIC string starting at `s` and the rest of the line after it: the longest run of
/// PIC characters, short of the final period when the run reaches the end.
pub open spec fn pic_string_at(l: Seq<char>, s: int) -> Option<(int, (Bounds, Bounds))> {
    let n = l.len();
    let f = s + run(l, s, CharClass::Picture);
    if f == n {
        if n - 1 > s && after_pic(l, n - 1) is Some {
            Some((n - 1, after_pic(l, n - 1)->0))
        } else {
            None
        }
    } else if f > s && after_pic(l, f) is Some {
        Some((f, after_pic(l, f)->0))
    } else {
        None
    }
}

/// A `PIC[TURE] [IS] pic` part that starts at `b`: the PIC string's bounds and the rest.
pub open spec fn pic_part(l: Seq<char>, b: int) -> Option<(int, int, (Bounds, Bounds))> {
    let c = ws_end(l, b);
    let kwe = if kw_at(l, c, "PICTURE"@) {
        c + 7
    } else {
        c + 3
    };
    let d = ws_end(l, kwe);
    let e = ws_end(l, d + 2);
    if c > b && kw_at(l, c, "PIC"@) && d > kwe {
        match (if kw_at(l, d, "IS"@) && e > d + 2 {
            pic_string_at(l, e)
        } else {
            None
        }) {
            Some((g, rest)) => Some((e, g, rest)),
            None => match pic_string_at(l, d) {
                Some((g, rest)) => Some((d, g, rest)),
                None => None,
            },
        }
    } else {
        None
    }
}

/// Everything after the item's name, which ends at `b`: PIC, REDEFINES and VALUE bounds.
pub open spec fn after_name(l: Seq<char>, b: int) -> Option<(Bounds, Bounds, Bounds)> {
    match pic_part(l, b) {
        Some((ps, pe, (red, val))) => Some((Some((ps, pe)), red, val)),
        None => match after_pic(l, b) {
            Some((red, val)) => Some((None, red, val)),
            None => None,
        },
    }
}

/// The parts of a trimmed data item line: level-number end, name bounds and the rest.
pub open spec fn item_parts(l: Seq<char>) -> Option<(int, int, (Bounds, Bounds, Bounds))> {
    let n = l.len();
    let a = ws_end(l, 2);
    let b = a + run(l, a, CharClass::Name);
    if n >= 3 && is_digit(l[0]) && is_digit(l[1]) && l[n - 1] == '.' && a > 2 && b > a
        && after_name(l, b) is Some {
        Some((a, b, after_name(l, b)->0))
    } else {
        None
    }
}

} // verus!

verus! {

pub open spec fn bv(o: Option<(usize, usize)>) -> Bounds {
    match o {
        Some((a, b)) => Some((a as int, b as int)),
        None => None,
    }
}

/// Bounds, when present, lie within `[0, n]`.
pub open spec fn ok_b(o: Option<(usize, usize)>, n: int) -> bool {
    o matches Some((a, b)) ==> a <= b <= n
}

pub open spec fn bv2(o: Option<(Option<(usize, usize)>, Option<(usize, usize)>)>) -> Option<(Bounds, Bounds)> {
    match o {
        Some((x, y)) => Some((bv(x), bv(y))),
        None => None,
    }
}

/// Facts the line recognizers share about a trimmed line and its upper-case copy.
pub open spec fn line_ctx(l: Seq<char>, up: Seq<char>, ds: int) -> bool {
    &&& l.len() >= 3
    &&& l[l.len() - 1] == '.'
    &&& up == upper(l)
    &&& ds == dot_start(l)
    &&& 0 <= ds <= l.len() - 1
}

fn ws_end_exec(l: &Vec<char>, x: usize) -> (r: usize)
    requires
        x <= l@.len(),
    ensures
        r == ws_end(l@, x as int),
        x <= r <= l@.len(),
{
    skip_class(l, x, CharClass::Space)
}

fn max_usize(a: usize, b: usize) -> (r: usize)
    ensures
        r == max_int(a as int, b as int),
{
    if a >= b {
        a
    } else {
        b
    }
}

proof fn lemma_kw_fits(l: Seq<char>, up: Seq<char>, x: int, kw: Seq<char>)
    requires
        up == upper(l),
        matches_at(up, kw, x),
    ensures
        x + kw.len() <= l.len(),
{
}

fn value_part_exec(l: &Vec<char>, up: &Vec<char>, x: usize, ds: usize) -> (r: Option<(usize, usize)>)
    requires
        line_ctx(l@, up@, ds as int),
        x <= l@.len(),
    ensures
        bv(r) == value_part(l@, x as int),
        ok_b(r, l@.len() as int),
{
    let n = l.len();
    let q = ws_end_exec(l, x);
    if !(q > x && at_exec(up, q, "VALUE")) {
        return None;
    }
    proof {
        reveal_strlit("VALUE");
        lemma_kw_fits(l@, up@, q as int, "VALUE"@);
    }
    let r = q + 5;
    let r2 = ws_end_exec(l, r);
    if !(r2 > r) {
        return None;
    }
    if at_exec(up, r2, "IS") {
        proof {
            reveal_strlit("IS");
            lemma_kw_fits(l@, up@, r2 as int, "IS"@);
        }
        let r3 = ws_end_exec(l, r2 + 2);
        let jp = if r3 <= n - 2 {
            r3
        } else {
            n - 2
        };
        if r3 > r2 + 2 && jp >= r2 + 3 {
            return Some((jp, max_usize(jp + 1, ds)));
        }
    }
    if r2 <= n - 2 {
        Some((r2, max_usize(r2 + 1, ds)))
    } else if r2 - 1 >= r + 1 {
        Some((r2 - 1, max_usize(r2, ds)))
    } else {
        None
    }
}

fn after_redefines_exec(l: &Vec<char>, up: &Vec<char>, x: usize, ds: usize) -> (r: Option<Option<(usize, usize)>>)
    requires
        line_ctx(l@, up@, ds as int),
        x <= l@.len(),
    ensures
        match r {
            Some(v) => after_redefines(l@, x as int) == Some(bv(v)) && ok_b(v, l@.len() as int),
            None => after_redefines(l@, x as int) is None,
        },
{
    match value_part_exec(l, up, x, ds) {
        Some(v) => Some(Some(v)),
        None => if ds <= x && x <= l.len() - 1 {
            Some(None)
        } else {
            None
        },
    }
}

fn after_pic_exec(l: &Vec<char>, up: &Vec<char>, x: usize, ds: usize) -> (r: Option<(Option<(usize, usize)>, Option<(usize, usize)>)>)
    requires
        line_ctx(l@, up@, ds as int),
        x <= l@.len(),
    ensures
        bv2(r) == after_pic(l@, x as int),
        r matches Some((red, val)) ==> ok_b(red, l@.len() as int) && ok_b(val, l@.len() as int),
{
    let _n = l.len();
    let y = ws_end_exec(l, x);
    if y > x && at_exec(up, y, "REDEFINES") {
        proof {
            reveal_strlit("REDEFINES");
            lemma_kw_fits(l@, up@, y as int, "REDEFINES"@);
        }
        let z = ws_end_exec(l, y + 9);
        let zz = skip_class(l, z, CharClass::Name);
        if z > y + 9 && zz > z {
            if let Some(v) = after_redefines_exec(l, up, zz, ds) {
                return Some((Some((z, zz)), v));
            }
        }
    }
    match after_redefines_exec(l, up, x, ds) {
        Some(v) => Some((None, v)),
        None => None,
    }
}

fn pic_string_at_exec(l: &Vec<char>, up: &Vec<char>, s: usize, ds: usize) -> (r: Option<(usize, (Option<(usize, usize)>, Option<(usize, usize)>))>)
    requires
        line_ctx(l@, up@, ds as int),
        s <= l@.len(),
    ensures
        match r {
            Some((g, rest)) => pic_string_at(l@, s as int) == Some((g as int, bv2(Some(rest))->0))
                && s <= g <= l@.len() && ok_b(rest.0, l@.len() as int) && ok_b(rest.1, l@.len() as int),
            None => pic_string_at(l@, s as int) is None,
        },
{
    let n = l.len();
    let f = skip_class(l, s, CharClass::Picture);
    if f == n {
        if n - 1 > s {
            match after_pic_exec(l, up, n - 1, ds) {
                Some(rest) => Some((n - 1, rest)),
                None => None,
            }
        } else {
            None
        }
    } else if f > s {
        match after_pic_exec(l, up, f, ds) {
            Some(rest) => Some((f, rest)),
            None => None,
        }
    } else {
        None
    }
}

fn pic_part_exec(l: &Vec<char>, up: &Vec<char>, b: usize, ds: usize) -> (r: Option<(usize, usize, (Option<(usize, usize)>, Option<(usize, usize)>))>)
    requires
        line_ctx(l@, up@, ds as int),
        b <= l@.len(),
    ensures
        match r {
            Some((ps, pe, rest)) => pic_part(l@, b as int) == Some(
                (ps as int, pe as int, bv2(Some(rest))->0),
            ) && ps <= pe <= l@.len() && ok_b(rest.0, l@.len() as int) && ok_b(rest.1, l@.len() as int),
            None => pic_part(l@, b as int) is None,
        },
{
    let _n = l.len();
    let c = ws_end_exec(l, b);
    if !(c > b && at_exec(up, c, "PIC")) {
        return None;
    }
    proof {
        reveal_strlit("PIC");
        lemma_kw_fits(l@, up@, c as int, "PIC"@);
    }
    let kwe = if at_exec(up, c, "PICTURE") {
        proof {
            reveal_strlit("PICTURE");
            lemma_kw_fits(l@, up@, c as int, "PICTURE"@);
        }
        c + 7
    } else {
        c + 3
    };
    let d = ws_end_exec(l, kwe);
    if !(d > kwe) {
        return None;
    }
    if at_exec(up, d, "IS") {
        proof {
            reveal_strlit("IS");
            lemma_kw_fits(l@, up@, d as int, "IS"@);
        }
        let e = ws_end_exec(l, d + 2);
        if e > d + 2 {
            if let Some((g, rest)) = pic_string_at_exec(l, up, e, ds) {
                return Some((e, g, rest));
            }
        }
    }
    match pic_string_at_exec(l, up, d, ds) {
        Some((g, rest)) => Some((d, g, rest)),
        None => None,
    }
}

} // verus!

verus! {

fn after_name_exec(l: &Vec<char>, up: &Vec<char>, b: usize, ds: usize) -> (r: Option<(Option<(usize, usize)>, Option<(usize, usize)>, Option<(usize, usize)>)>)
    requires
        line_ctx(l@, up@, ds as int),
        b <= l@.len(),
    ensures
        match r {
            Some((p, red, val)) => after_name(l@, b as int) == Some((bv(p), bv(red), bv(val)))
                && ok_b(p, l@.len() as int) && ok_b(red, l@.len() as int) && ok_b(val, l@.len() as int),
            None => after_name(l@, b as int) is None,
        },
{
    match pic_part_exec(l, up, b, ds) {
        Some((ps, pe, (red, val))) => Some((Some((ps, pe)), red, val)),
        None => match after_pic_exec(l, up, b, ds) {
            Some((red, val)) => Some((None, red, val)),
            None => None,
        },
    }
}

/// One data item line, read into its parts.
pub struct FlatItem {
    pub level: u8,
    pub name: Seq<char>,
    pub pic: Option<Seq<char>>,
    pub redefines: Option<Seq<char>>,
    pub value: Option<Seq<char>>,
}

pub open spec fn sub_opt(l: Seq<char>, o: Bounds) -> Option<Seq<char>> {
    match o {
        Some((a, b)) => Some(l.subrange(a, b)),
        None => None,
    }
}

/// A VALUE text without quotes and surrounding white space.
pub open spec fn value_text(v: Seq<char>) -> Seq<char> {
    trim(trim_char(trim_char(v, '"'), '\''))
}

/// The data item that `line` declares, if it is a data item line.
pub open spec fn flat_item(line: Seq<char>) -> Option<FlatItem> {
    let l = trim(line);
    if l.len() == 0 || l[0] == '*' {
        None
    } else {
        match item_parts(l) {
            Some((a, b, (pic, red, val))) => Some(
                FlatItem {
                    level: ((l[0] as int - 48) * 10 + (l[1] as int - 48)) as u8,
                    name: l.subrange(a, b),
                    pic: sub_opt(l, pic),
                    redefines: sub_opt(l, red),
                    value: match sub_opt(l, val) {
                        Some(v) => Some(value_text(v)),
                        None => None,
                    },
                },
            ),
            None => None,
        }
    }
}

/// `d` is the data item `m`, without children yet.
pub open spec fn item_is(d: DataItem, m: FlatItem) -> bool {
    &&& d.level == m.level
    &&& d.name@ == m.name
    &&& match m.pic {
        Some(p) => d.picture matches Some(c) && pic_describes(c, p),
        None => d.picture is None,
    }
    &&& opt_str(d.redefines) == m.redefines
    &&& opt_str(d.value) == m.value
}

/// A line's PIC string, if any, has counts that fit in a `u32`.
pub open spec fn line_pic_ok(line: Seq<char>) -> bool {
    flat_item(line) matches Some(m) ==> (m.pic matches Some(p) ==> pic_ok(p))
}

fn value_text_exec(l: &Vec<char>, a: usize, b: usize) -> (r: String)
    requires
        a <= b <= l@.len(),
    ensures
        r@ == value_text(l@.subrange(a as int, b as int)),
{
    let s1 = crate::text::skip_char_forward(l, a, b, '"');
    let e1 = skip_char_backward(l, s1, b, '"');
    let s2 = crate::text::skip_char_forward(l, s1, e1, '\'');
    let e2 = skip_char_backward(l, s2, e1, '\'');
    let (s3, e3) = trim_bounds(l, s2, e2);
    string_of(l, s3, e3)
}

fn opt_string(l: &Vec<char>, o: Option<(usize, usize)>) -> (r: Option<String>)
    requires
        o matches Some((a, b)) ==> a <= b <= l@.len(),
    ensures
        opt_str(r) == sub_opt(l@, bv(o)),
{
    match o {
        Some((a, b)) => Some(string_of(l, a, b)),
        None => None,
    }
}

/// Read one line of a data division into a data item without children.
fn parse_item_line(line: &str) -> (r: Option<DataItem>)
    requires
        line_pic_ok(line@),
    ensures
        match flat_item(line@) {
            Some(m) => r matches Some(d) && item_is(d, m) && d.children@.len() == 0,
            None => r is None,
        },
{
    let v = str_chars(line);
    let (ta, tb) = trim_bounds(&v, 0, v.len());
    let l = sub_vec(&v, ta, tb);
    proof {
        assert(v@.subrange(0, v@.len() as int) =~= v@);
        assert(l@ == trim(line@));
    }
    let n = l.len();
    if n == 0 || l[0] == '*' {
        return None;
    }
    if !(n >= 3 && l[0] >= '0' && l[0] <= '9' && l[1] >= '0' && l[1] <= '9' && l[n - 1] == '.') {
        return None;
    }
    let up = upper_vec(&l);
    let ds = crate::text::skip_ws_backward(&l, 0, n - 1);
    proof {
        assert(l@.take(n - 1) =~= l@.subrange(0, n - 1));
    }
    let a = ws_end_exec(&l, 2);
    let b = skip_class(&l, a, CharClass::Name);
    if !(a > 2 && b > a) {
        return None;
    }
    match after_name_exec(&l, &up, b, ds) {
        None => None,
        Some((pic, red, val)) => {
            let level: u8 = ((l[0] as u32 - 48) * 10 + (l[1] as u32 - 48)) as u8;
            let name = string_of(&l, a, b);
            let picture = match pic {
                Some((ps, pe)) => {
                    let ptext = string_of(&l, ps, pe);
                    match parse_pic_clause(ptext.as_str()) {
                        Ok(c) => Some(c),
                        Err(_) => None,
                    }
                },
                None => None,
            };
            let redefines = opt_string(&l, red);
            let value = match val {
                Some((vs, ve)) => Some(value_text_exec(&l, vs, ve)),
                None => None,
            };
            Some(
                DataItem {
                    level,
                    name,
                    picture,
                    value,
                    redefines,
                    children: Vec::new(),
                },
            )
        },
    }
}

} // verus!

verus! {

// ---------------------------------------------------------------------------
// The item hierarchy
// ---------------------------------------------------------------------------

/// The first index in `[j, hi)` whose level is at most `lvl`, or `hi`: where the items
/// nested under an item of level `lvl` end.
pub open spec fn group_end(flat: Seq<FlatItem>, lvl: u8, j: int, hi: int) -> int
    decreases hi - j,
{
    if j >= hi {
        hi
    } else if flat[j].level <= lvl {
        j
    } else {
        group_end(flat, lvl, j + 1, hi)
    }
}

pub proof fn lemma_group_end(flat: Seq<FlatItem>, lvl: u8, j: int, hi: int)
    requires
        j <= hi,
    ensures
        j <= group_end(flat, lvl, j, hi) <= hi,
        forall|k: int| j <= k < group_end(flat, lvl, j, hi) ==> flat[k].level > lvl,
        group_end(flat, lvl, j, hi) < hi ==> flat[group_end(flat, lvl, j, hi)].level <= lvl,
    decreases hi - j,
{
    if j < hi && flat[j].level > lvl {
        lemma_group_end(flat, lvl, j + 1, hi);
    }
}

/// `r` is the forest that the items `flat[lo..hi]` form by their level numbers: each item
/// holds, as children, the items after it with a greater level, up to the next item whose
/// level is not greater.
pub open spec fn forest_is(r: Seq<DataItem>, flat: Seq<FlatItem>, lo: int, hi: int) -> bool
    decreases hi - lo, 1int,
{
    if lo >= hi {
        r.len() == 0
    } else {
        let j = group_end(flat, flat[lo].level, lo + 1, hi);
        proof {
            lemma_group_end(flat, flat[lo].level, lo + 1, hi);
        }
        &&& r.len() >= 1
        &&& tree_is(r[0], flat, lo, j)
        &&& forest_is(r.drop_first(), flat, j, hi)
    }
}

/// `d` is the item `flat[lo]` with the forest of `flat[lo + 1..j]` as its children.
pub open spec fn tree_is(d: DataItem, flat: Seq<FlatItem>, lo: int, j: int) -> bool
    decreases j - lo, 0int,
{
    &&& 0 <= lo < j
    &&& item_is(d, flat[lo])
    &&& forest_is(d.children@, flat, lo + 1, j)
}

/// The data items of `lines`, in order, one for each data item line.
pub open spec fn flat_items(lines: Seq<Seq<char>>) -> Seq<FlatItem>
    decreases lines.len(),
{
    if lines.len() == 0 {
        Seq::empty()
    } else {
        flat_items(lines.drop_last()) + match flat_item(lines.last()) {
            Some(m) => seq![m],
            None => Seq::empty(),
        }
    }
}

pub open spec fn str_views(lines: Seq<&str>) -> Seq<Seq<char>> {
    lines.map_values(|l: &str| l@)
}

/// Every data item line of `lines` has a PIC string whose counts fit in a `u32`.
pub open spec fn data_items_ok(lines: Seq<Seq<char>>) -> bool {
    forall|i: int| 0 <= i < lines.len() ==> line_pic_ok(#[trigger] lines[i])
}

fn copy_pic(p: &PicClause) -> (r: PicClause)
    ensures
        r.raw@ == p.raw@,
        r.pic_type == p.pic_type,
        r.integer_digits == p.integer_digits,
        r.decimal_digits == p.decimal_digits,
        r.signed == p.signed,
        r.total_size == p.total_size,
{
    PicClause {
        raw: p.raw.clone(),
        pic_type: p.pic_type,
        integer_digits: p.integer_digits,
        decimal_digits: p.decimal_digits,
        signed: p.signed,
        total_size: p.total_size,
    }
}

fn copy_opt(o: &Option<String>) -> (r: Option<String>)
    ensures
        opt_str(r) == opt_str(*o),
{
    match o {
        Some(s) => Some(s.clone()),
        None => None,
    }
}

/// The item `f` with `children`.
fn with_children(f: &DataItem, children: Vec<DataItem>, Ghost(m): Ghost<FlatItem>) -> (r: DataItem)
    requires
        item_is(*f, m),
    ensures
        item_is(r, m),
        r.children@ == children@,
{
    let picture = match &f.picture {
        Some(p) => Some(copy_pic(p)),
        None => None,
    };
    DataItem {
        level: f.level,
        name: f.name.clone(),
        picture,
        value: copy_opt(&f.value),
        redefines: copy_opt(&f.redefines),
        children,
    }
}

fn group_end_exec(flat: &Vec<DataItem>, lvl: u8, j: usize, hi: usize, Ghost(ms): Ghost<Seq<FlatItem>>) -> (r: usize)
    requires
        j <= hi <= flat@.len(),
        ms.len() == flat@.len(),
        forall|k: int| 0 <= k < ms.len() ==> item_is(#[trigger] flat@[k], ms[k]),
    ensures
        r == group_end(ms, lvl, j as int, hi as int),
{
    let mut k = j;
    while k < hi && flat[k].level > lvl
        invariant
            j <= k <= hi <= flat@.len(),
            ms.len() == flat@.len(),
            forall|m: int| 0 <= m < ms.len() ==> item_is(#[trigger] flat@[m], ms[m]),
            group_end(ms, lvl, j as int, hi as int) == group_end(ms, lvl, k as int, hi as int),
        decreases hi - k,
    {
        proof {
            assert(item_is(flat@[k as int], ms[k as int]));
        }
        k = k + 1;
    }
    proof {
        if k < hi {
            assert(item_is(flat@[k as int], ms[k as int]));
        }
    }
    k
}

/// Appends the forest of `flat[lo..hi]` to `out`.
fn build_forest(flat: &Vec<DataItem>, lo: usize, hi: usize, out: &mut Vec<DataItem>, Ghost(ms): Ghost<Seq<FlatItem>>)
    requires
        lo <= hi <= flat@.len(),
        ms.len() == flat@.len(),
        forall|k: int| 0 <= k < ms.len() ==> item_is(#[trigger] flat@[k], ms[k]),
    ensures
        final(out)@.len() >= old(out)@.len(),
        final(out)@.take(old(out)@.len() as int) == old(out)@,
        forest_is(final(out)@.skip(old(out)@.len() as int), ms, lo as int, hi as int),
    decreases hi - lo, 1int,
{
    let ghost out0 = out@;
    if lo >= hi {
        proof {
            assert(out@.take(out0.len() as int) =~= out0);
            assert(out@.skip(out0.len() as int) =~= Seq::<DataItem>::empty());
        }
        return;
    }
    let j = group_end_exec(flat, flat[lo].level, lo + 1, hi, Ghost(ms));
    proof {
        assert(item_is(flat@[lo as int], ms[lo as int]));
        lemma_group_end(ms, ms[lo as int].level, lo + 1, hi as int);
    }
    let t = build_tree(flat, lo, j, Ghost(ms));
    out.push(t);
    let ghost out1 = out@;
    build_forest(flat, j, hi, out, Ghost(ms));
    proof {
        let f = out@.skip(out0.len() as int);
        assert(out@.take(out1.len() as int) == out1);
        assert(f[0] == out1[out0.len() as int]);
        assert(f.drop_first() =~= out@.skip(out1.len() as int));
        assert(out@.take(out0.len() as int) =~= out1.take(out0.len() as int));
        assert(out1.take(out0.len() as int) =~= out0);
    }
}

/// The item `flat[lo]` with the forest of `flat[lo + 1..j]` as children.
fn build_tree(flat: &Vec<DataItem>, lo: usize, j: usize, Ghost(ms): Ghost<Seq<FlatItem>>) -> (r: DataItem)
    requires
        lo < j <= flat@.len(),
        ms.len() == flat@.len(),
        forall|k: int| 0 <= k < ms.len() ==> item_is(#[trigger] flat@[k], ms[k]),
    ensures
        tree_is(r, ms, lo as int, j as int),
    decreases j - lo, 0int,
{
    let mut children: Vec<DataItem> = Vec::new();
    build_forest(flat, lo + 1, j, &mut children, Ghost(ms));
    proof {
        assert(children@.skip(0) =~= children@);
        assert(item_is(flat@[lo as int], ms[lo as int]));
    }
    with_children(&flat[lo], children, Ghost(ms[lo as int]))
}

} // verus!

verus! {

/// Parse DATA DIVISION lines into a list of DataItems.
pub fn parse_data_items(lines: &[&str]) -> (r: Result<Vec<DataItem>, ParseError>)
    requires
        data_items_ok(str_views(lines@)),
    ensures
        r matches Ok(items) && forest_is(
            items@,
            flat_items(str_views(lines@)),
            0,
            flat_items(str_views(lines@)).len() as int,
        ),
{
    let ghost views = str_views(lines@);
    let mut flat: Vec<DataItem> = Vec::new();
    let mut i: usize = 0;
    while i < lines.len()
        invariant
            i <= lines@.len(),
            views == str_views(lines@),
            data_items_ok(views),
            flat@.len() == flat_items(views.take(i as int)).len(),
            forall|k: int|
                0 <= k < flat@.len() ==> item_is(
                    #[trigger] flat@[k],
                    flat_items(views.take(i as int))[k],
                ),
        decreases lines@.len() - i,
    {
        let line = lines[i];
        proof {
            assert(views[i as int] == line@);
            assert(line_pic_ok(views[i as int]));
            assert(views.take(i + 1).drop_last() =~= views.take(i as int));
            assert(views.take(i + 1).last() == views[i as int]);
        }
        let ghost before = flat_items(views.take(i as int));
        match parse_item_line(line) {
            Some(d) => {
                flat.push(d);
            },
            None => {},
        }
        proof {
            let after = flat_items(views.take(i + 1));
            assert forall|k: int| 0 <= k < flat@.len() implies item_is(#[trigger] flat@[k], after[k]) by {
                if k < before.len() {
                    assert(after[k] == before[k]);
                }
            }
        }
        i = i + 1;
    }
    proof {
        assert(views.take(lines@.len() as int) =~= views);
    }
    let mut items: Vec<DataItem> = Vec::new();
    build_forest(&flat, 0, flat.len(), &mut items, Ghost(flat_items(views)));
    proof {
        assert(items@.skip(0) =~= items@);
    }
    Ok(items)
}

// ---------------------------------------------------------------------------
// Laws
// ---------------------------------------------------------------------------

pub proof fn lemma_item_count_append(a: Seq<DataItem>, b: Seq<DataItem>)
    ensures
        item_count(a + b) == item_count(a) + item_count(b),
    decreases b.len(),
{
    if b.len() == 0 {
        assert(a + b =~= a);
    } else {
        lemma_item_count_append(a, b.drop_last());
        assert((a + b).drop_last() =~= a + b.drop_last());
        assert((a + b).last() == b.last());
    }
}

proof fn lemma_item_count_front(s: Seq<DataItem>)
    requires
        s.len() >= 1,
    ensures
        item_count(s) == 1 + item_count(s[0].children@) + item_count(s.drop_first()),
{
    let x = seq![s[0]];
    lemma_item_count_append(x, s.drop_first());
    assert(x + s.drop_first() =~= s);
    assert(x.drop_last() =~= Seq::<DataItem>::empty());
    assert(x.last() == s[0]);
    assert(item_count(x) == item_count(x.drop_last()) + 1 + item_count(x.last().children@));
}

proof fn lemma_forest_count(r: Seq<DataItem>, flat: Seq<FlatItem>, lo: int, hi: int)
    requires
        lo <= hi,
        forest_is(r, flat, lo, hi),
    ensures
        item_count(r) == hi - lo,
    decreases hi - lo, 1int,
{
    if lo < hi {
        let j = group_end(flat, flat[lo].level, lo + 1, hi);
        lemma_group_end(flat, flat[lo].level, lo + 1, hi);
        lemma_tree_count(r[0], flat, lo, j);
        lemma_forest_count(r.drop_first(), flat, j, hi);
        lemma_item_count_front(r);
    }
}

proof fn lemma_tree_count(d: DataItem, flat: Seq<FlatItem>, lo: int, j: int)
    requires
        tree_is(d, flat, lo, j),
    ensures
        1 + item_count(d.children@) == j - lo,
    decreases j - lo, 0int,
{
    lemma_forest_count(d.children@, flat, lo + 1, j);
}

/// Every data item line yields exactly one item of the hierarchy: the items of the
/// forest, nested ones included, are as many as the data item lines.
pub proof fn lemma_hierarchy_keeps_every_item(lines: Seq<Seq<char>>, r: Seq<DataItem>)
    requires
        forest_is(r, flat_items(lines), 0, flat_items(lines).len() as int),
    ensures
        item_count(r) == flat_items(lines).len(),
{
    lemma_forest_count(r, flat_items(lines), 0, flat_items(lines).len() as int);
}

proof fn lemma_forest_levels_above(r: Seq<DataItem>, flat: Seq<FlatItem>, lo: int, hi: int, lvl: u8)
    requires
        lo <= hi,
        forest_is(r, flat, lo, hi),
        forall|k: int| lo <= k < hi ==> flat[k].level > lvl,
    ensures
        forall|k: int| 0 <= k < r.len() ==> (#[trigger] r[k]).level > lvl,
    decreases hi - lo,
{
    if lo < hi {
        let j = group_end(flat, flat[lo].level, lo + 1, hi);
        lemma_group_end(flat, flat[lo].level, lo + 1, hi);
        lemma_forest_levels_above(r.drop_first(), flat, j, hi, lvl);
        assert(tree_is(r[0], flat, lo, j));
        assert(item_is(r[0], flat[lo]));
        assert forall|k: int| 0 <= k < r.len() implies (#[trigger] r[k]).level > lvl by {
            if k > 0 {
                assert(r[k] == r.drop_first()[k - 1]);
            }
        }
    }
}

/// Every child in the forest, at any depth, has a greater level number than its parent.
pub open spec fn levels_nested(r: Seq<DataItem>) -> bool
    decreases r,
{
    forall|k: int|
        #![trigger r[k]]
        0 <= k < r.len() ==> {
            &&& forall|m: int|
                0 <= m < r[k].children@.len() ==> (#[trigger] r[k].children@[m]).level > r[k].level
            &&& levels_nested(r[k].children@)
        }
}

proof fn lemma_forest_nested(r: Seq<DataItem>, flat: Seq<FlatItem>, lo: int, hi: int)
    requires
        lo <= hi,
        forest_is(r, flat, lo, hi),
    ensures
        levels_nested(r),
    decreases hi - lo, 1int,
{
    if lo < hi {
        let lvl = flat[lo].level;
        let j = group_end(flat, lvl, lo + 1, hi);
        lemma_group_end(flat, lvl, lo + 1, hi);
        let d = r[0];
        assert(tree_is(d, flat, lo, j));
        assert(item_is(d, flat[lo]));
        assert(forest_is(d.children@, flat, lo + 1, j));
        lemma_forest_levels_above(d.children@, flat, lo + 1, j, lvl);
        lemma_forest_nested(d.children@, flat, lo + 1, j);
        lemma_forest_nested(r.drop_first(), flat, j, hi);
        assert forall|k: int| 0 <= k < r.len() implies {
            &&& forall|m: int|
                0 <= m < r[k].children@.len() ==> (#[trigger] r[k].children@[m]).level > r[k].level
            &&& levels_nested(r[k].children@)
        } by {
            if k > 0 {
                assert(r[k] == r.drop_first()[k - 1]);
            }
        }
    }
}

/// In the hierarchy that the data item lines form, every child, at any depth, has a
/// greater level number than the item that holds it.
pub proof fn lemma_children_deeper(lines: Seq<Seq<char>>, r: Seq<DataItem>)
    requires
        forest_is(r, flat_items(lines), 0, flat_items(lines).len() as int),
    ensures
        levels_nested(r),
{
    lemma_forest_nested(r, flat_items(lines), 0, flat_items(lines).len() as int);
}

} // verus!

verus! {

// ---------------------------------------------------------------------------
// Checking that PIC counts fit
// ---------------------------------------------------------------------------

/// The count of the PIC letters of `v`, when it fits in a `u32`.
fn pic_count_upto(v: &Vec<char>) -> (r: Option<u32>)
    ensures
        match r {
            Some(x) => x == pic_count(v@),
            None => pic_count(v@) > u32::MAX,
        },
{
    let mut total: u64 = 0;
    let mut i: usize = 0;
    while i < v.len()
        invariant
            i <= v@.len(),
            total <= u32::MAX,
            total + pic_count_from(v@, i as int) == pic_count(v@),
        decreases v@.len() - i,
    {
        let c = v[i];
        if c == 'X' || c == 'A' || c == '9' {
            proof {
                lemma_pic_count_nonneg_step(v@, i as int);
                if i + 2 <= v@.len() {
                    lemma_run(v@, i + 2, CharClass::Digit);
                }
            }
            let mut add: u64 = 1;
            let mut next = i + 1;
            if i + 1 < v.len() && v[i + 1] == '(' {
                let e = skip_class(v, i + 2, CharClass::Digit);
                if e > i + 2 && e < v.len() && v[e] == ')' {
                    add = match digits_upto(v, i + 2, e, 0xFFFF_FFFF) {
                        Some(x) => x,
                        None => 1,
                    };
                    next = e + 1;
                }
            }
            if total + add > 0xFFFF_FFFF {
                return None;
            }
            total = total + add;
            i = next;
        } else {
            i = i + 1;
        }
    }
    Some(total as u32)
}

/// The counts of the PIC string `raw` fit in a `u32`: `parse_pic_clause` can read it.
pub fn pic_fits(raw: &str) -> (r: bool)
    ensures
        r == pic_ok(raw@),
{
    let v = str_chars(raw);
    let (a, b) = trim_bounds(&v, 0, v.len());
    let e = skip_char_backward(&v, a, b, '.');
    proof {
        assert(v@.subrange(0, v@.len() as int) =~= v@);
        assert(pic_body(raw@) == v@.subrange(a as int, e as int));
    }
    let body = sub_vec(&v, a, e);
    let up = upper_chars(&body);
    let signed = up.len() > 0 && up[0] == 'S';
    let sym = if signed {
        sub_vec(&up, 1, up.len())
    } else {
        sub_vec(&up, 0, up.len())
    };
    proof {
        assert(up@.subrange(1, up@.len() as int) =~= up@.drop_first());
        assert(up@.subrange(0, up@.len() as int) =~= up@);
        assert(sym@ == pic_symbols(raw@));
    }
    if contains_char(&sym, 'X') || contains_char(&sym, 'A') {
        pic_count_upto(&sym).is_some()
    } else {
        let bs = split_bounds(&sym, 0, sym.len(), 'V');
        proof {
            assert(sym@.subrange(0, sym@.len() as int) =~= sym@);
            crate::text::lemma_split_char_len(sym@, 'V');
        }
        let (a0, b0) = bs[0];
        let p0 = sub_vec(&sym, a0, b0);
        let i0 = match pic_count_upto(&p0) {
            Some(x) => x as u64,
            None => return false,
        };
        let d0: u64 = if bs.len() > 1 {
            let (a1, b1) = bs[1];
            let p1 = sub_vec(&sym, a1, b1);
            match pic_count_upto(&p1) {
                Some(x) => x as u64,
                None => return false,
            }
        } else {
            0
        };
        i0 + d0 <= 0xFFFF_FFFF
    }
}

/// Line `line` is not a data item line, or its PIC string (if any) has counts that fit.
pub fn line_pic_fits(line: &str) -> (r: bool)
    ensures
        r == line_pic_ok(line@),
{
    let v = str_chars(line);
    let (ta, tb) = trim_bounds(&v, 0, v.len());
    let l = sub_vec(&v, ta, tb);
    proof {
        assert(v@.subrange(0, v@.len() as int) =~= v@);
        assert(l@ == trim(line@));
    }
    let n = l.len();
    if n == 0 || l[0] == '*' {
        return true;
    }
    if !(n >= 3 && l[0] >= '0' && l[0] <= '9' && l[1] >= '0' && l[1] <= '9' && l[n - 1] == '.') {
        return true;
    }
    let up = upper_vec(&l);
    let ds = crate::text::skip_ws_backward(&l, 0, n - 1);
    proof {
        assert(l@.take(n - 1) =~= l@.subrange(0, n - 1));
    }
    let a = ws_end_exec(&l, 2);
    let b = skip_class(&l, a, CharClass::Name);
    if !(a > 2 && b > a) {
        return true;
    }
    match after_name_exec(&l, &up, b, ds) {
        None => true,
        Some((pic, _red, _val)) => match pic {
            Some((ps, pe)) => {
                let ptext = string_of(&l, ps, pe);
                pic_fits(ptext.as_str())
            },
            None => true,
        },
    }
}

} // verus!
