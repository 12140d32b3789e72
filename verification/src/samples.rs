//! Pieces of converted sample programs: a COBOL record with its DISPLAY forms, an
//! accumulating paragraph, and the reading and display of decimal amounts.
use vstd::prelude::*;

use crate::compute::{
    checked_cobol_truncate, cobol_truncate, decimal_add, decimal_div, decimal_fixed, decimal_quotient,
    decimal_sum, fixed_fits, fixed_fits_exec, fixed_text, lemma_two_places_fit, truncated,
    DecimalParts,
};
use crate::text::{
    byte_len, utf8_len, utf8_len_exec, decimal, digits_upto, digits_value, find, find_chars, is_digit, is_digit_exec, push_char,
    push_chars, push_decimal, str_chars, string_of, trim, trim_bounds, trim_end,
};

verus! {

/// `n` copies of `c`.
pub open spec fn repeat(c: char, n: nat) -> Seq<char> {
    Seq::new(n, |i: int| c)
}

/// `s` padded on the left with zeros to `w` characters.
pub open spec fn zero_pad(s: Seq<char>, w: nat) -> Seq<char> {
    if s.len() < w {
        repeat('0', (w - s.len()) as nat) + s
    } else {
        s
    }
}

proof fn lemma_zeros_value(n: nat)
    ensures
        crate::text::digits_value(repeat('0', n)) == 0,
    decreases n,
{
    if n > 0 {
        lemma_zeros_value((n - 1) as nat);
        assert(repeat('0', n).drop_last() =~= repeat('0', (n - 1) as nat));
    }
}

proof fn lemma_leading_zeros_value(z: nat, d: Seq<char>)
    ensures
        crate::text::digits_value(repeat('0', z) + d) == crate::text::digits_value(d),
    decreases d.len(),
{
    if d.len() == 0 {
        assert(repeat('0', z) + d =~= repeat('0', z));
        lemma_zeros_value(z);
    } else {
        lemma_leading_zeros_value(z, d.drop_last());
        assert((repeat('0', z) + d).drop_last() =~= repeat('0', z) + d.drop_last());
        assert((repeat('0', z) + d).last() == d.last());
    }
}

/// A number shown zero-padded to `w` places is `max(w, its digit count)` digits long, and
/// those digits read back as the number.
pub proof fn lemma_zero_pad_number(n: nat, w: nat)
    ensures
        zero_pad(decimal(n), w).len() == if decimal(n).len() < w {
            w
        } else {
            decimal(n).len()
        },
        forall|k: int|
            0 <= k < zero_pad(decimal(n), w).len() ==> crate::text::is_digit(
                #[trigger] zero_pad(decimal(n), w)[k],
            ),
        crate::text::digits_value(zero_pad(decimal(n), w)) == n,
{
    let d = decimal(n);
    crate::text::lemma_decimal_digits(n);
    crate::data_division::lemma_digits_value_decimal(n);
    if d.len() < w {
        let z = (w - d.len()) as nat;
        lemma_leading_zeros_value(z, d);
        let p = zero_pad(d, w);
        assert forall|k: int| 0 <= k < p.len() implies crate::text::is_digit(#[trigger] p[k]) by {
            if k >= z {
                assert(p[k] == d[k - z]);
            }
        }
    }
}

/// `s` padded on the right with spaces to `w` characters.
pub open spec fn space_pad(s: Seq<char>, w: nat) -> Seq<char> {
    if s.len() < w {
        s + repeat(' ', (w - s.len()) as nat)
    } else {
        s
    }
}

/// `CUSTOMER-RECORD`: `CUST-ID PIC 9(5)` and `CUST-NAME PIC X(30)`.
pub struct CustomerRecord {
    pub cust_id: u32,
    pub cust_name: String,
}

fn push_repeat(s: &mut String, c: char, n: usize)
    ensures
        final(s)@ == old(s)@ + repeat(c, n as nat),
{
    let ghost s0 = s@;
    let mut i: usize = 0;
    while i < n
        invariant
            i <= n,
            s@ == s0 + repeat(c, i as nat),
        decreases n - i,
    {
        push_char(s, c);
        proof {
            assert(s0 + repeat(c, (i + 1) as nat) =~= (s0 + repeat(c, i as nat)).push(c));
        }
        i = i + 1;
    }
}

impl CustomerRecord {
    /// A record with id 0 and a name of 30 spaces.
    pub fn new() -> (r: Self)
        ensures
            r.cust_id == 0,
            r.cust_name@ == repeat(' ', 30),
    {
        let mut name = String::new();
        push_repeat(&mut name, ' ', 30);
        proof {
            assert(Seq::<char>::empty() + repeat(' ', 30) =~= repeat(' ', 30));
        }
        CustomerRecord { cust_id: 0, cust_name: name }
    }

    /// Display PIC 9(5): zero-padded integer.
    pub fn display_id(&self) -> (r: String)
        ensures
            r@ == zero_pad(decimal(self.cust_id as nat), 5),
    {
        let mut digits = String::new();
        push_decimal(&mut digits, self.cust_id as usize);
        let dv = str_chars(digits.as_str());
        let mut r = String::new();
        if dv.len() < 5 {
            push_repeat(&mut r, '0', 5 - dv.len());
        }
        let ghost r0 = r@;
        crate::text::push_chars(&mut r, &dv, 0, dv.len());
        proof {
            assert(dv@.subrange(0, dv@.len() as int) =~= dv@);
            assert(Seq::<char>::empty() + decimal(self.cust_id as nat) =~= decimal(self.cust_id as nat));
            if dv@.len() < 5 {
                assert(Seq::<char>::empty() + repeat('0', (5 - dv@.len()) as nat) =~= repeat('0', (5 - dv@.len()) as nat));
            }
        }
        r
    }

    /// Display PIC X(30): right-padded to 30, then trailing white space trimmed.
    pub fn display_name(&self) -> (r: String)
        ensures
            r@ == trim_end(space_pad(self.cust_name@, 30)),
    {
        let nv = str_chars(self.cust_name.as_str());
        let mut padded: Vec<char> = nv.clone();
        let mut i = nv.len();
        proof {
            assert(padded@ == nv@);
        }
        while i < 30
            invariant
                nv.len() <= i <= 30 || (i == nv.len() && i >= 30),
                padded@ == nv@ + repeat(' ', (i - nv.len()) as nat),
            decreases 30 - i,
        {
            padded.push(' ');
            proof {
                assert(nv@ + repeat(' ', (i + 1 - nv.len()) as nat) =~= (nv@ + repeat(' ', (i - nv.len()) as nat)).push(' '));
            }
            i = i + 1;
        }
        proof {
            if nv@.len() >= 30 {
                assert(padded@ =~= space_pad(self.cust_name@, 30));
            } else {
                assert(padded@ =~= space_pad(self.cust_name@, 30));
            }
        }
        let j = crate::text::skip_ws_backward(&padded, 0, padded.len());
        proof {
            assert(padded@.subrange(0, padded@.len() as int) =~= padded@);
            assert(padded@.take(padded@.len() - (padded@.len() - j)) =~= padded@.subrange(0, j as int));
        }
        string_of(&padded, 0, j)
    }
}

/// `ACCUMULATE`: add the counter to the total.
pub fn accumulate(counter: u8, total: &mut u32)
    requires
        *old(total) + counter <= u32::MAX,
    ensures
        *final(total) == *old(total) + counter,
{
    *total = *total + counter as u32;
}

/// `DISPLAY "COUNT: " WS-COUNTER` for a PIC 9(2) counter.
pub fn display_line(counter: u8) -> (r: String)
    ensures
        r@ == "COUNT: "@ + zero_pad(decimal(counter as nat), 2),
{
    let mut digits = String::new();
    push_decimal(&mut digits, counter as usize);
    let dv = str_chars(digits.as_str());
    let mut r = String::new();
    r.append("COUNT: ");
    push_zero_padded(&mut r, &dv, 2);
    r
}

/// Append `v` padded on the left with zeros to `w` characters.
fn push_zero_padded(r: &mut String, v: &Vec<char>, w: usize)
    ensures
        final(r)@ == old(r)@ + zero_pad(v@, w as nat),
{
    let ghost r0 = r@;
    if v.len() < w {
        push_repeat(r, '0', w - v.len());
    } else {
        proof {
            assert(r@ =~= r0 + repeat('0', 0));
        }
    }
    let ghost r1 = r@;
    push_chars(r, v, 0, v.len());
    proof {
        assert(v@.subrange(0, v@.len() as int) =~= v@);
        if v@.len() < w {
            assert(r@ =~= r0 + (repeat('0', (w - v@.len()) as nat) + v@));
        } else {
            assert(r@ =~= r0 + v@);
        }
    }
}

/// `str::split_once(c)`: the text before and after the first `c`, or the whole text and
/// `otherwise` when there is none.
pub open spec fn split_once(s: Seq<char>, c: char, otherwise: Seq<char>) -> (Seq<char>, Seq<char>) {
    match find(s, seq![c]) {
        Some(i) => (s.take(i), s.skip(i + 1)),
        None => (s, otherwise),
    }
}

/// The position of the first `.` in `v`.
fn first_dot(v: &Vec<char>) -> (r: Option<usize>)
    ensures
        match r {
            Some(k) => find(v@, seq!['.']) == Some(k as int) && k < v@.len(),
            None => find(v@, seq!['.']) is None,
        },
{
    proof {
        reveal_strlit(".");
        assert("."@ =~= seq!['.']);
    }
    let r = find_chars(v, ".");
    proof {
        reveal_strlit(".");
    }
    r
}

/// PIC 9(n)V9(d) layout of a formatted number: the integral part zero-padded to
/// `int_digits`, a point, and the places.
pub open spec fn pic_text(formatted: Seq<char>, int_digits: nat) -> Seq<char> {
    let (a, b) = split_once(formatted, '.', Seq::empty());
    zero_pad(a, int_digits) + "."@ + b
}

/// Lay out a number, formatted with its places, as PIC 9(`int_digits`)V9(..).
pub fn pic_layout(formatted: &str, int_digits: usize) -> (r: String)
    ensures
        r@ == pic_text(formatted@, int_digits as nat),
{
    let v = str_chars(formatted);
    let n = v.len();
    let mut r = String::new();
    match first_dot(&v) {
        Some(i) => {
            let a = crate::text::sub_vec(&v, 0, i);
            push_zero_padded(&mut r, &a, int_digits);
            r.append(".");
            push_chars(&mut r, &v, i + 1, n);
            proof {
                reveal_strlit(".");
                assert(a@ =~= v@.take(i as int));
                assert(v@.subrange(i + 1, v@.len() as int) =~= v@.skip(i + 1));
                assert(r@ =~= pic_text(formatted@, int_digits as nat));
            }
        },
        None => {
            push_zero_padded(&mut r, &v, int_digits);
            r.append(".");
            proof {
                reveal_strlit(".");
                assert(r@ =~= pic_text(formatted@, int_digits as nat));
            }
        },
    }
    r
}

/// What `pic_format` shows for `val`: the value truncated to `dec_digits` places, laid
/// out as PIC 9(`int_digits`)V9(`dec_digits`); `None` when the truncation overflows or
/// the formatted text does not fit the decimal formatting buffer.
pub open spec fn pic_format_text(val: DecimalParts, int_digits: nat, dec_digits: nat) -> Option<Seq<char>> {
    match truncated(val, dec_digits) {
        Some((m, s)) => if fixed_fits(DecimalParts { mantissa: m, scale: s }, dec_digits) {
            Some(pic_text(fixed_text(m as int, s as nat, dec_digits), int_digits))
        } else {
            None
        },
        None => None,
    }
}

/// Format a decimal as COBOL PIC 9(int_digits)V9(dec_digits), truncating to `dec_digits`
/// places (COBOL COMPUTE without ROUNDED).
pub fn pic_format(val: DecimalParts, int_digits: usize, dec_digits: usize) -> (r: String)
    requires
        val.wf(),
        dec_digits <= 19,
        pic_format_text(val, int_digits as nat, dec_digits as nat) is Some,
    ensures
        pic_format_text(val, int_digits as nat, dec_digits as nat) == Some(r@),
{
    let t = cobol_truncate(val, dec_digits as u32);
    let f = decimal_fixed(t, dec_digits);
    pic_layout(f.as_str(), int_digits)
}

/// `pic_format` that reports an overflow of the truncation, or a text too long for the
/// decimal formatting buffer, as `None`; `pic_format` runs only where neither happens.
pub fn checked_pic_format(val: DecimalParts, int_digits: usize, dec_digits: usize) -> (r: Option<String>)
    requires
        val.wf(),
        dec_digits <= 19,
    ensures
        match pic_format_text(val, int_digits as nat, dec_digits as nat) {
            Some(t) => r matches Some(x) && x@ == t,
            None => r is None,
        },
{
    let t = match checked_cobol_truncate(val, dec_digits as u32) {
        Some(t) => t,
        None => return None,
    };
    if !fixed_fits_exec(t, dec_digits) {
        return None;
    }
    Some(pic_format(val, int_digits, dec_digits))
}

/// PIC S9(11)V99 layout of a formatted magnitude: the integral part zero-padded to 11
/// digits, a point and the places ("00" without a point), a minus sign when negative.
pub open spec fn balance_text(formatted: Seq<char>, negative: bool) -> Seq<char> {
    let (a, b) = split_once(formatted, '.', "00"@);
    let x = zero_pad(a, 11) + "."@ + b;
    if negative {
        "-"@ + x
    } else {
        x
    }
}

/// Lay out a formatted magnitude as PIC S9(11)V99, signed by `negative`.
pub fn balance_layout(formatted: &str, negative: bool) -> (r: String)
    ensures
        r@ == balance_text(formatted@, negative),
{
    let v = str_chars(formatted);
    let n = v.len();
    let mut r = String::new();
    if negative {
        r.append("-");
    }
    let ghost r0 = r@;
    match first_dot(&v) {
        Some(i) => {
            let a = crate::text::sub_vec(&v, 0, i);
            push_zero_padded(&mut r, &a, 11);
            r.append(".");
            push_chars(&mut r, &v, i + 1, n);
            proof {
                reveal_strlit(".");
                reveal_strlit("-");
                assert(a@ =~= v@.take(i as int));
                assert(v@.subrange(i + 1, v@.len() as int) =~= v@.skip(i + 1));
                assert(r@ =~= balance_text(formatted@, negative));
            }
        },
        None => {
            push_zero_padded(&mut r, &v, 11);
            r.append(".00");
            proof {
                reveal_strlit(".");
                reveal_strlit("-");
                reveal_strlit("00");
                reveal_strlit(".00");
                assert(r@ =~= balance_text(formatted@, negative));
            }
        },
    }
    r
}

/// The magnitude of a decimal, at the same scale (`Decimal::abs`).
pub open spec fn magnitude(d: DecimalParts) -> DecimalParts {
    DecimalParts {
        mantissa: (if d.mantissa < 0 {
            -d.mantissa
        } else {
            d.mantissa as int
        }) as i128,
        scale: d.scale,
    }
}

/// What `format_balance` shows for `bal`: the magnitude truncated to 2 places, laid out as
/// PIC S9(11)V99; `None` when the truncation overflows.
pub open spec fn balance_format_text(bal: DecimalParts) -> Option<Seq<char>> {
    match truncated(magnitude(bal), 2) {
        Some((m, s)) => Some(balance_text(fixed_text(m as int, s as nat, 2), bal.mantissa < 0)),
        None => None,
    }
}

/// Format PIC S9(11)V99 for DISPLAY.
pub fn format_balance(bal: DecimalParts) -> (r: String)
    requires
        bal.wf(),
        balance_format_text(bal) is Some,
    ensures
        balance_format_text(bal) == Some(r@),
{
    let abs_bal = DecimalParts {
        mantissa: if bal.mantissa < 0 {
            -bal.mantissa
        } else {
            bal.mantissa
        },
        scale: bal.scale,
    };
    let t = cobol_truncate(abs_bal, 2);
    proof {
        lemma_two_places_fit(t);
    }
    let f = decimal_fixed(t, 2);
    balance_layout(f.as_str(), bal.mantissa < 0)
}

/// `format_balance` that reports an overflow of the truncation as `None`;
/// `format_balance` runs only where there is none.
pub fn checked_format_balance(bal: DecimalParts) -> (r: Option<String>)
    requires
        bal.wf(),
    ensures
        match balance_format_text(bal) {
            Some(t) => r matches Some(x) && x@ == t,
            None => r is None,
        },
{
    let abs_bal = DecimalParts {
        mantissa: if bal.mantissa < 0 {
            -bal.mantissa
        } else {
            bal.mantissa
        },
        scale: bal.scale,
    };
    match checked_cobol_truncate(abs_bal, 2) {
        Some(_) => Some(format_balance(bal)),
        None => None,
    }
}

// ---------------------------------------------------------------------------
// Reading an amount field
// ---------------------------------------------------------------------------

/// Where `split_at(len - 2)` cuts `t`, counted in characters: before its last character
/// when that takes two bytes, before its last two when both take one; `None` when that
/// byte offset falls inside a character.
pub open spec fn amount_cut(t: Seq<char>) -> Option<int> {
    let n = t.len();
    if n >= 1 && utf8_len(t[n - 1]) == 2 {
        Some(n - 1)
    } else if n >= 2 && utf8_len(t[n - 1]) == 1 && utf8_len(t[n - 2]) == 1 {
        Some(n - 2)
    } else {
        None
    }
}

/// The trimmed field is shorter than two bytes, or its last two bytes start a character.
pub open spec fn amount_ok(raw: Seq<char>) -> bool {
    byte_len(trim(raw)) < 2 || amount_cut(trim(raw)) is Some
}

/// `s` without a leading `+`.
pub open spec fn unsigned_digits(s: Seq<char>) -> Seq<char> {
    if s.len() > 0 && s[0] == '+' {
        s.drop_first()
    } else {
        s
    }
}

/// Every character of `d` is an ASCII digit.
pub open spec fn all_digits(d: Seq<char>) -> bool {
    forall|j: int| 0 <= j < d.len() ==> is_digit(#[trigger] d[j])
}

/// What `str::parse::<u64>` gives: an optional `+`, then one or more ASCII digits whose
/// value fits 64 bits.
pub open spec fn parse_u64(s: Seq<char>) -> Option<nat> {
    let d = unsigned_digits(s);
    if d.len() > 0 && all_digits(d) && digits_value(d) <= u64::MAX {
        Some(digits_value(d))
    } else {
        None
    }
}

/// `parse::<u64>().unwrap_or(0)`.
pub open spec fn u64_or_zero(s: Seq<char>) -> nat {
    match parse_u64(s) {
        Some(x) => x,
        None => 0,
    }
}

/// The amount a field holds: zero when the trimmed field is shorter than two bytes;
/// otherwise the number before the last two digits plus those digits divided by 100, as
/// the decimal arithmetic computes it; `None` when that overflows.
pub open spec fn amount_of(raw: Seq<char>) -> Option<(i128, u32)> {
    let t = trim(raw);
    if byte_len(t) < 2 {
        Some((0, 0))
    } else {
        let k = amount_cut(t).unwrap();
        let iv = u64_or_zero(t.take(k));
        let dv = u64_or_zero(t.skip(k));
        match decimal_quotient(dv as i128, 0, 100, 0) {
            Some((qm, qs)) => decimal_sum(iv as i128, 0, qm, qs),
            None => None,
        }
    }
}

/// `v[a..b]` parsed as `str::parse::<u64>` parses, or 0.
fn u64_or_zero_exec(v: &Vec<char>, a: usize, b: usize) -> (r: u64)
    requires
        a <= b <= v@.len(),
    ensures
        r == u64_or_zero(v@.subrange(a as int, b as int)),
{
    let ghost s = v@.subrange(a as int, b as int);
    let start = if a < b && v[a] == '+' {
        a + 1
    } else {
        a
    };
    let ghost d = v@.subrange(start as int, b as int);
    proof {
        if a < b && v@[a as int] == '+' {
            assert(d =~= s.drop_first());
        } else {
            assert(d =~= s);
        }
    }
    if start >= b {
        return 0;
    }
    let mut i = start;
    while i < b
        invariant
            a <= start <= i <= b <= v@.len(),
            start < b,
            d == v@.subrange(start as int, b as int),
            s == v@.subrange(a as int, b as int),
            d == unsigned_digits(s),
            forall|j: int| start <= j < i ==> is_digit(#[trigger] v@[j]),
        decreases b - i,
    {
        if !is_digit_exec(v[i]) {
            proof {
                assert(d[i - start] == v@[i as int]);
                assert(!is_digit(d[i - start]));
                assert(!all_digits(d));
            }
            return 0;
        }
        i = i + 1;
    }
    proof {
        assert forall|j: int| 0 <= j < d.len() implies is_digit(#[trigger] d[j]) by {
            assert(d[j] == v@[start + j]);
        }
        assert(all_digits(d));
    }
    match digits_upto(v, start, b, u64::MAX) {
        Some(x) => x,
        None => 0,
    }
}

proof fn lemma_byte_len_small(t: Seq<char>)
    ensures
        byte_len(t) < 2 <==> (t.len() == 0 || (t.len() == 1 && utf8_len(t[0]) == 1)),
{
    if t.len() >= 1 {
        assert(byte_len(t) == byte_len(t.drop_last()) + utf8_len(t.last()));
        if t.len() >= 2 {
            assert(byte_len(t.drop_last()) == byte_len(t.drop_last().drop_last()) + utf8_len(
                t.drop_last().last(),
            ));
        } else {
            assert(t.drop_last().len() == 0);
        }
    }
}

/// Where the field `v[a..b]` is cut: `None` when it is shorter than two bytes.
fn amount_split(v: &Vec<char>, a: usize, b: usize) -> (r: Option<usize>)
    requires
        a <= b <= v@.len(),
        byte_len(v@.subrange(a as int, b as int)) < 2 || amount_cut(v@.subrange(a as int, b as int)) is Some,
    ensures
        match r {
            Some(k) => byte_len(v@.subrange(a as int, b as int)) >= 2 && a <= k <= b && amount_cut(
                v@.subrange(a as int, b as int),
            ) == Some(k - a),
            None => byte_len(v@.subrange(a as int, b as int)) < 2,
        },
{
    let ghost t = v@.subrange(a as int, b as int);
    proof {
        lemma_byte_len_small(t);
    }
    if a == b || (b - a == 1 && utf8_len_exec(v[a]) == 1) {
        return None;
    }
    proof {
        assert(t[t.len() - 1] == v@[b - 1]);
        if t.len() >= 2 {
            assert(t[t.len() - 2] == v@[b - 2]);
        }
    }
    if utf8_len_exec(v[b - 1]) == 2 {
        Some(b - 1)
    } else {
        Some(b - 2)
    }
}

/// Parse a 9-character COBOL amount field whose last 2 digits are cents, e.g.
/// `"000000099"` is 0.99 and `"000000050"` is 0.50.
pub fn parse_amount(raw: &str) -> (r: DecimalParts)
    requires
        amount_ok(raw@),
        amount_of(raw@) is Some,
    ensures
        amount_of(raw@) == Some((r.mantissa, r.scale)),
{
    match amount_steps(raw) {
        Some(r) => r,
        None => DecimalParts { mantissa: 0, scale: 0 },
    }
}

/// `parse_amount` that reports an overflow of the decimal arithmetic as `None`: the steps
/// are tried, and `parse_amount` runs only where they do not overflow.
pub fn checked_parse_amount(raw: &str) -> (r: Option<DecimalParts>)
    requires
        amount_ok(raw@),
    ensures
        match amount_of(raw@) {
            Some((m, s)) => r == Some(DecimalParts { mantissa: m, scale: s }),
            None => r is None,
        },
{
    match amount_steps(raw) {
        Some(_) => Some(parse_amount(raw)),
        None => None,
    }
}

/// The reading of the field, step by step; `None` when the decimal arithmetic overflows.
fn amount_steps(raw: &str) -> (r: Option<DecimalParts>)
    requires
        amount_ok(raw@),
    ensures
        match amount_of(raw@) {
            Some((m, s)) => r == Some(DecimalParts { mantissa: m, scale: s }),
            None => r is None,
        },
{
    let v = str_chars(raw);
    let (a, b) = trim_bounds(&v, 0, v.len());
    proof {
        assert(v@.subrange(0, v@.len() as int) =~= v@);
    }
    let k = match amount_split(&v, a, b) {
        Some(k) => k,
        None => return Some(DecimalParts { mantissa: 0, scale: 0 }),
    };
    proof {
        let t = v@.subrange(a as int, b as int);
        assert(t.take(k - a) =~= v@.subrange(a as int, k as int));
        assert(t.skip(k - a) =~= v@.subrange(k as int, b as int));
    }
    let int_val = u64_or_zero_exec(&v, a, k);
    let dec_val = u64_or_zero_exec(&v, k, b);
    let q = match decimal_div(
        DecimalParts { mantissa: dec_val as i128, scale: 0 },
        DecimalParts { mantissa: 100, scale: 0 },
    ) {
        Some(q) => q,
        None => return None,
    };
    decimal_add(DecimalParts { mantissa: int_val as i128, scale: 0 }, q)
}

} // verus!
