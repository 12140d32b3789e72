use vstd::prelude::*;
use vstd::string::StringExecFns;

verus! {

broadcast use vstd::string::group_string_axioms;

// ---------------------------------------------------------------------------
// Character classes
// ---------------------------------------------------------------------------

/// Unicode `White_Space`, the class that `char::is_whitespace` and `str::trim` use.
pub open spec fn is_ws(c: char) -> bool {
    ||| ('\t' <= c && c <= '\r')
    ||| c == ' '
    ||| c == '\u{85}'
    ||| c == '\u{A0}'
    ||| c == '\u{1680}'
    ||| ('\u{2000}' <= c && c <= '\u{200A}')
    ||| c == '\u{2028}'
    ||| c == '\u{2029}'
    ||| c == '\u{202F}'
    ||| c == '\u{205F}'
    ||| c == '\u{3000}'
}

pub fn is_ws_exec(c: char) -> (r: bool)
    ensures
        r == is_ws(c),
{
    ('\t' <= c && c <= '\r') || c == ' ' || c == '\u{85}' || c == '\u{A0}' || c == '\u{1680}'
        || ('\u{2000}' <= c && c <= '\u{200A}') || c == '\u{2028}' || c == '\u{2029}' || c
        == '\u{202F}' || c == '\u{205F}' || c == '\u{3000}'
}

/// ASCII upper case of one character; other characters are kept.
pub open spec fn upper_char(c: char) -> char {
    if 'a' <= c && c <= 'z' {
        ((c as u32) - 32) as char
    } else {
        c
    }
}

/// ASCII lower case of one character; other characters are kept.
pub open spec fn lower_char(c: char) -> char {
    if 'A' <= c && c <= 'Z' {
        ((c as u32) + 32) as char
    } else {
        c
    }
}

pub fn upper_char_exec(c: char) -> (r: char)
    ensures
        r == upper_char(c),
{
    if 'a' <= c && c <= 'z' {
        ((c as u8) - 32) as char
    } else {
        c
    }
}

pub fn lower_char_exec(c: char) -> (r: char)
    ensures
        r == lower_char(c),
{
    if 'A' <= c && c <= 'Z' {
        ((c as u8) + 32) as char
    } else {
        c
    }
}

pub open spec fn upper(s: Seq<char>) -> Seq<char> {
    s.map_values(|c: char| upper_char(c))
}

pub open spec fn lower(s: Seq<char>) -> Seq<char> {
    s.map_values(|c: char| lower_char(c))
}

/// ASCII digits `0`..`9`.
pub open spec fn is_digit(c: char) -> bool {
    '0' <= c && c <= '9'
}

/// The characters `[A-Za-z0-9_]`.
pub open spec fn is_word(c: char) -> bool {
    ||| ('a' <= c && c <= 'z')
    ||| ('A' <= c && c <= 'Z')
    ||| is_digit(c)
    ||| c == '_'
}

/// The characters of a COBOL name: `[A-Za-z0-9_-]`.
pub open spec fn is_name_char(c: char) -> bool {
    is_word(c) || c == '-'
}

pub fn is_digit_exec(c: char) -> (r: bool)
    ensures
        r == is_digit(c),
{
    '0' <= c && c <= '9'
}

pub fn is_word_exec(c: char) -> (r: bool)
    ensures
        r == is_word(c),
{
    ('a' <= c && c <= 'z') || ('A' <= c && c <= 'Z') || ('0' <= c && c <= '9') || c == '_'
}

pub fn is_name_char_exec(c: char) -> (r: bool)
    ensures
        r == is_name_char(c),
{
    is_word_exec(c) || c == '-'
}

// ---------------------------------------------------------------------------
// Trimming
// ---------------------------------------------------------------------------

/// Number of leading white-space characters.
pub open spec fn lead_ws(s: Seq<char>) -> nat
    decreases s.len(),
{
    if s.len() > 0 && is_ws(s[0]) {
        1 + lead_ws(s.drop_first())
    } else {
        0
    }
}

/// Number of trailing white-space characters.
pub open spec fn trail_ws(s: Seq<char>) -> nat
    decreases s.len(),
{
    if s.len() > 0 && is_ws(s.last()) {
        1 + trail_ws(s.drop_last())
    } else {
        0
    }
}

pub open spec fn trim_start(s: Seq<char>) -> Seq<char> {
    s.skip(lead_ws(s) as int)
}

pub open spec fn trim_end(s: Seq<char>) -> Seq<char> {
    s.take(s.len() - trail_ws(s))
}

pub open spec fn trim(s: Seq<char>) -> Seq<char> {
    trim_end(trim_start(s))
}

pub proof fn lemma_lead_ws(s: Seq<char>, n: int)
    requires
        0 <= n <= s.len(),
        forall|j: int| 0 <= j < n ==> is_ws(#[trigger] s[j]),
        n == s.len() || !is_ws(s[n]),
    ensures
        lead_ws(s) == n,
    decreases n,
{
    if n > 0 {
        lemma_lead_ws(s.drop_first(), n - 1);
    }
}

pub proof fn lemma_trail_ws(s: Seq<char>, n: int)
    requires
        0 <= n <= s.len(),
        forall|j: int| s.len() - n <= j < s.len() ==> is_ws(#[trigger] s[j]),
        n == s.len() || !is_ws(s[s.len() - n - 1]),
    ensures
        trail_ws(s) == n,
    decreases n,
{
    if n > 0 {
        assert(is_ws(s.last()));
        lemma_trail_ws(s.drop_last(), n - 1);
    }
}

pub proof fn lemma_lead_ws_bound(s: Seq<char>)
    ensures
        lead_ws(s) <= s.len(),
        forall|j: int| 0 <= j < lead_ws(s) ==> is_ws(#[trigger] s[j]),
        lead_ws(s) < s.len() ==> !is_ws(s[lead_ws(s) as int]),
    decreases s.len(),
{
    if s.len() > 0 && is_ws(s[0]) {
        lemma_lead_ws_bound(s.drop_first());
        assert forall|j: int| 0 <= j < lead_ws(s) implies is_ws(#[trigger] s[j]) by {
            if j > 0 {
                assert(s[j] == s.drop_first()[j - 1]);
            }
        }
    }
}

pub proof fn lemma_trail_ws_bound(s: Seq<char>)
    ensures
        trail_ws(s) <= s.len(),
        forall|j: int| s.len() - trail_ws(s) <= j < s.len() ==> is_ws(#[trigger] s[j]),
        trail_ws(s) < s.len() ==> !is_ws(s[s.len() - trail_ws(s) - 1]),
    decreases s.len(),
{
    if s.len() > 0 && is_ws(s.last()) {
        lemma_trail_ws_bound(s.drop_last());
        assert forall|j: int| s.len() - trail_ws(s) <= j < s.len() implies is_ws(
            #[trigger] s[j],
        ) by {
            if j < s.len() - 1 {
                assert(s[j] == s.drop_last()[j]);
            }
        }
    }
}

/// First index in `[a, b)` that is not white space, or `b`.
pub fn skip_ws_forward(v: &Vec<char>, a: usize, b: usize) -> (i: usize)
    requires
        a <= b <= v@.len(),
    ensures
        a <= i <= b,
        i - a == lead_ws(v@.subrange(a as int, b as int)),
{
    let mut i = a;
    while i < b && is_ws_exec(v[i])
        invariant
            a <= i <= b <= v@.len(),
            forall|j: int| a <= j < i ==> is_ws(#[trigger] v@[j]),
        decreases b - i,
    {
        i = i + 1;
    }
    proof {
        let s = v@.subrange(a as int, b as int);
        assert forall|j: int| 0 <= j < i - a implies is_ws(#[trigger] s[j]) by {
            assert(s[j] == v@[a + j]);
        }
        lemma_lead_ws(s, i - a);
    }
    i
}

/// One past the last index in `[a, b)` that is not white space, or `a`.
pub fn skip_ws_backward(v: &Vec<char>, a: usize, b: usize) -> (j: usize)
    requires
        a <= b <= v@.len(),
    ensures
        a <= j <= b,
        b - j == trail_ws(v@.subrange(a as int, b as int)),
{
    let mut j = b;
    while j > a && is_ws_exec(v[j - 1])
        invariant
            a <= j <= b <= v@.len(),
            forall|k: int| j <= k < b ==> is_ws(#[trigger] v@[k]),
        decreases j - a,
    {
        j = j - 1;
    }
    proof {
        let s = v@.subrange(a as int, b as int);
        assert forall|k: int| s.len() - (b - j) <= k < s.len() implies is_ws(#[trigger] s[k]) by {
            assert(s[k] == v@[a + k]);
        }
        lemma_trail_ws(s, b - j);
    }
    j
}

pub proof fn lemma_trim_sub(v: Seq<char>, a: int, b: int, i: int, j: int)
    requires
        0 <= a <= b <= v.len(),
        i - a == lead_ws(v.subrange(a, b)),
        a <= i <= b,
        b - j == trail_ws(v.subrange(i, b)),
        i <= j <= b,
    ensures
        trim(v.subrange(a, b)) == v.subrange(i, j),
        trim_start(v.subrange(a, b)) == v.subrange(i, b),
{
    assert(v.subrange(a, b).skip(i - a) =~= v.subrange(i, b));
    assert(v.subrange(i, b).take(j - i) =~= v.subrange(i, j));
}

/// Bounds of the trimmed part of `v[a..b]`.
pub fn trim_bounds(v: &Vec<char>, a: usize, b: usize) -> (r: (usize, usize))
    requires
        a <= b <= v@.len(),
    ensures
        a <= r.0 <= r.1 <= b,
        trim(v@.subrange(a as int, b as int)) == v@.subrange(r.0 as int, r.1 as int),
        trim_start(v@.subrange(a as int, b as int)) == v@.subrange(r.0 as int, b as int),
{
    let i = skip_ws_forward(v, a, b);
    let j = skip_ws_backward(v, i, b);
    proof {
        lemma_trim_sub(v@, a as int, b as int, i as int, j as int);
    }
    (i, j)
}

// ---------------------------------------------------------------------------
// Searching
// ---------------------------------------------------------------------------

/// `p` occurs in `s` at index `i`.
pub open spec fn matches_at(s: Seq<char>, p: Seq<char>, i: int) -> bool {
    0 <= i && i + p.len() <= s.len() && s.subrange(i, i + p.len()) == p
}

/// First index at or after `i` at which `p` occurs in `s`.
pub open spec fn find_from(s: Seq<char>, p: Seq<char>, i: int) -> Option<int>
    decreases s.len() + 1 - i,
{
    if i < 0 || i + p.len() > s.len() {
        None
    } else if matches_at(s, p, i) {
        Some(i)
    } else {
        find_from(s, p, i + 1)
    }
}

/// First index at which `p` occurs in `s` (what `str::find` gives, counted in characters).
pub open spec fn find(s: Seq<char>, p: Seq<char>) -> Option<int> {
    find_from(s, p, 0)
}

pub open spec fn contains(s: Seq<char>, p: Seq<char>) -> bool {
    find(s, p) is Some
}

pub open spec fn starts_with(s: Seq<char>, p: Seq<char>) -> bool {
    p.len() <= s.len() && s.take(p.len() as int) == p
}

pub open spec fn ends_with(s: Seq<char>, p: Seq<char>) -> bool {
    p.len() <= s.len() && s.skip(s.len() - p.len()) == p
}

pub proof fn lemma_find_from_found(s: Seq<char>, p: Seq<char>, start: int, i: int)
    requires
        0 <= start <= i,
        matches_at(s, p, i),
        forall|j: int| start <= j < i ==> !matches_at(s, p, j),
    ensures
        find_from(s, p, start) == Some(i),
    decreases i - start,
{
    if start < i {
        lemma_find_from_found(s, p, start + 1, i);
    }
}

pub proof fn lemma_find_from_none(s: Seq<char>, p: Seq<char>, start: int)
    requires
        0 <= start,
        forall|j: int| start <= j && j + p.len() <= s.len() ==> !matches_at(s, p, j),
    ensures
        find_from(s, p, start) is None,
    decreases s.len() + 1 - start,
{
    if start + p.len() <= s.len() {
        lemma_find_from_none(s, p, start + 1);
    }
}

pub proof fn lemma_find_from_props(s: Seq<char>, p: Seq<char>, start: int)
    requires
        0 <= start,
    ensures
        find_from(s, p, start) matches Some(i) ==> start <= i && matches_at(s, p, i) && forall|
            j: int,
        | start <= j < i ==> !matches_at(s, p, j),
        find_from(s, p, start) is None ==> forall|j: int| start <= j ==> !matches_at(s, p, j),
    decreases s.len() + 1 - start,
{
    if start + p.len() <= s.len() && !matches_at(s, p, start) {
        lemma_find_from_props(s, p, start + 1);
    }
}

/// An executable index and a ghost one name the same position, or both are absent.
pub open spec fn same_pos(r: Option<usize>, o: Option<int>) -> bool {
    match o {
        Some(i) => r == Some(i as usize) && 0 <= i <= usize::MAX,
        None => r is None,
    }
}

/// `p` occurs in `v` at index `i`.
pub fn matches_at_exec(v: &Vec<char>, p: &Vec<char>, i: usize) -> (r: bool)
    ensures
        r == matches_at(v@, p@, i as int),
{
    if i > v.len() || p.len() > v.len() - i {
        return false;
    }
    let vl = v.len();
    let mut k: usize = 0;
    while k < p.len()
        invariant
            vl == v@.len(),
            i + p@.len() <= v@.len(),
            k <= p@.len(),
            forall|m: int| 0 <= m < k ==> v@[i + m] == #[trigger] p@[m],
        decreases p@.len() - k,
    {
        assert(i + k < v@.len());
        if v[i + k] != p[k] {
            proof {
                assert(v@.subrange(i as int, i + p@.len())[k as int] != p@[k as int]);
            }
            return false;
        }
        k = k + 1;
    }
    proof {
        assert(v@.subrange(i as int, i + p@.len()) =~= p@);
    }
    true
}

/// First index at or after `start`, with the match ending at or before `end`, at which `p`
/// occurs in `v`.
pub fn find_in(v: &Vec<char>, p: &Vec<char>, start: usize, end: usize) -> (r: Option<usize>)
    requires
        start <= end <= v@.len(),
    ensures
        same_pos(r, find_from(v@.subrange(0, end as int), p@, start as int)),
{
    let ghost s = v@.subrange(0, end as int);
    if p.len() == 0 {
        proof {
            assert(s.subrange(start as int, start as int) =~= p@);
            lemma_find_from_found(s, p@, start as int, start as int);
        }
        return Some(start);
    }
    let mut i = start;
    while i < end && p.len() <= end - i
        invariant
            start <= i <= end,
            end <= v@.len(),
            p@.len() > 0,
            s == v@.subrange(0, end as int),
            forall|j: int| start <= j < i ==> !matches_at(s, p@, j),
        decreases end - i,
    {
        let m = matches_at_exec(v, p, i);
        proof {
            assert(v@.subrange(i as int, i + p@.len()) =~= s.subrange(i as int, i + p@.len()));
        }
        if m {
            proof {
                lemma_find_from_found(s, p@, start as int, i as int);
            }
            return Some(i);
        }
        i = i + 1;
    }
    proof {
        lemma_find_from_none(s, p@, start as int);
    }
    None
}

// ---------------------------------------------------------------------------
// Building strings
// ---------------------------------------------------------------------------

/// Appends one character to a string (`String::push`).
#[verifier::external_body]
pub(crate) fn push_char(s: &mut String, c: char)
    ensures
        final(s)@ == old(s)@.push(c),
{
    s.push(c);
}

/// The characters of a string slice, in order.
pub fn str_chars(s: &str) -> (res: Vec<char>)
    ensures
        res@ == s@,
{
    let mut res: Vec<char> = Vec::new();
    for c in it: s.chars()
        invariant
            res@ == it.seq().take(it.index() as int),
            it.seq() == s@,
    {
        res.push(c);
    }
    res
}

/// The string made of `v[a..b]`.
pub fn string_of(v: &Vec<char>, a: usize, b: usize) -> (res: String)
    requires
        a <= b <= v@.len(),
    ensures
        res@ == v@.subrange(a as int, b as int),
{
    let mut res = String::new();
    let mut i = a;
    while i < b
        invariant
            a <= i <= b <= v@.len(),
            res@ == v@.subrange(a as int, i as int),
        decreases b - i,
    {
        push_char(&mut res, v[i]);
        proof {
            assert(v@.subrange(a as int, i + 1) =~= v@.subrange(a as int, i as int).push(v@[i as int]));
        }
        i = i + 1;
    }
    res
}

/// Appends `v[a..b]` to `s`.
pub fn push_chars(s: &mut String, v: &Vec<char>, a: usize, b: usize)
    requires
        a <= b <= v@.len(),
    ensures
        final(s)@ == old(s)@ + v@.subrange(a as int, b as int),
{
    let ghost s0 = s@;
    let mut i = a;
    while i < b
        invariant
            a <= i <= b <= v@.len(),
            s@ == s0 + v@.subrange(a as int, i as int),
        decreases b - i,
    {
        push_char(s, v[i]);
        proof {
            assert(v@.subrange(a as int, i + 1) =~= v@.subrange(a as int, i as int).push(v@[i as int]));
            assert(s0 + v@.subrange(a as int, i + 1) =~= (s0 + v@.subrange(a as int, i as int)).push(v@[i as int]));
        }
        i = i + 1;
    }
}

/// ASCII upper case of every character.
pub fn upper_vec(v: &Vec<char>) -> (res: Vec<char>)
    ensures
        res@ == upper(v@),
        res@.len() == v@.len(),
{
    let mut res: Vec<char> = Vec::new();
    let mut i: usize = 0;
    while i < v.len()
        invariant
            i <= v@.len(),
            res@ =~= upper(v@.take(i as int)),
        decreases v@.len() - i,
    {
        let c = upper_char_exec(v[i]);
        res.push(c);
        proof {
            assert(v@.take(i + 1) =~= v@.take(i as int).push(v@[i as int]));
        }
        i = i + 1;
    }
    proof {
        assert(v@.take(v@.len() as int) =~= v@);
    }
    res
}

// ---------------------------------------------------------------------------
// Decimal numerals
// ---------------------------------------------------------------------------

pub open spec fn digit_char(d: nat) -> char {
    (48 + d) as char
}

/// The decimal numeral of `n`, as `usize::to_string` writes it.
pub open spec fn decimal(n: nat) -> Seq<char>
    decreases n,
{
    if n < 10 {
        seq![digit_char(n)]
    } else {
        decimal(n / 10).push(digit_char(n % 10))
    }
}

/// A decimal numeral is a non-empty run of digits.
pub proof fn lemma_decimal_digits(n: nat)
    ensures
        decimal(n).len() > 0,
        forall|k: int| 0 <= k < decimal(n).len() ==> is_digit(#[trigger] decimal(n)[k]),
        !decimal(n).contains('$'),
    decreases n,
{
    if n >= 10 {
        lemma_decimal_digits(n / 10);
        let d = decimal(n / 10).push(digit_char(n % 10));
        assert forall|k: int| 0 <= k < d.len() implies is_digit(#[trigger] d[k]) by {
            if k < d.len() - 1 {
                assert(d[k] == decimal(n / 10)[k]);
            }
        }
    }
    assert(!decimal(n).contains('$')) by {
        if decimal(n).contains('$') {
            let k = choose|k: int| 0 <= k < decimal(n).len() && decimal(n)[k] == '$';
            assert(is_digit(decimal(n)[k]));
        }
    }
}

/// Appends the decimal numeral of `n`.
pub fn push_decimal(s: &mut String, n: usize)
    ensures
        final(s)@ == old(s)@ + decimal(n as nat),
    decreases n,
{
    if n >= 10 {
        push_decimal(s, n / 10);
    }
    let d = (n % 10) as u8;
    push_char(s, (48u8 + d) as char);
    proof {
        assert(old(s)@ + decimal(n as nat) =~= s@);
    }
}

} // verus!

verus! {

// ---------------------------------------------------------------------------
// Sub-sequences and case-insensitive search
// ---------------------------------------------------------------------------

/// A copy of `v[a..b]`.
pub fn sub_vec(v: &Vec<char>, a: usize, b: usize) -> (res: Vec<char>)
    requires
        a <= b <= v@.len(),
    ensures
        res@ == v@.subrange(a as int, b as int),
{
    let mut res: Vec<char> = Vec::new();
    let mut i = a;
    while i < b
        invariant
            a <= i <= b <= v@.len(),
            res@ == v@.subrange(a as int, i as int),
        decreases b - i,
    {
        res.push(v[i]);
        proof {
            assert(v@.subrange(a as int, i + 1) =~= v@.subrange(a as int, i as int).push(v@[i as int]));
        }
        i = i + 1;
    }
    res
}

/// First position of `p` in the ASCII upper case of `v`.
pub fn find_upper(v: &Vec<char>, p: &str) -> (r: Option<usize>)
    ensures
        same_pos(r, find(upper(v@), p@)),
        r matches Some(i) ==> i + p@.len() <= v@.len(),
        v@.len() <= usize::MAX,
{
    let _vl = v.len();
    let up = upper_vec(v);
    let pv = str_chars(p);
    proof {
        assert(up@.subrange(0, up@.len() as int) =~= up@);
    }
    let r = find_in(&up, &pv, 0, up.len());
    proof {
        lemma_find_from_props(upper(v@), p@, 0);
    }
    r
}

/// First position of `p` in `v`.
pub fn find_chars(v: &Vec<char>, p: &str) -> (r: Option<usize>)
    ensures
        same_pos(r, find(v@, p@)),
        r matches Some(i) ==> i + p@.len() <= v@.len(),
        v@.len() <= usize::MAX,
{
    let _vl = v.len();
    let pv = str_chars(p);
    proof {
        assert(v@.subrange(0, v@.len() as int) =~= v@);
    }
    let r = find_in(v, &pv, 0, v.len());
    proof {
        lemma_find_from_props(v@, p@, 0);
    }
    r
}

/// The trimmed `v[a..b]` as a string.
pub fn trimmed_string(v: &Vec<char>, a: usize, b: usize) -> (res: String)
    requires
        a <= b <= v@.len(),
    ensures
        res@ == trim(v@.subrange(a as int, b as int)),
{
    let (i, j) = trim_bounds(v, a, b);
    string_of(v, i, j)
}

// ---------------------------------------------------------------------------
// Stripping a repeated character
// ---------------------------------------------------------------------------

/// Number of leading copies of `c`.
pub open spec fn lead_char(s: Seq<char>, c: char) -> nat
    decreases s.len(),
{
    if s.len() > 0 && s[0] == c {
        1 + lead_char(s.drop_first(), c)
    } else {
        0
    }
}

/// Number of trailing copies of `c`.
pub open spec fn trail_char(s: Seq<char>, c: char) -> nat
    decreases s.len(),
{
    if s.len() > 0 && s.last() == c {
        1 + trail_char(s.drop_last(), c)
    } else {
        0
    }
}

/// `str::trim_start_matches` with a character.
pub open spec fn trim_start_char(s: Seq<char>, c: char) -> Seq<char> {
    s.skip(lead_char(s, c) as int)
}

/// `str::trim_end_matches` with a character.
pub open spec fn trim_end_char(s: Seq<char>, c: char) -> Seq<char> {
    s.take(s.len() - trail_char(s, c))
}

/// `str::trim_matches` with a character.
pub open spec fn trim_char(s: Seq<char>, c: char) -> Seq<char> {
    trim_end_char(trim_start_char(s, c), c)
}

pub proof fn lemma_lead_char(s: Seq<char>, c: char, n: int)
    requires
        0 <= n <= s.len(),
        forall|j: int| 0 <= j < n ==> #[trigger] s[j] == c,
        n == s.len() || s[n] != c,
    ensures
        lead_char(s, c) == n,
    decreases n,
{
    if n > 0 {
        lemma_lead_char(s.drop_first(), c, n - 1);
    }
}

pub proof fn lemma_trail_char(s: Seq<char>, c: char, n: int)
    requires
        0 <= n <= s.len(),
        forall|j: int| s.len() - n <= j < s.len() ==> #[trigger] s[j] == c,
        n == s.len() || s[s.len() - n - 1] != c,
    ensures
        trail_char(s, c) == n,
    decreases n,
{
    if n > 0 {
        assert(s.last() == c);
        lemma_trail_char(s.drop_last(), c, n - 1);
    }
}

/// First index in `[a, b)` that is not `c`, or `b`.
pub fn skip_char_forward(v: &Vec<char>, a: usize, b: usize, c: char) -> (i: usize)
    requires
        a <= b <= v@.len(),
    ensures
        a <= i <= b,
        i - a == lead_char(v@.subrange(a as int, b as int), c),
        trim_start_char(v@.subrange(a as int, b as int), c) == v@.subrange(i as int, b as int),
{
    let mut i = a;
    while i < b && v[i] == c
        invariant
            a <= i <= b <= v@.len(),
            forall|j: int| a <= j < i ==> #[trigger] v@[j] == c,
        decreases b - i,
    {
        i = i + 1;
    }
    proof {
        let s = v@.subrange(a as int, b as int);
        assert forall|j: int| 0 <= j < i - a implies #[trigger] s[j] == c by {
            assert(s[j] == v@[a + j]);
        }
        lemma_lead_char(s, c, i - a);
        assert(s.skip(i - a) =~= v@.subrange(i as int, b as int));
    }
    i
}

/// One past the last index in `[a, b)` that is not `c`, or `a`.
pub fn skip_char_backward(v: &Vec<char>, a: usize, b: usize, c: char) -> (j: usize)
    requires
        a <= b <= v@.len(),
    ensures
        a <= j <= b,
        b - j == trail_char(v@.subrange(a as int, b as int), c),
        trim_end_char(v@.subrange(a as int, b as int), c) == v@.subrange(a as int, j as int),
{
    let mut j = b;
    while j > a && v[j - 1] == c
        invariant
            a <= j <= b <= v@.len(),
            forall|k: int| j <= k < b ==> #[trigger] v@[k] == c,
        decreases j - a,
    {
        j = j - 1;
    }
    proof {
        let s = v@.subrange(a as int, b as int);
        assert forall|k: int| s.len() - (b - j) <= k < s.len() implies #[trigger] s[k] == c by {
            assert(s[k] == v@[a + k]);
        }
        lemma_trail_char(s, c, b - j);
        assert(s.take(s.len() - (b - j)) =~= v@.subrange(a as int, j as int));
    }
    j
}

// ---------------------------------------------------------------------------
// Splitting at a character
// ---------------------------------------------------------------------------

/// `str::split` at a character: the pieces between the separators, empty ones included.
pub open spec fn split_char(s: Seq<char>, c: char) -> Seq<Seq<char>>
    decreases s.len(),
{
    if s.len() == 0 {
        seq![Seq::<char>::empty()]
    } else {
        let init = split_char(s.drop_last(), c);
        if s.last() == c {
            init.push(Seq::<char>::empty())
        } else {
            init.update(init.len() - 1, init.last().push(s.last()))
        }
    }
}

pub proof fn lemma_split_char_len(s: Seq<char>, c: char)
    ensures
        split_char(s, c).len() >= 1,
    decreases s.len(),
{
    if s.len() > 0 {
        lemma_split_char_len(s.drop_last(), c);
    }
}

/// The pieces named by index pairs into `v`.
pub open spec fn pieces_of(v: Seq<char>, bs: Seq<(usize, usize)>) -> Seq<Seq<char>> {
    bs.map_values(|p: (usize, usize)| v.subrange(p.0 as int, p.1 as int))
}

/// Index pairs of the pieces of `v[a..b]` split at `c`.
pub fn split_bounds(v: &Vec<char>, a: usize, b: usize, c: char) -> (r: Vec<(usize, usize)>)
    requires
        a <= b <= v@.len(),
    ensures
        pieces_of(v@, r@) == split_char(v@.subrange(a as int, b as int), c),
        forall|k: int| 0 <= k < r@.len() ==> a <= (#[trigger] r@[k]).0 <= r@[k].1 <= b,
{
    let mut r: Vec<(usize, usize)> = Vec::new();
    let mut cur = a;
    let mut i = a;
    proof {
        assert(v@.subrange(a as int, a as int) =~= Seq::<char>::empty());
        assert(pieces_of(v@, r@).push(v@.subrange(cur as int, i as int)) =~= seq![Seq::<char>::empty()]);
    }
    while i < b
        invariant
            a <= cur <= i <= b <= v@.len(),
            pieces_of(v@, r@).push(v@.subrange(cur as int, i as int)) == split_char(
                v@.subrange(a as int, i as int),
                c,
            ),
            forall|k: int| 0 <= k < r@.len() ==> a <= (#[trigger] r@[k]).0 <= r@[k].1 <= b,
        decreases b - i,
    {
        let ghost s = v@.subrange(a as int, i + 1);
        proof {
            assert(s.drop_last() =~= v@.subrange(a as int, i as int));
            assert(s.last() == v@[i as int]);
            lemma_split_char_len(v@.subrange(a as int, i as int), c);
        }
        if v[i] == c {
            let ghost r0 = r@;
            let ghost cur0 = cur;
            r.push((cur, i));
            cur = i + 1;
            proof {
                assert(v@.subrange(cur as int, i + 1) =~= Seq::<char>::empty());
                assert(pieces_of(v@, r@) =~= pieces_of(v@, r0).push(v@.subrange(cur0 as int, i as int)));
            }
        } else {
            proof {
                assert(v@.subrange(cur as int, i + 1) =~= v@.subrange(cur as int, i as int).push(v@[i as int]));
            }
        }
        i = i + 1;
    }
    r.push((cur, b));
    proof {
        assert(pieces_of(v@, r@) =~= pieces_of(v@, r@.drop_last()).push(v@.subrange(cur as int, b as int)));
    }
    r
}

} // verus!

verus! {

// ---------------------------------------------------------------------------
// Comma-separated lists
// ---------------------------------------------------------------------------

/// The character sequences of a list of strings.
pub open spec fn strs(v: Seq<String>) -> Seq<Seq<char>> {
    v.map_values(|s: String| s@)
}

/// One list entry, trimmed; with `colon`, leading `:` are stripped after trimming.
pub open spec fn clean_item(p: Seq<char>, colon: bool) -> Seq<char> {
    if colon {
        trim_start_char(trim(p), ':')
    } else {
        trim(p)
    }
}

/// The cleaned entries of `ps` that are not empty, in order.
pub open spec fn clean_list(ps: Seq<Seq<char>>, colon: bool) -> Seq<Seq<char>>
    decreases ps.len(),
{
    if ps.len() == 0 {
        Seq::empty()
    } else {
        let x = clean_item(ps.last(), colon);
        let init = clean_list(ps.drop_last(), colon);
        if x.len() == 0 {
            init
        } else {
            init.push(x)
        }
    }
}

/// `s.split(',').map(trim[, strip ':']).filter(non-empty)`.
pub open spec fn list_items(s: Seq<char>, colon: bool) -> Seq<Seq<char>> {
    clean_list(split_char(s, ','), colon)
}

/// The entries of the comma-separated list in `v[a..b]`.
pub fn list_items_exec(v: &Vec<char>, a: usize, b: usize, colon: bool) -> (res: Vec<String>)
    requires
        a <= b <= v@.len(),
    ensures
        strs(res@) == list_items(v@.subrange(a as int, b as int), colon),
{
    let bs = split_bounds(v, a, b, ',');
    let ghost ps = pieces_of(v@, bs@);
    let mut res: Vec<String> = Vec::new();
    let mut k: usize = 0;
    while k < bs.len()
        invariant
            k <= bs@.len(),
            ps == pieces_of(v@, bs@),
            forall|m: int| 0 <= m < bs@.len() ==> a <= (#[trigger] bs@[m]).0 <= bs@[m].1 <= b,
            b <= v@.len(),
            strs(res@) == clean_list(ps.take(k as int), colon),
        decreases bs@.len() - k,
    {
        let (pa, pb) = bs[k];
        let (i, j) = trim_bounds(v, pa, pb);
        let ghost x = clean_item(ps[k as int], colon);
        let i2 = if colon {
            skip_char_forward(v, i, j, ':')
        } else {
            i
        };
        proof {
            assert(ps[k as int] == v@.subrange(pa as int, pb as int));
            assert(ps.take(k + 1).drop_last() =~= ps.take(k as int));
            assert(ps.take(k + 1).last() == ps[k as int]);
            assert(x == v@.subrange(i2 as int, j as int));
        }
        if i2 < j {
            let sv = string_of(v, i2, j);
            res.push(sv);
            proof {
                assert(strs(res@) =~= strs(res@.drop_last()).push(sv@));
            }
        }
        k = k + 1;
    }
    proof {
        assert(ps.take(bs@.len() as int) =~= ps);
    }
    res
}

} // verus!

verus! {

/// `v[i..j]` starts with `p`.
pub fn starts_with_exec(v: &Vec<char>, i: usize, j: usize, p: &str) -> (r: bool)
    requires
        i <= j <= v@.len(),
    ensures
        r == starts_with(v@.subrange(i as int, j as int), p@),
{
    let pv = str_chars(p);
    if pv.len() > j - i {
        return false;
    }
    let m = matches_at_exec(v, &pv, i);
    proof {
        let s = v@.subrange(i as int, j as int);
        if pv@.len() <= s.len() {
            assert(s.take(pv@.len() as int) =~= v@.subrange(i as int, i + pv@.len()));
        }
    }
    m
}

/// `v[i..j]` equals `p`.
pub fn equals_exec(v: &Vec<char>, i: usize, j: usize, p: &str) -> (r: bool)
    requires
        i <= j <= v@.len(),
    ensures
        r == (v@.subrange(i as int, j as int) == p@),
{
    let pv = str_chars(p);
    if pv.len() != j - i {
        proof {
            if v@.subrange(i as int, j as int) == p@ {
                assert(v@.subrange(i as int, j as int).len() == p@.len());
            }
        }
        return false;
    }
    matches_at_exec(v, &pv, i)
}

/// `p` occurs somewhere in `s`.
pub open spec fn occurs_in(p: Seq<char>, s: Seq<char>) -> bool {
    exists|i: int| #[trigger] matches_at(s, p, i)
}

/// `p` occurs in `a + p + b`, right after `a`.
pub proof fn lemma_occurs_between(a: Seq<char>, p: Seq<char>, b: Seq<char>)
    ensures
        occurs_in(p, a + p + b),
        matches_at(a + p + b, p, a.len() as int),
{
    assert((a + p + b).subrange(a.len() as int, (a.len() + p.len()) as int) =~= p);
    assert(matches_at(a + p + b, p, a.len() as int));
}

/// Facts about a position that `find` gave.
pub proof fn lemma_found(s: Seq<char>, p: Seq<char>, i: int)
    requires
        find(s, p) == Some(i),
    ensures
        0 <= i,
        i + p.len() <= s.len(),
        s.subrange(i, i + p.len()) == p,
        forall|j: int| 0 <= j < i ==> !matches_at(s, p, j),
{
    lemma_find_from_props(s, p, 0);
}

pub proof fn lemma_upper_len(s: Seq<char>)
    ensures
        upper(s).len() == s.len(),
{
}

} // verus!

verus! {

// ---------------------------------------------------------------------------
// Joining
// ---------------------------------------------------------------------------

/// `slice::join`: the items with `sep` between neighbours.
pub open spec fn join(ss: Seq<Seq<char>>, sep: Seq<char>) -> Seq<char>
    decreases ss.len(),
{
    if ss.len() == 0 {
        Seq::empty()
    } else if ss.len() == 1 {
        ss[0]
    } else {
        join(ss.drop_last(), sep) + sep + ss.last()
    }
}

/// Each item stands in the joined text: `join(ss, sep) == a + ss[k] + b`.
pub proof fn lemma_join_split(ss: Seq<Seq<char>>, sep: Seq<char>, k: int) -> (r: (Seq<char>, Seq<char>))
    requires
        0 <= k < ss.len(),
    ensures
        join(ss, sep) == r.0 + ss[k] + r.1,
    decreases ss.len(),
{
    if ss.len() == 1 {
        assert(join(ss, sep) =~= Seq::<char>::empty() + ss[k] + Seq::<char>::empty());
        (Seq::empty(), Seq::empty())
    } else if k == ss.len() - 1 {
        let a = join(ss.drop_last(), sep) + sep;
        assert(join(ss, sep) =~= a + ss[k] + Seq::<char>::empty());
        (a, Seq::empty())
    } else {
        let (a, b) = lemma_join_split(ss.drop_last(), sep, k);
        let b2 = b + sep + ss.last();
        assert(join(ss, sep) =~= a + ss[k] + b2);
        (a, b2)
    }
}

/// The items of `v` joined with `sep`.
pub fn join_exec(v: &Vec<String>, sep: &str) -> (res: String)
    ensures
        res@ == join(strs(v@), sep@),
{
    let mut res = String::new();
    let mut i: usize = 0;
    while i < v.len()
        invariant
            i <= v@.len(),
            res@ == join(strs(v@).take(i as int), sep@),
        decreases v@.len() - i,
    {
        let ghost t = strs(v@).take(i + 1);
        proof {
            assert(t.drop_last() =~= strs(v@).take(i as int));
            assert(t.last() == v@[i as int]@);
        }
        if i > 0 {
            res.append(sep);
        } else {
            proof {
                assert(t =~= seq![v@[0]@]);
            }
        }
        res.append(v[i].as_str());
        proof {
            if i == 0 {
                assert(res@ =~= v@[0]@);
            }
        }
        i = i + 1;
    }
    proof {
        assert(strs(v@).take(v@.len() as int) =~= strs(v@));
    }
    res
}

/// `s.replace(from, to)` where both are single characters.
pub open spec fn replace_char(s: Seq<char>, from: char, to: char) -> Seq<char> {
    s.map_values(|c: char| if c == from { to } else { c })
}

} // verus!

verus! {

// ---------------------------------------------------------------------------
// Words
// ---------------------------------------------------------------------------

/// `str::split_whitespace`: the maximal runs of non-white-space characters.
pub open spec fn words(s: Seq<char>) -> Seq<Seq<char>>
    decreases s.len(),
{
    if s.len() == 0 {
        Seq::empty()
    } else {
        let w = words(s.drop_last());
        let c = s.last();
        if is_ws(c) {
            w
        } else if s.len() >= 2 && !is_ws(s[s.len() - 2]) {
            w.update(w.len() - 1, w.last().push(c))
        } else {
            w.push(seq![c])
        }
    }
}

pub proof fn lemma_words_nonempty(s: Seq<char>)
    ensures
        s.len() > 0 && !is_ws(s.last()) ==> words(s).len() > 0,
    decreases s.len(),
{
    if s.len() > 0 {
        lemma_words_nonempty(s.drop_last());
    }
}

/// Index pairs of the words of `v`.
pub fn word_bounds(v: &Vec<char>) -> (r: Vec<(usize, usize)>)
    ensures
        pieces_of(v@, r@) == words(v@),
        forall|k: int| 0 <= k < r@.len() ==> (#[trigger] r@[k]).0 <= r@[k].1 <= v@.len(),
{
    let n = v.len();
    let mut r: Vec<(usize, usize)> = Vec::new();
    let mut in_word = false;
    let mut st: usize = 0;
    let mut i: usize = 0;
    proof {
        assert(v@.take(0) =~= Seq::<char>::empty());
    }
    while i < n
        invariant
            n == v@.len(),
            i <= n,
            st <= i,
            forall|k: int| 0 <= k < r@.len() ==> (#[trigger] r@[k]).0 <= r@[k].1 <= i,
            in_word ==> st < i && !is_ws(v@[i - 1]) && words(v@.take(i as int)) == pieces_of(v@, r@).push(v@.subrange(st as int, i as int)),
            !in_word ==> (i > 0 ==> is_ws(v@[i - 1])) && words(v@.take(i as int)) == pieces_of(v@, r@),
        decreases n - i,
    {
        let ghost s = v@.take(i + 1);
        proof {
            assert(s.drop_last() =~= v@.take(i as int));
            assert(s.last() == v@[i as int]);
            if i > 0 {
                assert(s[s.len() - 2] == v@[i - 1]);
            }
        }
        if is_ws_exec(v[i]) {
            if in_word {
                let ghost r0 = r@;
                r.push((st, i));
                in_word = false;
                proof {
                    assert(pieces_of(v@, r@) =~= pieces_of(v@, r0).push(v@.subrange(st as int, i as int)));
                }
            }
        } else {
            if in_word {
                proof {
                    assert(v@.subrange(st as int, i + 1) =~= v@.subrange(st as int, i as int).push(v@[i as int]));
                    assert(words(s) =~= pieces_of(v@, r@).push(v@.subrange(st as int, i + 1)));
                }
            } else {
                st = i;
                in_word = true;
                proof {
                    assert(v@.subrange(st as int, i + 1) =~= seq![v@[i as int]]);
                }
            }
        }
        i = i + 1;
    }
    if in_word {
        let ghost r0 = r@;
        r.push((st, n));
        proof {
            assert(pieces_of(v@, r@) =~= pieces_of(v@, r0).push(v@.subrange(st as int, n as int)));
        }
    }
    proof {
        assert(v@.take(n as int) =~= v@);
    }
    r
}

/// A match inside `u[a..b]` is a match in `u`.
pub proof fn lemma_find_sub(u: Seq<char>, a: int, b: int, p: Seq<char>)
    requires
        0 <= a <= b <= u.len(),
        find(u.subrange(a, b), p) is Some,
    ensures
        find(u, p) is Some,
        find(u, p)->0 <= a + find(u.subrange(a, b), p)->0,
{
    let t = u.subrange(a, b);
    let i = find(t, p)->0;
    lemma_found(t, p, i);
    assert(u.subrange(a + i, a + i + p.len()) =~= t.subrange(i, i + p.len()));
    assert(matches_at(u, p, a + i));
    lemma_find_from_props(u, p, 0);
    match find(u, p) {
        Some(k) => {
            if k > a + i {
                assert(!matches_at(u, p, a + i));
            }
        },
        None => {
            assert(!matches_at(u, p, a + i));
        },
    }
}

/// `a` equals `b` ignoring ASCII case.
pub open spec fn eq_ignore_case(a: Seq<char>, b: Seq<char>) -> bool {
    lower(a) == lower(b)
}

pub fn eq_ignore_case_exec(v: &Vec<char>, a: usize, b: usize, p: &str) -> (r: bool)
    requires
        a <= b <= v@.len(),
    ensures
        r == eq_ignore_case(v@.subrange(a as int, b as int), p@),
{
    let pv = str_chars(p);
    let ghost s = v@.subrange(a as int, b as int);
    if pv.len() != b - a {
        proof {
            if lower(s) == lower(pv@) {
                assert(lower(s).len() == lower(pv@).len());
            }
        }
        return false;
    }
    let mut k: usize = 0;
    while k < pv.len()
        invariant
            pv@ == p@,
            pv@.len() == b - a,
            a <= b <= v@.len(),
            s == v@.subrange(a as int, b as int),
            k <= pv@.len(),
            forall|m: int| 0 <= m < k ==> lower_char(s[m]) == lower_char(#[trigger] pv@[m]),
        decreases pv@.len() - k,
    {
        if lower_char_exec(v[a + k]) != lower_char_exec(pv[k]) {
            proof {
                assert(lower(s)[k as int] != lower(pv@)[k as int]);
            }
            return false;
        }
        k = k + 1;
    }
    proof {
        assert(lower(s) =~= lower(pv@));
    }
    true
}

} // verus!

verus! {

// ---------------------------------------------------------------------------
// Unicode case mapping
// ---------------------------------------------------------------------------

/// What `str::to_uppercase` gives for `s`: its Unicode upper-case mapping, in which one
/// character may become several.
pub uninterp spec fn unicode_upper(s: Seq<char>) -> Seq<char>;

/// What `str::to_lowercase` gives for `s`: its Unicode lower-case mapping.
pub uninterp spec fn unicode_lower(s: Seq<char>) -> Seq<char>;

/// What `char::to_uppercase` gives for `c`, collected into a string.
pub uninterp spec fn char_upper(c: char) -> Seq<char>;

/// `str::to_uppercase`. The mapping follows Unicode tables and is left to the name
/// `unicode_upper`.
#[verifier::external_body]
pub(crate) fn to_uppercase_string(s: &str) -> (r: String)
    ensures
        r@ == unicode_upper(s@),
{
    s.to_uppercase()
}

/// `str::to_lowercase`. The mapping follows Unicode tables (with the context rule for a
/// final sigma) and is left to the name `unicode_lower`.
#[verifier::external_body]
pub(crate) fn to_lowercase_string(s: &str) -> (r: String)
    ensures
        r@ == unicode_lower(s@),
{
    s.to_lowercase()
}

/// `char::to_uppercase`, written out as a string. The mapping follows Unicode tables and
/// is left to the name `char_upper`.
#[verifier::external_body]
pub(crate) fn char_to_uppercase(c: char) -> (r: String)
    ensures
        r@ == char_upper(c),
{
    c.to_uppercase().to_string()
}

} // verus!

verus! {

// ---------------------------------------------------------------------------
// Debug formatting of string literals
// ---------------------------------------------------------------------------

/// What `format!("{:?}", s)` gives for a string slice: the quoted, escaped literal.
pub uninterp spec fn debug_str(s: Seq<char>) -> Seq<char>;

/// `<str as Debug>::fmt`, through `format!("{:?}", ..)`: the text of `s` as a quoted,
/// escaped Rust string literal. The escaping rules (which characters are printed as
/// `\u{..}`) follow Unicode tables and are not stated; the result is named `debug_str`.
#[verifier::external_body]
pub(crate) fn debug_string(s: &str) -> (r: String)
    ensures
        r@ == debug_str(s@),
{
    format!("{:?}", s)
}

} // verus!

verus! {

// ---------------------------------------------------------------------------
// Lines
// ---------------------------------------------------------------------------

/// A line without the carriage return that ended it, if any.
pub open spec fn strip_cr(l: Seq<char>) -> Seq<char> {
    if l.len() > 0 && l.last() == '\r' {
        l.drop_last()
    } else {
        l
    }
}

/// The lines of `s` as `str::lines` gives them: the pieces between line feeds, a carriage
/// return before a line feed removed, and no empty last line after a closing line feed.
pub open spec fn std_lines(s: Seq<char>) -> Seq<Seq<char>> {
    let p = split_char(s, '\n');
    let n: int = if p.last().len() == 0 {
        p.len() - 1
    } else {
        p.len() as int
    };
    Seq::new(
        n as nat,
        |i: int|
            if i < p.len() - 1 {
                strip_cr(p[i])
            } else {
                p[i]
            },
    )
}

// ---------------------------------------------------------------------------
// UTF-8 lengths
// ---------------------------------------------------------------------------

/// The number of bytes of `c` in UTF-8.
pub open spec fn utf8_len(c: char) -> nat {
    if (c as u32) < 0x80 {
        1
    } else if (c as u32) < 0x800 {
        2
    } else if (c as u32) < 0x10000 {
        3
    } else {
        4
    }
}

/// The number of bytes of `s` in UTF-8.
pub open spec fn byte_len(s: Seq<char>) -> nat
    decreases s.len(),
{
    if s.len() == 0 {
        0
    } else {
        byte_len(s.drop_last()) + utf8_len(s.last())
    }
}

/// The number of bytes of `c` in UTF-8.
pub(crate) fn utf8_len_exec(c: char) -> (r: usize)
    ensures
        r == utf8_len(c),
{
    let x = c as u32;
    if x < 0x80 {
        1
    } else if x < 0x800 {
        2
    } else if x < 0x10000 {
        3
    } else {
        4
    }
}

/// The number of lines of `source`, as `str::lines().count()` gives it.
pub fn line_count(source: &str) -> (r: usize)
    ensures
        r == std_lines(source@).len(),
{
    let v = str_chars(source);
    let bs = line_bounds(&v);
    proof {
        assert(pieces_of(v@, bs@).len() == bs@.len());
    }
    bs.len()
}

/// Index pairs of the lines of `v`, as `str::lines` gives them.
pub fn line_bounds(v: &Vec<char>) -> (r: Vec<(usize, usize)>)
    ensures
        pieces_of(v@, r@) == std_lines(v@),
        forall|k: int| 0 <= k < r@.len() ==> (#[trigger] r@[k]).0 <= r@[k].1 <= v@.len(),
{
    let bs = split_bounds(v, 0, v.len(), '\n');
    let ghost p = split_char(v@, '\n');
    proof {
        assert(v@.subrange(0, v@.len() as int) =~= v@);
        lemma_split_char_len(v@, '\n');
    }
    let last = bs[bs.len() - 1];
    let n = if last.0 == last.1 {
        bs.len() - 1
    } else {
        bs.len()
    };
    proof {
        assert(p.last() == v@.subrange(last.0 as int, last.1 as int));
    }
    let mut r: Vec<(usize, usize)> = Vec::new();
    let mut k: usize = 0;
    while k < n
        invariant
            n <= bs@.len(),
            bs@.len() == p.len(),
            k <= n,
            p == pieces_of(v@, bs@),
            forall|m: int| 0 <= m < bs@.len() ==> (#[trigger] bs@[m]).0 <= bs@[m].1 <= v@.len(),
            r@.len() == k,
            forall|m: int| 0 <= m < k ==> (#[trigger] r@[m]).0 <= r@[m].1 <= v@.len(),
            forall|m: int|
                0 <= m < k ==> v@.subrange((#[trigger] r@[m]).0 as int, r@[m].1 as int) == (if m
                    < p.len() - 1 {
                    strip_cr(p[m])
                } else {
                    p[m]
                }),
        decreases n - k,
    {
        let (a, b) = bs[k];
        let ghost pk = p[k as int];
        proof {
            assert(pk == v@.subrange(a as int, b as int));
        }
        if k + 1 < bs.len() && b > a && v[b - 1] == '\r' {
            proof {
                assert(v@.subrange(a as int, b - 1) =~= pk.drop_last());
            }
            r.push((a, b - 1));
        } else {
            r.push((a, b));
        }
        k = k + 1;
    }
    proof {
        assert(pieces_of(v@, r@) =~= std_lines(v@));
    }
    r
}

} // verus!

verus! {

/// `v[a..b]` and `w[c..d]` hold the same characters.
pub fn ranges_equal(v: &Vec<char>, a: usize, b: usize, w: &Vec<char>, c: usize, d: usize) -> (r: bool)
    requires
        a <= b <= v@.len(),
        c <= d <= w@.len(),
    ensures
        r == (v@.subrange(a as int, b as int) == w@.subrange(c as int, d as int)),
{
    if b - a != d - c {
        proof {
            assert(v@.subrange(a as int, b as int).len() != w@.subrange(c as int, d as int).len());
        }
        return false;
    }
    let mut k: usize = 0;
    while k < b - a
        invariant
            a <= b <= v@.len(),
            c <= d <= w@.len(),
            b - a == d - c,
            k <= b - a,
            forall|m: int|
                0 <= m < k ==> #[trigger] v@.subrange(a as int, b as int)[m] == w@.subrange(
                    c as int,
                    d as int,
                )[m],
        decreases b - a - k,
    {
        if v[a + k] != w[c + k] {
            proof {
                assert(v@.subrange(a as int, b as int)[k as int] != w@.subrange(c as int, d as int)[k as int]);
            }
            return false;
        }
        k = k + 1;
    }
    proof {
        assert(v@.subrange(a as int, b as int) =~= w@.subrange(c as int, d as int));
    }
    true
}

} // verus!

verus! {

// ---------------------------------------------------------------------------
// Runs of characters of one class
// ---------------------------------------------------------------------------

/// The character classes that the COBOL recognizers use.
#[derive(Clone, Copy, PartialEq, Eq, Structural)]
pub enum CharClass {
    /// White space (`\s`).
    Space,
    /// An ASCII decimal digit (`\d`).
    Digit,
    /// A word character (`\w`).
    Word,
    /// A word character or a hyphen (`[\w-]`).
    Name,
    /// A character of a PIC string: a word character, `(`, `)` or `.`.
    Picture,
    /// Anything but a double quote, white space or `.` (`[^"\s.]`).
    Bare,
}

pub open spec fn in_class(c: char, k: CharClass) -> bool {
    match k {
        CharClass::Space => is_ws(c),
        CharClass::Digit => is_digit(c),
        CharClass::Word => is_word(c),
        CharClass::Name => is_name_char(c),
        CharClass::Picture => is_word(c) || c == '(' || c == ')' || c == '.',
        CharClass::Bare => !(c == '"' || is_ws(c) || c == '.'),
    }
}

pub fn in_class_exec(c: char, k: CharClass) -> (r: bool)
    ensures
        r == in_class(c, k),
{
    match k {
        CharClass::Space => is_ws_exec(c),
        CharClass::Digit => is_digit_exec(c),
        CharClass::Word => is_word_exec(c),
        CharClass::Name => is_name_char_exec(c),
        CharClass::Picture => is_word_exec(c) || c == '(' || c == ')' || c == '.',
        CharClass::Bare => !(c == '"' || is_ws_exec(c) || c == '.'),
    }
}

/// Length of the run of class-`k` characters of `s` that starts at `i`.
pub open spec fn run(s: Seq<char>, i: int, k: CharClass) -> nat
    decreases s.len() - i,
{
    if 0 <= i < s.len() && in_class(s[i], k) {
        1 + run(s, i + 1, k)
    } else {
        0
    }
}

pub proof fn lemma_run(s: Seq<char>, i: int, k: CharClass)
    requires
        0 <= i <= s.len(),
    ensures
        i + run(s, i, k) <= s.len(),
        forall|j: int| i <= j < i + run(s, i, k) ==> in_class(#[trigger] s[j], k),
        i + run(s, i, k) == s.len() || !in_class(s[i + run(s, i, k)], k),
    decreases s.len() - i,
{
    if i < s.len() && in_class(s[i], k) {
        lemma_run(s, i + 1, k);
    }
}

/// The end of the run of class-`k` characters of `v` that starts at `i`.
pub fn skip_class(v: &Vec<char>, i: usize, k: CharClass) -> (j: usize)
    requires
        i <= v@.len(),
    ensures
        j == i + run(v@, i as int, k),
        j <= v@.len(),
{
    let mut j = i;
    while j < v.len() && in_class_exec(v[j], k)
        invariant
            i <= j <= v@.len(),
            run(v@, i as int, k) == (j - i) + run(v@, j as int, k),
        decreases v@.len() - j,
    {
        j = j + 1;
    }
    j
}

} // verus!

verus! {

// ---------------------------------------------------------------------------
// Decimal digit strings
// ---------------------------------------------------------------------------

/// The value of a string of ASCII decimal digits.
pub open spec fn digits_value(d: Seq<char>) -> nat
    decreases d.len(),
{
    if d.len() == 0 {
        0
    } else {
        digits_value(d.drop_last()) * 10 + ((d.last() as int - 48) as nat)
    }
}

pub proof fn lemma_digits_value_grows(v: Seq<char>, a: int, j: int, b: int)
    requires
        0 <= a <= j <= b <= v.len(),
    ensures
        digits_value(v.subrange(a, j)) <= digits_value(v.subrange(a, b)),
    decreases b - j,
{
    if j < b {
        lemma_digits_value_grows(v, a, j, b - 1);
        assert(v.subrange(a, b).drop_last() =~= v.subrange(a, b - 1));
    }
}

/// The value of the digits `v[a..b]` when it is at most `limit`, else `None`: what
/// `str::parse` gives for an unsigned integer type whose largest value is `limit`.
pub fn digits_upto(v: &Vec<char>, a: usize, b: usize, limit: u64) -> (r: Option<u64>)
    requires
        a <= b <= v@.len(),
        forall|j: int| a <= j < b ==> is_digit(#[trigger] v@[j]),
    ensures
        match r {
            Some(x) => x == digits_value(v@.subrange(a as int, b as int)) && x <= limit,
            None => digits_value(v@.subrange(a as int, b as int)) > limit,
        },
{
    let mut acc: u64 = 0;
    let mut i = a;
    proof {
        assert(v@.subrange(a as int, a as int) =~= Seq::<char>::empty());
    }
    while i < b
        invariant
            a <= i <= b <= v@.len(),
            forall|j: int| a <= j < b ==> is_digit(#[trigger] v@[j]),
            acc == digits_value(v@.subrange(a as int, i as int)),
            acc <= limit,
        decreases b - i,
    {
        let c = v[i];
        let d = (c as u32 - 48) as u64;
        let next: u128 = (acc as u128) * 10 + (d as u128);
        proof {
            assert(v@.subrange(a as int, i + 1).drop_last() =~= v@.subrange(a as int, i as int));
            assert(v@.subrange(a as int, i + 1).last() == c);
        }
        if next > limit as u128 {
            proof {
                lemma_digits_value_grows(v@, a as int, i + 1, b as int);
            }
            return None;
        }
        acc = next as u64;
        i = i + 1;
    }
    Some(acc)
}

} // verus!

verus! {

/// `p` occurs in `v` at `x`.
pub fn at_exec(v: &Vec<char>, x: usize, p: &str) -> (r: bool)
    ensures
        r == matches_at(v@, p@, x as int),
{
    let pv = str_chars(p);
    matches_at_exec(v, &pv, x)
}

/// The end of the white-space run of `s` that starts at `x`.
pub open spec fn ws_end(s: Seq<char>, x: int) -> int {
    x + run(s, x, CharClass::Space)
}

} // verus!

verus! {

/// `c` occurs in `v[a..b]`.
pub fn has_char(v: &Vec<char>, a: usize, b: usize, c: char) -> (r: bool)
    requires
        a <= b <= v@.len(),
    ensures
        r == v@.subrange(a as int, b as int).contains(c),
{
    let mut i = a;
    while i < b
        invariant
            a <= i <= b <= v@.len(),
            forall|j: int| a <= j < i ==> v@[j] != c,
        decreases b - i,
    {
        if v[i] == c {
            proof {
                assert(v@.subrange(a as int, b as int)[i - a] == c);
            }
            return true;
        }
        i = i + 1;
    }
    proof {
        if v@.subrange(a as int, b as int).contains(c) {
            let j = choose|j: int| 0 <= j < b - a && v@.subrange(a as int, b as int)[j] == c;
            assert(v@[a + j] == c);
        }
    }
    false
}

} // verus!

verus! {

/// Trimming twice is trimming once.
pub proof fn lemma_trim_idempotent(s: Seq<char>)
    ensures
        trim(trim(s)) == trim(s),
{
    let l = lead_ws(s);
    lemma_lead_ws_bound(s);
    let w = s.skip(l as int);
    lemma_trail_ws_bound(w);
    let u = trim(s);
    assert(u == w.take(w.len() - trail_ws(w)));
    if u.len() == 0 {
        lemma_lead_ws(u, 0);
        lemma_trail_ws(u, 0);
        assert(trim(u) =~= u);
    } else {
        assert(u[0] == s[l as int]);
        lemma_lead_ws(u, 0);
        assert(u.skip(0) =~= u);
        assert(u[u.len() - 1] == w[w.len() - trail_ws(w) - 1]);
        lemma_trail_ws(u, 0);
        assert(u.take(u.len() as int) =~= u);
    }
}

} // verus!

verus! {

/// No piece of a split holds the separator.
pub proof fn lemma_split_char_no_sep(s: Seq<char>, c: char)
    ensures
        forall|i: int| 0 <= i < split_char(s, c).len() ==> !(#[trigger] split_char(s, c)[i]).contains(c),
    decreases s.len(),
{
    if s.len() > 0 {
        lemma_split_char_no_sep(s.drop_last(), c);
        lemma_split_char_len(s.drop_last(), c);
        let init = split_char(s.drop_last(), c);
        if s.last() != c {
            let p = split_char(s, c);
            assert forall|i: int| 0 <= i < p.len() implies !(#[trigger] p[i]).contains(c) by {
                if i == p.len() - 1 {
                    let x = init.last().push(s.last());
                    assert(p[i] == x);
                    if x.contains(c) {
                        let j = choose|j: int| 0 <= j < x.len() && x[j] == c;
                        if j < x.len() - 1 {
                            assert(init.last()[j] == c);
                            assert(init[init.len() - 1].contains(c));
                        }
                    }
                } else {
                    assert(p[i] == init[i]);
                }
            }
        } else {
            let p = split_char(s, c);
            assert forall|i: int| 0 <= i < p.len() implies !(#[trigger] p[i]).contains(c) by {
                if i < p.len() - 1 {
                    assert(p[i] == init[i]);
                }
            }
        }
    }
}

/// No line of a text holds a line feed.
pub proof fn lemma_lines_no_lf(s: Seq<char>)
    ensures
        forall|i: int| 0 <= i < std_lines(s).len() ==> !(#[trigger] std_lines(s)[i]).contains('\n'),
{
    let p = split_char(s, '\n');
    lemma_split_char_no_sep(s, '\n');
    lemma_split_char_len(s, '\n');
    assert forall|i: int| 0 <= i < std_lines(s).len() implies !(#[trigger] std_lines(s)[i]).contains('\n') by {
        let l = std_lines(s)[i];
        assert(!p[i].contains('\n'));
        if l.contains('\n') {
            let j = choose|j: int| 0 <= j < l.len() && l[j] == '\n';
            assert(p[i][j] == '\n');
        }
    }
}

} // verus!
