//! Comparison of the output of a COBOL program with the output of its Rust conversion.
use vstd::prelude::*;
use vstd::string::StringExecFns;

use crate::text::{
    debug_str, debug_string, decimal, line_bounds, pieces_of, push_decimal, ranges_equal,
    skip_ws_backward, std_lines, string_of, trail_ws, trim_end,
};

verus! {

/// Result of comparing COBOL and Rust program outputs.
#[derive(Debug)]
pub struct ComparisonResult {
    pub matches: bool,
    pub expected: String,
    pub actual: String,
    pub diff_lines: Vec<DiffLine>,
}

#[derive(Debug)]
pub struct DiffLine {
    pub line_number: usize,
    pub expected: String,
    pub actual: String,
}

/// One differing line: its 1-based number and the two normalized texts.
pub struct DiffModel {
    pub line_number: nat,
    pub expected: Seq<char>,
    pub actual: Seq<char>,
}

pub struct ComparisonModel {
    pub matches: bool,
    pub expected: Seq<char>,
    pub actual: Seq<char>,
    pub diffs: Seq<DiffModel>,
}

impl View for DiffLine {
    type V = DiffModel;

    open spec fn view(&self) -> DiffModel {
        DiffModel {
            line_number: self.line_number as nat,
            expected: self.expected@,
            actual: self.actual@,
        }
    }
}

pub open spec fn diffs_view(v: Seq<DiffLine>) -> Seq<DiffModel> {
    v.map_values(|d: DiffLine| d@)
}

impl View for ComparisonResult {
    type V = ComparisonModel;

    open spec fn view(&self) -> ComparisonModel {
        ComparisonModel {
            matches: self.matches,
            expected: self.expected@,
            actual: self.actual@,
            diffs: diffs_view(self.diff_lines@),
        }
    }
}

// ---------------------------------------------------------------------------
// The comparison
// ---------------------------------------------------------------------------

/// The lines of `s` with trailing white space removed.
pub open spec fn norm_lines(s: Seq<char>) -> Seq<Seq<char>> {
    std_lines(s).map_values(|l: Seq<char>| trim_end(l))
}

/// Line `i` of `ls`, or the empty line past its end.
pub open spec fn line_or_empty(ls: Seq<Seq<char>>, i: int) -> Seq<char> {
    if 0 <= i < ls.len() {
        ls[i]
    } else {
        Seq::empty()
    }
}

/// The differing lines among the first `k` positions of `e` and `a`, in order.
pub open spec fn diffs_upto(e: Seq<Seq<char>>, a: Seq<Seq<char>>, k: nat) -> Seq<DiffModel>
    decreases k,
{
    if k == 0 {
        Seq::empty()
    } else {
        let prev = diffs_upto(e, a, (k - 1) as nat);
        let x = line_or_empty(e, k - 1);
        let y = line_or_empty(a, k - 1);
        if x != y {
            prev.push(DiffModel { line_number: k, expected: x, actual: y })
        } else {
            prev
        }
    }
}

pub open spec fn max_len(e: Seq<Seq<char>>, a: Seq<Seq<char>>) -> nat {
    if e.len() >= a.len() {
        e.len()
    } else {
        a.len()
    }
}

/// The differing lines of two outputs, compared line by line after trailing white space is
/// removed; a missing line counts as an empty one.
pub open spec fn line_diffs(expected: Seq<char>, actual: Seq<char>) -> Seq<DiffModel> {
    diffs_upto(norm_lines(expected), norm_lines(actual), max_len(norm_lines(expected), norm_lines(actual)))
}

pub open spec fn comparison(expected: Seq<char>, actual: Seq<char>) -> ComparisonModel {
    ComparisonModel {
        matches: line_diffs(expected, actual).len() == 0,
        expected,
        actual,
        diffs: line_diffs(expected, actual),
    }
}

proof fn lemma_trim_end_piece(v: Seq<char>, a: int, b: int, j: int)
    requires
        0 <= a <= j <= b <= v.len(),
        b - j == trail_ws(v.subrange(a, b)),
    ensures
        trim_end(v.subrange(a, b)) == v.subrange(a, j),
{
    assert(v.subrange(a, b).take(j - a) =~= v.subrange(a, j));
}

/// Bounds of line `i` of `v` with trailing white space removed, or an empty range.
fn norm_line_bounds(v: &Vec<char>, ls: &Vec<(usize, usize)>, i: usize) -> (r: (usize, usize))
    requires
        pieces_of(v@, ls@) == std_lines(v@),
        forall|k: int| 0 <= k < ls@.len() ==> (#[trigger] ls@[k]).0 <= ls@[k].1 <= v@.len(),
    ensures
        r.0 <= r.1 <= v@.len(),
        v@.subrange(r.0 as int, r.1 as int) == line_or_empty(norm_lines(v@), i as int),
{
    if i < ls.len() {
        let (a, b) = ls[i];
        let j = skip_ws_backward(v, a, b);
        proof {
            lemma_trim_end_piece(v@, a as int, b as int, j as int);
            assert(std_lines(v@)[i as int] == v@.subrange(a as int, b as int));
        }
        (a, j)
    } else {
        proof {
            assert(v@.subrange(0, 0) =~= Seq::<char>::empty());
        }
        (0, 0)
    }
}

/// Compare expected output (from COBOL) with actual output (from Rust).
/// Normalizes trailing whitespace and line endings.
pub fn compare_outputs(expected: &str, actual: &str) -> (res: ComparisonResult)
    ensures
        res@ == comparison(expected@, actual@),
{
    let ev = crate::text::str_chars(expected);
    let av = crate::text::str_chars(actual);
    let el = line_bounds(&ev);
    let al = line_bounds(&av);
    let ghost e = norm_lines(expected@);
    let ghost a = norm_lines(actual@);
    let max_lines = if el.len() >= al.len() {
        el.len()
    } else {
        al.len()
    };
    let mut diff_lines: Vec<DiffLine> = Vec::new();
    let mut i: usize = 0;
    while i < max_lines
        invariant
            ev@ == expected@,
            av@ == actual@,
            pieces_of(ev@, el@) == std_lines(ev@),
            pieces_of(av@, al@) == std_lines(av@),
            forall|k: int| 0 <= k < el@.len() ==> (#[trigger] el@[k]).0 <= el@[k].1 <= ev@.len(),
            forall|k: int| 0 <= k < al@.len() ==> (#[trigger] al@[k]).0 <= al@[k].1 <= av@.len(),
            e == norm_lines(expected@),
            a == norm_lines(actual@),
            max_lines == max_len(e, a),
            i <= max_lines,
            diffs_view(diff_lines@) == diffs_upto(e, a, i as nat),
        decreases max_lines - i,
    {
        let (ea, eb) = norm_line_bounds(&ev, &el, i);
        let (aa, ab) = norm_line_bounds(&av, &al, i);
        if !ranges_equal(&ev, ea, eb, &av, aa, ab) {
            let d = DiffLine {
                line_number: i + 1,
                expected: string_of(&ev, ea, eb),
                actual: string_of(&av, aa, ab),
            };
            let ghost d0 = diffs_view(diff_lines@);
            diff_lines.push(d);
            proof {
                assert(diffs_view(diff_lines@) =~= d0.push(d@));
            }
        }
        i = i + 1;
    }
    let matches = diff_lines.len() == 0;
    ComparisonResult {
        matches,
        expected: String::from_str(expected),
        actual: String::from_str(actual),
        diff_lines,
    }
}

// ---------------------------------------------------------------------------
// Laws
// ---------------------------------------------------------------------------

proof fn lemma_diffs_empty_iff(e: Seq<Seq<char>>, a: Seq<Seq<char>>, k: nat)
    ensures
        diffs_upto(e, a, k).len() == 0 <==> forall|i: int|
            0 <= i < k ==> #[trigger] line_or_empty(e, i) == line_or_empty(a, i),
    decreases k,
{
    if k > 0 {
        lemma_diffs_empty_iff(e, a, (k - 1) as nat);
        let p = diffs_upto(e, a, (k - 1) as nat);
        if diffs_upto(e, a, k).len() == 0 {
            assert(p.len() == 0);
            assert(line_or_empty(e, k - 1) == line_or_empty(a, k - 1));
        }
    }
}

/// Two outputs match exactly when, at every line position up to the longer one, their
/// lines agree once trailing white space is removed (a missing line reads as empty).
pub proof fn lemma_matches_iff_lines_agree(expected: Seq<char>, actual: Seq<char>)
    ensures
        comparison(expected, actual).matches <==> forall|i: int|
            0 <= i < max_len(norm_lines(expected), norm_lines(actual)) ==> #[trigger] line_or_empty(
                norm_lines(expected),
                i,
            ) == line_or_empty(norm_lines(actual), i),
{
    lemma_diffs_empty_iff(
        norm_lines(expected),
        norm_lines(actual),
        max_len(norm_lines(expected), norm_lines(actual)),
    );
}

/// Every output matches itself.
pub proof fn lemma_compare_reflexive(s: Seq<char>)
    ensures
        comparison(s, s).matches,
        comparison(s, s).diffs.len() == 0,
{
    lemma_matches_iff_lines_agree(s, s);
}

proof fn lemma_diffs_swap(e: Seq<Seq<char>>, a: Seq<Seq<char>>, k: nat)
    ensures
        diffs_upto(a, e, k).len() == diffs_upto(e, a, k).len(),
        forall|i: int|
            0 <= i < diffs_upto(e, a, k).len() ==> (#[trigger] diffs_upto(a, e, k)[i]).line_number
                == diffs_upto(e, a, k)[i].line_number && diffs_upto(a, e, k)[i].expected
                == diffs_upto(e, a, k)[i].actual && diffs_upto(a, e, k)[i].actual == diffs_upto(
                e,
                a,
                k,
            )[i].expected,
    decreases k,
{
    if k > 0 {
        lemma_diffs_swap(e, a, (k - 1) as nat);
    }
}

/// Comparing in the other order finds the same differing lines, with the two texts of each
/// exchanged.
pub proof fn lemma_compare_symmetric(x: Seq<char>, y: Seq<char>)
    ensures
        comparison(y, x).matches == comparison(x, y).matches,
        comparison(y, x).diffs.len() == comparison(x, y).diffs.len(),
        forall|i: int|
            0 <= i < comparison(x, y).diffs.len() ==> (#[trigger] comparison(y, x).diffs[i]).line_number
                == comparison(x, y).diffs[i].line_number && comparison(y, x).diffs[i].expected
                == comparison(x, y).diffs[i].actual && comparison(y, x).diffs[i].actual
                == comparison(x, y).diffs[i].expected,
{
    let e = norm_lines(x);
    let a = norm_lines(y);
    assert(max_len(a, e) == max_len(e, a));
    lemma_diffs_swap(e, a, max_len(e, a));
}

proof fn lemma_diffs_ordered(e: Seq<Seq<char>>, a: Seq<Seq<char>>, k: nat)
    ensures
        forall|i: int|
            0 <= i < diffs_upto(e, a, k).len() ==> 1 <= (#[trigger] diffs_upto(e, a, k)[i]).line_number
                <= k && diffs_upto(e, a, k)[i].expected == line_or_empty(
                e,
                diffs_upto(e, a, k)[i].line_number - 1,
            ) && diffs_upto(e, a, k)[i].actual == line_or_empty(
                a,
                diffs_upto(e, a, k)[i].line_number - 1,
            ) && diffs_upto(e, a, k)[i].expected != diffs_upto(e, a, k)[i].actual,
        forall|i: int, j: int|
            0 <= i < j < diffs_upto(e, a, k).len() ==> (#[trigger] diffs_upto(e, a, k)[i]).line_number
                < (#[trigger] diffs_upto(e, a, k)[j]).line_number,
    decreases k,
{
    if k > 0 {
        lemma_diffs_ordered(e, a, (k - 1) as nat);
        let p = diffs_upto(e, a, (k - 1) as nat);
        let s = diffs_upto(e, a, k);
        if line_or_empty(e, k - 1) != line_or_empty(a, k - 1) {
            assert forall|i: int| 0 <= i < p.len() implies #[trigger] s[i] == p[i] by {}
            assert(s.last().line_number == k);
            assert forall|i: int, j: int|
                0 <= i < j < s.len() implies (#[trigger] s[i]).line_number
                < (#[trigger] s[j]).line_number by {
                assert(s[i] == p[i]);
                if j < p.len() {
                    assert(s[j] == p[j]);
                }
            }
        }
    }
}

/// The reported lines come in increasing order of line number, each within the longer
/// output, and each holds the two differing normalized lines at that number.
pub proof fn lemma_diff_lines_ordered(x: Seq<char>, y: Seq<char>)
    ensures
        forall|i: int|
            0 <= i < comparison(x, y).diffs.len() ==> 1 <= (#[trigger] comparison(x, y).diffs[i]).line_number
                <= max_len(norm_lines(x), norm_lines(y)) && comparison(x, y).diffs[i].expected
                == line_or_empty(norm_lines(x), comparison(x, y).diffs[i].line_number - 1)
                && comparison(x, y).diffs[i].actual == line_or_empty(
                norm_lines(y),
                comparison(x, y).diffs[i].line_number - 1,
            ) && comparison(x, y).diffs[i].expected != comparison(x, y).diffs[i].actual,
        forall|i: int, j: int|
            0 <= i < j < comparison(x, y).diffs.len() ==> (#[trigger] comparison(x, y).diffs[i]).line_number
                < (#[trigger] comparison(x, y).diffs[j]).line_number,
{
    lemma_diffs_ordered(norm_lines(x), norm_lines(y), max_len(norm_lines(x), norm_lines(y)));
}

// ---------------------------------------------------------------------------
// Formatting
// ---------------------------------------------------------------------------

pub open spec fn diff_entry(d: DiffModel) -> Seq<char> {
    "Line "@ + decimal(d.line_number) + ":\n"@ + "  Expected: "@ + debug_str(d.expected) + "\n"@
        + "  Actual:   "@ + debug_str(d.actual) + "\n"@
}

pub open spec fn diff_entries(ds: Seq<DiffModel>) -> Seq<char>
    decreases ds.len(),
{
    if ds.len() == 0 {
        Seq::empty()
    } else {
        diff_entries(ds.drop_last()) + diff_entry(ds.last())
    }
}

/// The human-readable report of a comparison.
pub open spec fn diff_report(r: ComparisonModel) -> Seq<char> {
    if r.matches {
        "Output matches!"@
    } else {
        "Output mismatch: "@ + decimal(r.diffs.len()) + " line(s) differ\n\n"@ + diff_entries(
            r.diffs,
        )
    }
}

/// Append the report entry of one differing line.
fn push_diff_entry(output: &mut String, diff: &DiffLine)
    ensures
        final(output)@ == old(output)@ + diff_entry(diff@),
{
    let ghost o0 = output@;
    output.append("Line ");
    push_decimal(output, diff.line_number);
    output.append(":\n");
    output.append("  Expected: ");
    let e = debug_string(diff.expected.as_str());
    output.append(e.as_str());
    output.append("\n");
    output.append("  Actual:   ");
    let a = debug_string(diff.actual.as_str());
    output.append(a.as_str());
    output.append("\n");
    proof {
        assert(output@ =~= o0 + diff_entry(diff@));
    }
}

/// Format a comparison result as a human-readable diff.
pub fn format_diff(result: &ComparisonResult) -> (r: String)
    ensures
        r@ == diff_report(result@),
{
    if result.matches {
        return String::from_str("Output matches!");
    }
    let mut output = String::new();
    output.append("Output mismatch: ");
    push_decimal(&mut output, result.diff_lines.len());
    output.append(" line(s) differ\n\n");
    let ghost head = output@;
    let ghost ds = diffs_view(result.diff_lines@);
    let mut i: usize = 0;
    while i < result.diff_lines.len()
        invariant
            i <= result.diff_lines@.len(),
            ds == diffs_view(result.diff_lines@),
            output@ == head + diff_entries(ds.take(i as int)),
        decreases result.diff_lines@.len() - i,
    {
        let ghost o0 = output@;
        push_diff_entry(&mut output, &result.diff_lines[i]);
        proof {
            assert(ds[i as int] == result.diff_lines@[i as int]@);
            assert(ds.take(i + 1).drop_last() =~= ds.take(i as int));
        }
        i = i + 1;
    }
    proof {
        assert(ds.take(ds.len() as int) =~= ds);
    }
    output
}

} // verus!
