//! The analysis report of a COBOL project: which files are read, and how complex the
//! project is judged.
use vstd::prelude::*;
use vstd::string::StringExecFns;

use crate::text::{str_chars, strs, to_lowercase_string, unicode_lower};
use crate::types::{AnalysisReport, ComplexityLevel, CopybookInfo, ProgramSummary};

verus! {

/// The complexity of a project of `total_lines` lines: complex above 10000 lines,
/// moderate above 1000, simple otherwise.
pub open spec fn complexity_of(total_lines: nat) -> ComplexityLevel {
    if total_lines > 10000 {
        ComplexityLevel::Complex
    } else if total_lines > 1000 {
        ComplexityLevel::Moderate
    } else {
        ComplexityLevel::Simple
    }
}

pub fn complexity_for(total_lines: usize) -> (r: ComplexityLevel)
    ensures
        r == complexity_of(total_lines as nat),
{
    if total_lines > 10000 {
        ComplexityLevel::Complex
    } else if total_lines > 1000 {
        ComplexityLevel::Moderate
    } else {
        ComplexityLevel::Simple
    }
}

pub open spec fn rank(c: ComplexityLevel) -> int {
    match c {
        ComplexityLevel::Simple => 0,
        ComplexityLevel::Moderate => 1,
        ComplexityLevel::Complex => 2,
    }
}

/// A project with more lines is never judged less complex.
pub proof fn lemma_complexity_monotone(a: nat, b: nat)
    requires
        a <= b,
    ensures
        rank(complexity_of(a)) <= rank(complexity_of(b)),
{
}

/// The extension (any letter case) of a COBOL source file: `cob`, `cbl` or `cobol`.
pub open spec fn is_cobol_ext(ext: Seq<char>) -> bool {
    unicode_lower(ext) == "cob"@ || unicode_lower(ext) == "cbl"@ || unicode_lower(ext) == "cobol"@
}

/// The extension (any letter case) of a copybook file: `cpy` or `copy`.
pub open spec fn is_copybook_ext(ext: Seq<char>) -> bool {
    unicode_lower(ext) == "cpy"@ || unicode_lower(ext) == "copy"@
}

fn lower_is(v: &Vec<char>, p: &str) -> (r: bool)
    ensures
        r == (v@ == p@),
{
    proof {
        assert(v@.subrange(0, v@.len() as int) =~= v@);
    }
    crate::text::equals_exec(v, 0, v.len(), p)
}

/// Whether a file with extension `ext` is a COBOL source.
pub fn is_cobol_file_extension(ext: &str) -> (r: bool)
    ensures
        r == is_cobol_ext(ext@),
{
    let l = str_chars(to_lowercase_string(ext).as_str());
    lower_is(&l, "cob") || lower_is(&l, "cbl") || lower_is(&l, "cobol")
}

/// Whether a file with extension `ext` is a copybook.
pub fn is_copybook_file_extension(ext: &str) -> (r: bool)
    ensures
        r == is_copybook_ext(ext@),
{
    let l = str_chars(to_lowercase_string(ext).as_str());
    lower_is(&l, "cpy") || lower_is(&l, "copy")
}

/// One copybook entry for each reference, each referenced by `file`.
pub fn copybook_infos(refs: Vec<String>, file: &str) -> (r: Vec<CopybookInfo>)
    ensures
        r@.len() == refs@.len(),
        forall|i: int|
            0 <= i < r@.len() ==> (#[trigger] r@[i]).name@ == refs@[i]@ && r@[i].file_path@.len() == 0
                && strs(r@[i].referenced_by@) == seq![file@],
{
    let mut r: Vec<CopybookInfo> = Vec::new();
    let mut i: usize = 0;
    while i < refs.len()
        invariant
            i <= refs@.len(),
            r@.len() == i,
            forall|k: int|
                0 <= k < i ==> (#[trigger] r@[k]).name@ == refs@[k]@ && r@[k].file_path@.len() == 0
                    && strs(r@[k].referenced_by@) == seq![file@],
        decreases refs@.len() - i,
    {
        let mut by: Vec<String> = Vec::new();
        by.push(String::from_str(file));
        proof {
            assert(strs(by@) =~= seq![file@]);
        }
        r.push(CopybookInfo { name: refs[i].clone(), file_path: String::new(), referenced_by: by });
        i = i + 1;
    }
    r
}

/// The report of a project: its program summaries, its copybook references, its line
/// count and the complexity that count gives.
pub fn analysis_report(programs: Vec<ProgramSummary>, copybooks: Vec<CopybookInfo>, total_lines: usize) -> (r: AnalysisReport)
    ensures
        r.programs@ == programs@,
        r.copybooks@ == copybooks@,
        r.total_lines == total_lines,
        r.complexity == complexity_of(total_lines as nat),
{
    AnalysisReport { programs, copybooks, total_lines, complexity: complexity_for(total_lines) }
}

} // verus!
