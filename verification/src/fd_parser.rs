//! FD (File Description) entries with fixed-length records, and the Rust I/O
//! snippets for them.
//!
//! ```cobol
//! FD  TRANS-FILE
//!     RECORD CONTAINS 80 CHARACTERS
//!     BLOCK CONTAINS 10 RECORDS.
//! ```
use vstd::prelude::*;
use vstd::string::StringExecFns;

use crate::text::{decimal, lemma_occurs_between, occurs_in, push_decimal};

verus! {

/// Structured representation of a COBOL FD entry.
#[derive(Debug, Clone, PartialEq, Eq)]
pub struct FdDefinition {
    pub name: String,
    /// Fixed record length in bytes, from `RECORD CONTAINS N CHARACTERS`;
    /// `None` if not specified.
    pub record_len: Option<usize>,
    /// Block factor from `BLOCK CONTAINS N RECORDS`.
    pub block_contains: Option<usize>,
    /// File organization (default: Sequential).
    pub organization: FileOrganization,
}

/// COBOL file organization modes.
#[derive(Debug, Clone, Copy, PartialEq, Eq, Structural)]
pub enum FileOrganization {
    Sequential,
    Indexed,
    Relative,
}

pub open spec fn read_snippet(n: nat) -> Seq<char> {
    "let mut buf = vec![0u8; "@ + decimal(n)
        + "];\nmatch reader.read_exact(&mut buf) {\n    Ok(()) => { /* process buf */ }\n    Err(e) if e.kind() == std::io::ErrorKind::UnexpectedEof => break,\n    Err(e) => return Err(e.into()),\n}"@
}

pub open spec fn write_snippet(n: nat) -> Seq<char> {
    "let mut record = vec![b' '; "@ + decimal(n)
        + "];\n// Fill record bytes, then:\nwriter.write_all(&record)?;"@
}

/// The read snippet reads one record of exactly `n` bytes into `buf` with `read_exact`:
/// a record that was read is processed, the end of the file leaves the record loop
/// (`break`), and any other error is returned to the caller.
pub proof fn lemma_read_snippet_reads_records(n: nat)
    ensures
        occurs_in("let mut buf = vec![0u8; "@ + decimal(n) + "];"@, read_snippet(n)),
        occurs_in("reader.read_exact(&mut buf)"@, read_snippet(n)),
        occurs_in("Ok(()) => { /* process buf */ }"@, read_snippet(n)),
        occurs_in("Err(e) if e.kind() == std::io::ErrorKind::UnexpectedEof => break,"@, read_snippet(n)),
        occurs_in("Err(e) => return Err(e.into()),"@, read_snippet(n)),
{
    let d = decimal(n);
    let s = read_snippet(n);
    reveal_strlit("let mut buf = vec![0u8; ");
    reveal_strlit("];");
    reveal_strlit("];\nmatch reader.read_exact(&mut buf) {\n    Ok(()) => { /* process buf */ }\n    Err(e) if e.kind() == std::io::ErrorKind::UnexpectedEof => break,\n    Err(e) => return Err(e.into()),\n}");
    reveal_strlit("reader.read_exact(&mut buf)");
    reveal_strlit("Ok(()) => { /* process buf */ }");
    reveal_strlit("Err(e) if e.kind() == std::io::ErrorKind::UnexpectedEof => break,");
    reveal_strlit("Err(e) => return Err(e.into()),");
    let head = "let mut buf = vec![0u8; "@;
    let tail = "];\nmatch reader.read_exact(&mut buf) {\n    Ok(()) => { /* process buf */ }\n    Err(e) if e.kind() == std::io::ErrorKind::UnexpectedEof => break,\n    Err(e) => return Err(e.into()),\n}"@;
    let p1 = "let mut buf = vec![0u8; "@ + d + "];"@;
    assert(s =~= p1 + tail.skip(2));
    lemma_occurs_between(Seq::empty(), p1, tail.skip(2));
    assert(Seq::<char>::empty() + p1 + tail.skip(2) =~= s);
    let p2 = "reader.read_exact(&mut buf)"@;
    assert(s =~= (head + d + tail.take(9)) + p2 + tail.skip(9 + p2.len() as int));
    lemma_occurs_between(head + d + tail.take(9), p2, tail.skip(9 + p2.len() as int));
    let p3 = "Ok(()) => { /* process buf */ }"@;
    assert(s =~= (head + d + tail.take(43)) + p3 + tail.skip(43 + p3.len() as int));
    lemma_occurs_between(head + d + tail.take(43), p3, tail.skip(43 + p3.len() as int));
    let p4 = "Err(e) if e.kind() == std::io::ErrorKind::UnexpectedEof => break,"@;
    assert(s =~= (head + d + tail.take(79)) + p4 + tail.skip(79 + p4.len() as int));
    lemma_occurs_between(head + d + tail.take(79), p4, tail.skip(79 + p4.len() as int));
    let p5 = "Err(e) => return Err(e.into()),"@;
    assert(s =~= (head + d + tail.take(149)) + p5 + tail.skip(149 + p5.len() as int));
    lemma_occurs_between(head + d + tail.take(149), p5, tail.skip(149 + p5.len() as int));
}

/// The write snippet fills a record of exactly `n` bytes with spaces (COBOL's padding)
/// and writes all of it with `write_all`, returning any error to the caller.
pub proof fn lemma_write_snippet_writes_records(n: nat)
    ensures
        occurs_in("let mut record = vec![b' '; "@ + decimal(n) + "];"@, write_snippet(n)),
        occurs_in("writer.write_all(&record)?;"@, write_snippet(n)),
{
    let d = decimal(n);
    let s = write_snippet(n);
    reveal_strlit("let mut record = vec![b' '; ");
    reveal_strlit("];");
    reveal_strlit("];\n// Fill record bytes, then:\nwriter.write_all(&record)?;");
    reveal_strlit("writer.write_all(&record)?;");
    let head = "let mut record = vec![b' '; "@;
    let tail = "];\n// Fill record bytes, then:\nwriter.write_all(&record)?;"@;
    let p1 = head + d + "];"@;
    assert(s =~= Seq::<char>::empty() + p1 + tail.skip(2));
    lemma_occurs_between(Seq::empty(), p1, tail.skip(2));
    let p2 = "writer.write_all(&record)?;"@;
    let k = tail.len() - p2.len();
    assert(s =~= (head + d + tail.take(k)) + p2 + Seq::<char>::empty());
    lemma_occurs_between(head + d + tail.take(k), p2, Seq::empty());
}

impl FdDefinition {
    /// The Rust `read_exact` snippet for reading one fixed-length record, or `None` when
    /// the record length is not known.
    pub fn rust_read_exact_snippet(&self) -> (r: Option<String>)
        ensures
            match self.record_len {
                Some(n) => r matches Some(s) && s@ == read_snippet(n as nat),
                None => r is None,
            },
    {
        let n = match self.record_len {
            Some(n) => n,
            None => return None,
        };
        let mut s = String::new();
        s.append("let mut buf = vec![0u8; ");
        push_decimal(&mut s, n);
        s.append("];\nmatch reader.read_exact(&mut buf) {\n    Ok(()) => { /* process buf */ }\n    Err(e) if e.kind() == std::io::ErrorKind::UnexpectedEof => break,\n    Err(e) => return Err(e.into()),\n}");
        Some(s)
    }

    /// The Rust `write_all` snippet for writing one fixed-length record, or `None` when
    /// the record length is not known.
    pub fn rust_write_all_snippet(&self) -> (r: Option<String>)
        ensures
            match self.record_len {
                Some(n) => r matches Some(s) && s@ == write_snippet(n as nat),
                None => r is None,
            },
    {
        let n = match self.record_len {
            Some(n) => n,
            None => return None,
        };
        let mut s = String::new();
        s.append("let mut record = vec![b' '; ");
        push_decimal(&mut s, n);
        s.append("];\n// Fill record bytes, then:\nwriter.write_all(&record)?;");
        Some(s)
    }
}

} // verus!
