use vstd::prelude::*;

verus! {

/// A complete COBOL program structure.
#[derive(Debug)]
pub struct CobolProgram {
    pub program_id: String,
    pub identification: IdentificationDivision,
    pub environment: Option<EnvironmentDivision>,
    pub data: Option<DataDivision>,
    pub procedure: Option<ProcedureDivision>,
}

#[derive(Debug, Clone)]
pub struct IdentificationDivision {
    pub program_id: String,
    pub author: Option<String>,
    pub date_written: Option<String>,
}

#[derive(Debug, Clone)]
pub struct EnvironmentDivision {
    pub file_controls: Vec<FileControl>,
}

#[derive(Debug, Clone)]
pub struct FileControl {
    pub name: String,
    pub assign_to: String,
    pub organization: FileOrganization,
}

#[derive(Debug, Clone, Copy, PartialEq, Eq, Structural)]
pub enum FileOrganization {
    Sequential,
    Indexed,
    Relative,
}

#[derive(Debug)]
pub struct DataDivision {
    pub file_section: Vec<FileDescription>,
    pub working_storage: Vec<DataItem>,
}

#[derive(Debug)]
pub struct FileDescription {
    pub fd_name: String,
    /// Fixed record length from `RECORD CONTAINS N CHARACTERS`.
    pub record_len: Option<usize>,
    /// Block factor from `BLOCK CONTAINS N RECORDS`.
    pub block_contains: Option<usize>,
    pub record: Vec<DataItem>,
}

#[derive(Debug)]
pub struct DataItem {
    pub level: u8,
    pub name: String,
    pub picture: Option<PicClause>,
    pub value: Option<String>,
    pub redefines: Option<String>,
    pub children: Vec<DataItem>,
}

/// A COBOL PIC clause in structured form.
#[derive(Debug, Clone)]
pub struct PicClause {
    pub raw: String,
    pub pic_type: PicType,
    pub integer_digits: u32,
    pub decimal_digits: u32,
    pub signed: bool,
    pub total_size: u32,
}

#[derive(Debug, Clone, Copy, PartialEq, Eq, Structural)]
pub enum PicType {
    Numeric,
    Alphanumeric,
    Alphabetic,
}

#[derive(Debug)]
pub struct ProcedureDivision {
    pub sections: Vec<Section>,
    pub paragraphs: Vec<Paragraph>,
}

#[derive(Debug)]
pub struct Section {
    pub name: String,
    pub paragraphs: Vec<Paragraph>,
}

#[derive(Debug)]
pub struct Paragraph {
    pub name: String,
    pub statements: Vec<Statement>,
}

#[derive(Debug)]
pub enum Statement {
    Display(Vec<DisplayItem>),
    Move(MoveStatement),
    Compute(ComputeStatement),
    Add(ArithmeticStatement),
    Subtract(ArithmeticStatement),
    Multiply(ArithmeticStatement),
    Divide(DivideStatement),
    Perform(PerformStatement),
    If(IfStatement),
    Read(ReadStatement),
    Write(WriteStatement),
    Open(OpenStatement),
    Close(CloseStatement),
    Accept(String),
    StopRun,
    GoBack,
    Unknown(String),
}

#[derive(Debug, Clone)]
pub enum DisplayItem {
    Variable(String),
    Literal(String),
}

#[derive(Debug, Clone)]
pub struct MoveStatement {
    pub from: String,
    pub to: Vec<String>,
}

#[derive(Debug, Clone)]
pub struct ComputeStatement {
    pub target: String,
    pub expression: String,
    pub rounded: bool,
}

#[derive(Debug, Clone)]
pub struct ArithmeticStatement {
    pub operand: String,
    pub to: String,
    pub giving: Option<String>,
}

#[derive(Debug, Clone)]
pub struct DivideStatement {
    pub operand: String,
    pub into: String,
    pub giving: Option<String>,
    pub remainder: Option<String>,
}

#[derive(Debug)]
pub struct PerformStatement {
    pub target: PerformTarget,
    pub varying: Option<VaryingClause>,
    pub until: Option<String>,
    pub times: Option<String>,
    pub thru: Option<String>,
}

#[derive(Debug)]
pub enum PerformTarget {
    Paragraph(String),
    Inline(Vec<Statement>),
}

#[derive(Debug, Clone)]
pub struct VaryingClause {
    pub variable: String,
    pub from: String,
    pub by: String,
}

#[derive(Debug)]
pub struct IfStatement {
    pub condition: String,
    pub then_statements: Vec<Statement>,
    pub else_statements: Vec<Statement>,
}

#[derive(Debug)]
pub struct ReadStatement {
    pub file: String,
    pub into: Option<String>,
    pub at_end: Vec<Statement>,
}

#[derive(Debug, Clone)]
pub struct WriteStatement {
    pub record: String,
    pub from: Option<String>,
}

#[derive(Debug, Clone)]
pub struct OpenStatement {
    pub mode: OpenMode,
    pub files: Vec<String>,
}

#[derive(Debug, Clone, Copy, PartialEq, Eq, Structural)]
pub enum OpenMode {
    Input,
    Output,
    IoMode,
    Extend,
}

#[derive(Debug, Clone)]
pub struct CloseStatement {
    pub files: Vec<String>,
}

/// Analysis report for a COBOL project.
#[derive(Debug, Clone)]
pub struct AnalysisReport {
    pub programs: Vec<ProgramSummary>,
    pub copybooks: Vec<CopybookInfo>,
    pub total_lines: usize,
    pub complexity: ComplexityLevel,
}

#[derive(Debug, Clone)]
pub struct ProgramSummary {
    pub file_path: String,
    pub program_id: String,
    pub divisions: Vec<String>,
    pub data_items: usize,
    pub paragraphs: usize,
    pub file_io: bool,
    pub line_count: usize,
}

#[derive(Debug, Clone)]
pub struct CopybookInfo {
    pub name: String,
    pub file_path: String,
    pub referenced_by: Vec<String>,
}

#[derive(Debug, Clone, Copy, PartialEq, Eq, Structural)]
pub enum ComplexityLevel {
    Simple,
    Moderate,
    Complex,
}

// ---------------------------------------------------------------------------
// Embedded SQL (`EXEC SQL ... END-EXEC`)
// ---------------------------------------------------------------------------

/// One parsed `EXEC SQL` statement.
#[derive(Debug, Clone)]
pub enum ExecSqlStatement {
    Select(SqlSelect),
    Insert(SqlInsert),
    Update(SqlUpdate),
    Delete(SqlDelete),
    DeclareCursor(SqlDeclareCursor),
    OpenCursor(String),
    FetchCursor(SqlFetch),
    CloseCursor(String),
    Commit,
    Rollback,
    Whenever(SqlWhenever),
    Unknown(String),
}

/// `SELECT col, ... INTO :var, ... FROM table [WHERE cond]`
#[derive(Debug, Clone)]
pub struct SqlSelect {
    pub columns: Vec<String>,
    pub into_vars: Vec<String>,
    pub table: String,
    pub where_clause: Option<String>,
}

/// `INSERT INTO table (col, ...) VALUES (:var, ...)`
#[derive(Debug, Clone)]
pub struct SqlInsert {
    pub table: String,
    pub columns: Vec<String>,
    pub values: Vec<String>,
}

/// `UPDATE table SET col = :var, ... [WHERE cond]`
#[derive(Debug, Clone)]
pub struct SqlUpdate {
    pub table: String,
    pub set_clauses: Vec<(String, String)>,
    pub where_clause: Option<String>,
}

/// `DELETE FROM table [WHERE cond]`
#[derive(Debug, Clone)]
pub struct SqlDelete {
    pub table: String,
    pub where_clause: Option<String>,
}

/// `DECLARE cursor CURSOR FOR SELECT ...`
#[derive(Debug, Clone)]
pub struct SqlDeclareCursor {
    pub cursor_name: String,
    pub select: SqlSelect,
}

/// `FETCH cursor INTO :var, ...`
#[derive(Debug, Clone)]
pub struct SqlFetch {
    pub cursor_name: String,
    pub into_vars: Vec<String>,
}

/// `WHENEVER condition action`
#[derive(Debug, Clone)]
pub struct SqlWhenever {
    pub condition: SqlWheneverCondition,
    pub action: SqlWheneverAction,
}

#[derive(Debug, Clone, Copy, PartialEq, Eq, Structural)]
pub enum SqlWheneverCondition {
    NotFound,
    SqlError,
    SqlWarning,
}

#[derive(Debug, Clone, PartialEq, Eq)]
pub enum SqlWheneverAction {
    Continue,
    Stop,
    GoTo(String),
}

// ---------------------------------------------------------------------------
// Errors
// ---------------------------------------------------------------------------

/// Why a COBOL source could not be parsed.
#[derive(Debug, Clone, Copy, PartialEq, Eq, Structural)]
pub enum ParseError {
    /// No line holds a `PROGRAM-ID.` paragraph with a name.
    MissingProgramId,
}

impl ParseError {
    /// The error's message.
    pub fn message(&self) -> (r: &'static str)
        ensures
            r@ == "PROGRAM-ID not found in COBOL source"@,
    {
        match self {
            ParseError::MissingProgramId => "PROGRAM-ID not found in COBOL source",
        }
    }
}

} // verus!
