//! Structured engine errors: every error names its file, and validation
//! errors carry a JSON path, the expected type, the offending value and a
//! suggested fix.

use vstd::prelude::*;
use crate::json::Json;
use crate::text::{push_str, push_decimal, decimal};

verus! {

broadcast use vstd::string::group_string_axioms;

/// How an I/O operation failed.
#[derive(Debug, Clone, Copy, PartialEq, Eq)]
pub enum IoErrorKind {
    Read,
    Write,
    NotFound,
    PermissionDenied,
    Other,
}

/// An I/O failure on a named file.
#[derive(Debug, Clone)]
pub struct IoError {
    pub file: String,
    pub kind: IoErrorKind,
    pub message: String,
}

impl IoError {
    /// A read failure.
    pub fn read(file: &str, message: &str) -> (r: Self)
        ensures
            r.file@ == file@,
            r.kind == IoErrorKind::Read,
            r.message@ == message@,
    {
        IoError { file: file.to_string(), kind: IoErrorKind::Read, message: message.to_string() }
    }

    /// A missing file.
    pub fn not_found(file: &str, message: &str) -> (r: Self)
        ensures
            r.file@ == file@,
            r.kind == IoErrorKind::NotFound,
            r.message@ == message@,
    {
        IoError { file: file.to_string(), kind: IoErrorKind::NotFound, message: message.to_string() }
    }
}

/// A syntax error in an input file.
#[derive(Debug, Clone)]
pub struct ParseError {
    pub file: String,
    pub line: Option<u32>,
    pub column: Option<u32>,
    pub message: String,
    pub snippet: Option<String>,
}

/// Whether a suggested fix may be applied without review.
#[derive(Debug, Clone, Copy, PartialEq, Eq)]
pub enum AutoFix {
    Safe,
    Suggested,
    NeedsReview,
}

/// One schema violation.
#[derive(Debug, Clone)]
pub struct ValidationError {
    pub file: String,
    pub json_path: String,
    pub message: String,
    pub expected_type: String,
    pub actual_value: Option<Json>,
    pub suggestion: Option<String>,
    pub auto_fixable: AutoFix,
}

/// Any engine error.
#[derive(Debug, Clone)]
pub enum EngineError {
    Parse(ParseError),
    Validation { file: String, errors: Vec<ValidationError> },
    Io(IoError),
    Internal(String),
}

pub type EngineResult<T> = Result<T, EngineError>;

/// The file an error is about.
pub open spec fn error_file(e: EngineError) -> Seq<char> {
    match e {
        EngineError::Parse(p) => p.file@,
        EngineError::Validation { file, .. } => file@,
        EngineError::Io(io) => io.file@,
        EngineError::Internal(_) => "<internal>"@,
    }
}

/// The human-readable text of an error.
pub open spec fn error_text(e: EngineError) -> Seq<char> {
    match e {
        EngineError::Parse(p) => p.message@,
        EngineError::Validation { errors, .. } => "validation failed with "@ + decimal(errors@.len()) + " error(s)"@,
        EngineError::Io(io) => "io error in "@ + io.file@ + ": "@ + io.message@,
        EngineError::Internal(m) => "internal error: "@ + m@,
    }
}

impl EngineError {
    /// The file the error is about (`"<internal>"` for internal errors).
    pub fn file(&self) -> (r: &str)
        ensures
            r@ == error_file(*self),
    {
        match self {
            EngineError::Parse(e) => e.file.as_str(),
            EngineError::Validation { file, .. } => file.as_str(),
            EngineError::Io(e) => e.file.as_str(),
            EngineError::Internal(_) => "<internal>",
        }
    }

    /// The error's message, as its `Display` renders it.
    pub fn message(&self) -> (r: String)
        ensures
            r@ == error_text(*self),
    {
        let mut out = String::new();
        match self {
            EngineError::Parse(e) => {
                push_str(&mut out, e.message.as_str());
            },
            EngineError::Validation { errors, .. } => {
                push_str(&mut out, "validation failed with ");
                push_decimal(&mut out, errors.len() as u64);
                push_str(&mut out, " error(s)");
            },
            EngineError::Io(e) => {
                push_str(&mut out, "io error in ");
                push_str(&mut out, e.file.as_str());
                push_str(&mut out, ": ");
                push_str(&mut out, e.message.as_str());
            },
            EngineError::Internal(m) => {
                push_str(&mut out, "internal error: ");
                push_str(&mut out, m.as_str());
            },
        }
        assert(out@ =~= error_text(*self));
        out
    }
}

/// Collects validation errors for one file and reports them together.
#[derive(Debug)]
pub struct ErrorCollector {
    file: String,
    errors: Vec<ValidationError>,
}

impl ErrorCollector {
    /// The file the collected errors are about.
    pub closed spec fn file_spec(&self) -> Seq<char> {
        self.file@
    }

    /// The errors collected so far, in order.
    pub closed spec fn errors_spec(&self) -> Seq<ValidationError> {
        self.errors@
    }

    pub fn new(file: &str) -> (r: Self)
        ensures
            r.file_spec() == file@,
            r.errors_spec().len() == 0,
    {
        ErrorCollector { file: file.to_string(), errors: Vec::new() }
    }

    pub fn push(&mut self, error: ValidationError)
        ensures
            final(self).errors_spec() == old(self).errors_spec().push(error),
            final(self).file_spec() == old(self).file_spec(),
    {
        self.errors.push(error);
    }

    pub fn len(&self) -> (n: usize)
        ensures
            n == self.errors_spec().len(),
    {
        self.errors.len()
    }

    pub fn is_empty(&self) -> (b: bool)
        ensures
            b == (self.errors_spec().len() == 0),
    {
        self.errors.len() == 0
    }

    /// `Ok` when nothing was collected, else one `Validation` error that
    /// holds every collected error in order.
    pub fn into_result(self) -> (r: EngineResult<()>)
        ensures
            match r {
                Ok(_) => self.errors_spec().len() == 0,
                Err(EngineError::Validation { file, errors }) => self.errors_spec().len() > 0
                    && file@ == self.file_spec() && errors@ == self.errors_spec(),
                Err(_) => false,
            },
    {
        if self.errors.len() == 0 {
            Ok(())
        } else {
            Err(EngineError::Validation { file: self.file, errors: self.errors })
        }
    }
}

} // verus!
