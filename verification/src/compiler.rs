use vstd::prelude::*;
use vstd::string::*;

use crate::output::ConsoleOutput;
use crate::strings::SourcePosition;
use crate::strings::StringView;
use crate::strings::spec_decimal;
use crate::strings::usize_to_decimal;

verus! {

/// A warning collected during compilation. None is produced yet.
pub struct CompilationWarnings {}

/// A structured lexical error: a short code, human-facing description,
/// cause and suggestion, and, where known, the offending window and the
/// source position.
#[derive(Debug)]
pub struct CompilationError<'this> {
    pub name: String,
    pub desc: String,
    pub cause: String,
    pub suggestion: String,
    pub view: Option<StringView<'this>>,
    pub position: Option<SourcePosition>,
}

impl<'this> CompilationError<'this> {
    /// The offending window, where one is carried, lies inside its buffer.
    pub open spec fn wf(self) -> bool {
        self.view matches Some(v) ==> v.wf()
    }
}

impl<'this> ConsoleOutput for CompilationError<'this> {
    open spec fn out_wf(&self) -> bool {
        self.wf()
    }

    open spec fn short_spec(&self) -> Seq<char> {
        self.name@
    }

    open spec fn message_spec(&self) -> Seq<char> {
        "Description: "@ + self.desc@ + "\nCause: "@ + self.cause@ + "\nSuggestion: "@
            + self.suggestion@
    }

    open spec fn location_spec(&self) -> Seq<char> {
        match self.position {
            Some(pos) => "["@ + spec_decimal(pos.line as int) + ":"@ + spec_decimal(
                pos.column as int,
            ) + "]"@,
            None => "[source]"@,
        }
    }

    open spec fn cutout_spec(&self) -> Seq<char> {
        match self.view {
            Some(view) => view.excerpt(10),
            None => "(no source code available)"@,
        }
    }

    open spec fn type_spec(&self) -> Seq<char> {
        "\u{26D4} ERROR"@
    }

    fn get_short(&self) -> (r: String) {
        self.name.clone()
    }

    fn get_cutout(&self) -> (r: String) {
        match &self.view {
            Some(view) => view.show_slice(10),
            None => String::from_str("(no source code available)"),
        }
    }

    fn get_message(&self) -> (r: String) {
        let mut r = String::from_str("Description: ");
        r.append(self.desc.as_str());
        r.append("\nCause: ");
        r.append(self.cause.as_str());
        r.append("\nSuggestion: ");
        r.append(self.suggestion.as_str());
        r
    }

    fn get_location(&self) -> (r: String) {
        match &self.position {
            Some(pos) => {
                let mut r = String::from_str("[");
                let line = usize_to_decimal(pos.line);
                r.append(line.as_str());
                r.append(":");
                let column = usize_to_decimal(pos.column);
                r.append(column.as_str());
                r.append("]");
                r
            },
            None => String::from_str("[source]"),
        }
    }

    fn get_type(&self) -> (r: String) {
        String::from_str("\u{26D4} ERROR")
    }
}

/// Whether a compilation is still clean or has hit its first error.
pub enum CompilationStatus<'this> {
    OK,
    Error(CompilationError<'this>),
}

/// Holder for the outcome of one scan: either ok, or the single first
/// error, plus a list of warnings.
pub struct CompilationState<'t> {
    pub status: CompilationStatus<'t>,
    pub warnings: Vec<CompilationWarnings>,
}

impl<'this> CompilationState<'this> {
    pub fn new() -> (r: CompilationState<'this>)
        ensures
            r.status is OK,
            r.warnings@.len() == 0,
    {
        CompilationState { status: CompilationStatus::OK, warnings: Vec::new() }
    }

    pub fn is_ok(&self) -> (r: bool)
        ensures
            r == (self.status is OK),
    {
        match self.status {
            CompilationStatus::OK => true,
            CompilationStatus::Error(_) => false,
        }
    }

    /// Records the first error; the state never leaves the error status
    /// afterwards because scanning stops with it.
    pub fn error(&mut self, err: CompilationError<'this>)
        ensures
            final(self).status == CompilationStatus::Error(err),
            final(self).warnings == old(self).warnings,
    {
        self.status = CompilationStatus::Error(err);
    }

    pub fn get_error(&self) -> (r: Option<&CompilationError<'this>>)
        ensures
            self.status is OK ==> r is None,
            self.status matches CompilationStatus::Error(e) ==> (r matches Some(er) && *er
                == e),
    {
        match &self.status {
            CompilationStatus::OK => None,
            CompilationStatus::Error(err) => Some(err),
        }
    }
}

} // verus!
