use vstd::prelude::*;

verus! {

/// The two classes of failure that parsing can report.
#[derive(Debug, Clone, Copy, PartialEq, Eq, Structural)]
pub enum ErrorKind {
    /// The text ended inside a construct that was still open.
    Incomplete,
    /// A character stood where the grammar allowed none of its kind.
    Syntax,
}

/// The single error that a failed parse reports.
#[derive(Debug, Clone, Copy, PartialEq, Eq, Structural)]
pub struct ParsingError {
    pub kind: ErrorKind,
}

impl ParsingError {
    pub fn new(kind: ErrorKind) -> (r: ParsingError)
        ensures
            r.kind == kind,
    {
        ParsingError { kind }
    }

    /// A human-readable description of the failure.
    pub fn description(&self) -> (r: &'static str)
        ensures
            self.kind == ErrorKind::Incomplete ==> r@
                == "incomplete input: the text ended before the open entry, group or quoted value was closed"@,
            self.kind == ErrorKind::Syntax ==> r@
                == "syntax error: an unexpected character stands where an identifier, '=', ',', a value or a closing delimiter was expected"@,
    {
        match self.kind {
            ErrorKind::Incomplete => "incomplete input: the text ended before the open entry, group or quoted value was closed",
            ErrorKind::Syntax => "syntax error: an unexpected character stands where an identifier, '=', ',', a value or a closing delimiter was expected",
        }
    }
}

} // verus!
