use vstd::prelude::*;

verus! {

/// The kind of a compilation failure.
#[derive(Debug, Clone, Copy, PartialEq, Eq, Structural)]
pub enum ErrorType {
    /// A line matches none of the statement shapes.
    SyntaxError,
    /// A variable is declared twice.
    NameError,
    /// An expression could not be turned into tokens.
    ExpressionError,
}

/// A failure, with the source lines it passed through, innermost first.
#[derive(Debug, PartialEq, Eq)]
pub struct Error {
    pub kind: ErrorType,
    pub message: String,
    pub traceback: Vec<usize>,
}

impl Error {
    /// A new error, attributed to `line` when one is given.
    pub fn new(kind: ErrorType, message: String, line: Option<usize>) -> (r: Error)
        ensures
            r.kind == kind,
            r.message@ == message@,
            r.traceback@ == (match line {
                Some(l) => seq![l],
                None => Seq::<usize>::empty(),
            }),
    {
        let mut traceback: Vec<usize> = Vec::new();
        if let Some(l) = line {
            traceback.push(l);
        }
        Error { kind, message, traceback }
    }

    /// The same error, with one more frame at the outer end of its traceback.
    pub fn traceback(self, line: Option<usize>) -> (r: Error)
        ensures
            r.kind == self.kind,
            r.message@ == self.message@,
            r.traceback@ == (match line {
                Some(l) => self.traceback@.push(l),
                None => self.traceback@,
            }),
    {
        let mut e = self;
        if let Some(l) = line {
            e.traceback.push(l);
        }
        e
    }
}

} // verus!
