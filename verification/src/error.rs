//! Diagnostics: byte-range spans and the closed set of compilation faults.

use vstd::prelude::*;

verus! {

/// A half-open byte range `[start, end)` into the source buffer.
///
/// A span never owns text; it is used both to slice the source and to anchor
/// diagnostics. Well-formed spans satisfy `start <= end <= len` for the
/// buffer they refer to.
#[derive(Clone, Copy, Debug, PartialEq, Eq, Structural)]
pub struct Span {
    pub start: u32,
    pub end: u32,
}

impl Span {
    pub fn new(start: u32, end: u32) -> (r: Self)
        ensures
            r == (Span { start, end }),
    {
        Self { start, end }
    }

    /// `start <= end <= len`: the range fits inside a buffer of length `len`.
    pub open spec fn wf(self, len: int) -> bool {
        self.start <= self.end <= len
    }
}

/// The first fault found while parsing or generating; compilation stops there.
///
/// Each variant carries the span of the offending surface syntax so that a
/// caller can render a source-excerpt diagnostic.
#[derive(Clone, Copy, Debug, PartialEq, Eq, Structural)]
pub enum Error {
    /// A single expected delimiter byte did not match.
    ExpectedFound { expected: u8, found: u8, span: Span },
    /// After a command name, the next byte opened no recognized argument form.
    ExpectedArgs { found: u8, span: Span },
    /// A closing delimiter arrived with no matching opener on the stack.
    UnbalancedDelimiter { span: Span },
    /// A command received the wrong number of arguments.
    IncorrectArgCount { expected: usize, found: usize, span: Span },
    /// An argument of the wrong kind was supplied where inline was required.
    ExpectedInlineArg { span: Span },
    /// An argument of the wrong kind was supplied where a block was required.
    ExpectedBlockArg { span: Span },
    /// An argument of the wrong kind was supplied where an identifier was required.
    ExpectedIdentArg { span: Span },
    /// An argument of the wrong kind was supplied where a string was required.
    ExpectedStringArg { span: Span },
    /// A command name outside the fixed built-in table.
    UnknownCommand { span: Span },
    /// A code block file name whose extension is not in the language table.
    UnknownCodeLanguage { span: Span },
}

impl Error {
    /// The span each variant binds.
    pub open spec fn spec_span(self) -> Span {
        match self {
            Error::ExpectedFound { span, .. } => span,
            Error::ExpectedArgs { span, .. } => span,
            Error::UnbalancedDelimiter { span } => span,
            Error::IncorrectArgCount { span, .. } => span,
            Error::ExpectedInlineArg { span } => span,
            Error::ExpectedBlockArg { span } => span,
            Error::ExpectedIdentArg { span } => span,
            Error::ExpectedStringArg { span } => span,
            Error::UnknownCommand { span } => span,
            Error::UnknownCodeLanguage { span } => span,
        }
    }

    /// The byte range this error points at in the original source.
    pub fn span(&self) -> (r: Span)
        ensures
            r == self.spec_span(),
    {
        match self {
            Error::ExpectedFound { span, .. } => *span,
            Error::ExpectedArgs { span, .. } => *span,
            Error::UnbalancedDelimiter { span } => *span,
            Error::IncorrectArgCount { span, .. } => *span,
            Error::ExpectedInlineArg { span } => *span,
            Error::ExpectedBlockArg { span } => *span,
            Error::ExpectedIdentArg { span } => *span,
            Error::ExpectedStringArg { span } => *span,
            Error::UnknownCommand { span } => *span,
            Error::UnknownCodeLanguage { span } => *span,
        }
    }
}

} // verus!
