//! Advisory diagnostics and hard errors.
use vstd::prelude::*;
use crate::ifmt::Span;

verus! {

/// The kinds of advisory diagnostic a component invocation can carry.
#[derive(Clone, Copy, Debug, PartialEq, Eq, Structural)]
pub enum DiagnosticKind {
    /// A single lowercase identifier without an underscore names the component.
    LowercaseName,
    /// A path segment before the last one carries arguments.
    ArgumentsBeforeLastSegment,
    /// The last path segment carries arguments other than angle-bracketed ones.
    UnexpectedArguments,
    /// A field name is a custom string.
    CustomField,
    /// A known field name appears a second time.
    DuplicateField,
    /// A spread of remaining props is not the last field.
    MisplacedSpread,
    /// The `key` field is a static string.
    StaticKey,
    /// The `key` field is not a formatted string.
    MalformedKey,
}

/// One advisory diagnostic, attached to the place it points at.
#[derive(Clone, Copy, Debug, PartialEq, Eq, Structural)]
pub struct Diagnostic {
    pub kind: DiagnosticKind,
    pub span: Span,
}

impl Diagnostic {
    /// The message shown for this diagnostic.
    pub fn message(&self) -> &'static str {
        match self.kind {
            DiagnosticKind::LowercaseName => "Component names must be uppercase, contain an underscore, or be a path.",
            DiagnosticKind::ArgumentsBeforeLastSegment => "Component names must not have path arguments. Only the last segment is allowed to have one.",
            DiagnosticKind::UnexpectedArguments => "Component names must have no arguments or angle bracketed arguments.",
            DiagnosticKind::CustomField => "Custom attributes are not supported for Components. Only known attributes are allowed.",
            DiagnosticKind::DuplicateField => "Duplicate attribute found. Only one attribute of each type is allowed.",
            DiagnosticKind::MisplacedSpread => "Spread attributes must be the last attribute in the component.",
            DiagnosticKind::StaticKey => "Key must not be a static string. Make sure to use a formatted string like `key: \"{value}\"",
            DiagnosticKind::MalformedKey => "Key must be in the form of a formatted string like `key: \"{value}\"",
        }
    }
}

/// The advisory diagnostics collected for one node, in the order they were found.
#[derive(Clone, Debug, PartialEq, Eq)]
pub struct Diagnostics {
    pub diagnostics: Vec<Diagnostic>,
}

impl Diagnostics {
    pub open spec fn view(&self) -> Seq<Diagnostic> {
        self.diagnostics@
    }

    pub fn new() -> (r: Diagnostics)
        ensures
            r@ == Seq::<Diagnostic>::empty(),
    {
        Diagnostics { diagnostics: Vec::new() }
    }

    pub fn push(&mut self, diagnostic: Diagnostic)
        ensures
            final(self)@ == old(self)@.push(diagnostic),
    {
        self.diagnostics.push(diagnostic);
    }

    pub fn extend(&mut self, diagnostics: Vec<Diagnostic>)
        ensures
            final(self)@ == old(self)@ + diagnostics@,
    {
        let mut more = diagnostics;
        self.diagnostics.append(&mut more);
    }

    pub fn is_empty(&self) -> (r: bool)
        ensures
            r == (self@.len() == 0),
    {
        self.diagnostics.len() == 0
    }

    pub fn into_diagnostics(self) -> (r: Vec<Diagnostic>)
        ensures
            r@ == self@,
    {
        self.diagnostics
    }
}

/// A hard error: the template cannot be compiled.
#[derive(Clone, Copy, Debug, PartialEq, Eq, Structural)]
pub enum ParseError {
    /// The same event is handled twice on one element.
    DuplicateEventListener(Span),
    /// An element's key is a static string.
    StaticKey(Span),
    /// A child offset, an attribute offset or the depth does not fit in a byte.
    PathOverflow,
}

} // verus!
