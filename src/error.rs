//! What a failed validation reports.
use vstd::prelude::*;

verus! {

/// A failed expectation. Alternatives that all failed are reported together
/// in a `MultiError`, in the order in which they were tried.
#[derive(Debug)]
pub enum Error {
    /// The schema is malformed for the instance at hand, or uses a form that
    /// is not supported.
    Syntax(String),
    /// The schema or the instance could not be parsed or decoded.
    Compilation(CompilationError),
    /// A leaf predicate failed: a literal, a prelude type, a range or a
    /// control operator.
    ValueMismatch(String),
    /// The instance is not of the shape (array, map, tag) that was expected.
    StructureMismatch(String),
    /// A map lacks a key that its schema requires.
    MissingKey(String),
    /// A map holds a key that its schema does not declare.
    UnexpectedKey(String),
    /// An array's length violates an occurrence indicator.
    Occurrence(String),
    /// A tag number differs from the expected one.
    TagMismatch(u64),
    /// A name that is neither a prelude type nor a rule of the document.
    UnknownIdentifier(String),
    /// `~name` where `name` does not lead to an array, map or tag.
    UnwrapNotContainer(String),
    /// A pattern that uses a construct the pattern engine does not support.
    PatternUnsupported(String),
    /// The nesting of the schema ran past the depth limit.
    RecursionLimit,
    /// No member type of an enumerated group (`&group`) accepted the value.
    NoEnumeratedMemberMatched,
    /// Every alternative failed.
    MultiError(Vec<Error>),
}

/// Failures to parse or decode what is to be validated.
#[derive(Debug)]
pub enum CompilationError {
    /// The CDDL document could not be parsed.
    CDDL(String),
    /// The instance could not be decoded.
    Target(String),
}

} // verus!
