//! The errors that a compilation can end with.

use crate::text::texts;
use vstd::prelude::*;

verus! {

/// What went wrong.
#[derive(Clone, Copy, Debug, PartialEq, Eq, Structural)]
pub enum ErrorKind {
    /// A peripheral derives from a name that no peripheral has.
    UnknownDerivedFrom,
    /// A chain of derivations comes back to a peripheral it went through.
    CyclicDerivation,
    /// A list of instance names is not as long as the repeat count.
    DimensionMismatch,
    /// A field reaches beyond the width of its register.
    FieldOutOfBounds,
    /// Two enumerated values of one field share a raw value.
    DuplicateEnumValue,
    /// Two fields of one register share a bit.
    FieldOverlap,
    /// The address ranges of two peripherals intersect.
    PeripheralOverlap,
    /// The address ranges of two registers of one peripheral intersect.
    RegisterOverlap,
    /// Two interrupts share a vector number.
    DuplicateInterruptVector,
    /// The description is broken in another way.
    MalformedDescription,
}

/// An error and the place it was found at: the chain of names from the
/// outermost entity down to the offending one. An overlap names both
/// parties, the earlier declared one first, as the last two names.
#[derive(Clone, Debug, PartialEq, Eq)]
pub struct CompileError {
    pub kind: ErrorKind,
    pub path: Vec<String>,
}

/// The mathematical value of a `CompileError`.
pub struct CompileErrorView {
    pub kind: ErrorKind,
    pub path: Seq<Seq<char>>,
}

impl CompileErrorView {
    /// The same error, located inside the entity called `name`.
    pub open spec fn within(self, name: Seq<char>) -> CompileErrorView {
        CompileErrorView { kind: self.kind, path: seq![name] + self.path }
    }
}

impl View for CompileError {
    type V = CompileErrorView;

    open spec fn view(&self) -> CompileErrorView {
        CompileErrorView { kind: self.kind, path: texts(self.path@) }
    }
}

/// The error of the given kind at the entity called `name`.
pub open spec fn error_at(kind: ErrorKind, name: Seq<char>) -> CompileErrorView {
    CompileErrorView { kind, path: seq![name] }
}

/// The error of the given kind that involves the two entities named.
pub open spec fn error_between(kind: ErrorKind, first: Seq<char>, second: Seq<char>)
    -> CompileErrorView {
    CompileErrorView { kind, path: seq![first, second] }
}

impl CompileError {
    /// The error of the given kind at the entity called `name`.
    pub fn at(kind: ErrorKind, name: &String) -> (e: CompileError)
        ensures
            e@ == error_at(kind, name@),
    {
        let mut path: Vec<String> = Vec::new();
        path.push(name.clone());
        let e = CompileError { kind, path };
        assert(e@.path =~= seq![name@]);
        e
    }

    /// The error of the given kind that involves the two entities named.
    pub fn between(kind: ErrorKind, first: &String, second: &String) -> (e: CompileError)
        ensures
            e@ == error_between(kind, first@, second@),
    {
        let mut path: Vec<String> = Vec::new();
        path.push(first.clone());
        path.push(second.clone());
        let e = CompileError { kind, path };
        assert(e@.path =~= seq![first@, second@]);
        e
    }

    /// The same error, located inside the entity called `name`.
    pub fn within(self, name: &String) -> (e: CompileError)
        ensures
            e@ == self@.within(name@),
    {
        let mut path: Vec<String> = self.path;
        let ghost before = texts(path@);
        path.insert(0, name.clone());
        let e = CompileError { kind: self.kind, path };
        assert(e@.path =~= seq![name@] + before);
        e
    }

    /// The name of the error's kind.
    pub fn kind_name(&self) -> (name: &'static str)
        ensures
            name@ == kind_label(self.kind),
    {
        match self.kind {
            ErrorKind::UnknownDerivedFrom => "UnknownDerivedFrom",
            ErrorKind::CyclicDerivation => "CyclicDerivation",
            ErrorKind::DimensionMismatch => "DimensionMismatch",
            ErrorKind::FieldOutOfBounds => "FieldOutOfBounds",
            ErrorKind::DuplicateEnumValue => "DuplicateEnumValue",
            ErrorKind::FieldOverlap => "FieldOverlap",
            ErrorKind::PeripheralOverlap => "PeripheralOverlap",
            ErrorKind::RegisterOverlap => "RegisterOverlap",
            ErrorKind::DuplicateInterruptVector => "DuplicateInterruptVector",
            ErrorKind::MalformedDescription => "MalformedDescription",
        }
    }
}

/// The name that a kind of error is reported under.
pub open spec fn kind_label(kind: ErrorKind) -> Seq<char> {
    match kind {
        ErrorKind::UnknownDerivedFrom => "UnknownDerivedFrom"@,
        ErrorKind::CyclicDerivation => "CyclicDerivation"@,
        ErrorKind::DimensionMismatch => "DimensionMismatch"@,
        ErrorKind::FieldOutOfBounds => "FieldOutOfBounds"@,
        ErrorKind::DuplicateEnumValue => "DuplicateEnumValue"@,
        ErrorKind::FieldOverlap => "FieldOverlap"@,
        ErrorKind::PeripheralOverlap => "PeripheralOverlap"@,
        ErrorKind::RegisterOverlap => "RegisterOverlap"@,
        ErrorKind::DuplicateInterruptVector => "DuplicateInterruptVector"@,
        ErrorKind::MalformedDescription => "MalformedDescription"@,
    }
}

} // verus!
