//! The errors that parsing and running a program can raise.

use vstd::prelude::*;

verus! {

/// Why a text is no program.
#[derive(Debug, PartialEq, Eq)]
pub enum SyntaxError {
    /// No token starts with the character.
    UnexpectedCharacter(char),
    /// The number does not fit 32 bits.
    NumberOutOfRange,
    /// An expression was expected where the text ends or another token stands.
    UnexpectedToken,
    /// The operator cannot stand where it does.
    UnexpectedOperator,
    /// An argument list holds a place without an expression.
    ExpectedExpression,
    /// A statement starts with a name that is neither assigned to nor called.
    UnexpectedIdentifier(String),
    /// An assigner that the language does not know.
    UnexpectedAssignmentOperator,
    /// A declaration with an assigner other than `=`.
    UnexpectedAssignmentInDeclaration,
    /// A `mut` declaration without `=`.
    ExpectedAssignmentInDeclaration,
    /// A name was expected.
    ExpectedIdentifier,
    /// A parameter is followed by neither `,` nor `)`.
    ExpectedCommaOrParenthesis,
    /// A `)` was expected.
    ExpectedClosingParenthesis,
    /// A `{` or a `}` was expected.
    ExpectedCodeBlock,
    /// A statement cannot start with the token.
    UnexpectedStatement,
}

/// The mathematical content of a [`SyntaxError`].
pub ghost enum SyntaxFailure {
    UnexpectedCharacter(char),
    NumberOutOfRange,
    UnexpectedToken,
    UnexpectedOperator,
    ExpectedExpression,
    UnexpectedIdentifier(Seq<char>),
    UnexpectedAssignmentOperator,
    UnexpectedAssignmentInDeclaration,
    ExpectedAssignmentInDeclaration,
    ExpectedIdentifier,
    ExpectedCommaOrParenthesis,
    ExpectedClosingParenthesis,
    ExpectedCodeBlock,
    UnexpectedStatement,
}

impl View for SyntaxError {
    type V = SyntaxFailure;

    open spec fn view(&self) -> SyntaxFailure {
        match *self {
            SyntaxError::UnexpectedCharacter(c) => SyntaxFailure::UnexpectedCharacter(c),
            SyntaxError::NumberOutOfRange => SyntaxFailure::NumberOutOfRange,
            SyntaxError::UnexpectedToken => SyntaxFailure::UnexpectedToken,
            SyntaxError::UnexpectedOperator => SyntaxFailure::UnexpectedOperator,
            SyntaxError::ExpectedExpression => SyntaxFailure::ExpectedExpression,
            SyntaxError::UnexpectedIdentifier(name) => SyntaxFailure::UnexpectedIdentifier(name@),
            SyntaxError::UnexpectedAssignmentOperator =>
                SyntaxFailure::UnexpectedAssignmentOperator,
            SyntaxError::UnexpectedAssignmentInDeclaration =>
                SyntaxFailure::UnexpectedAssignmentInDeclaration,
            SyntaxError::ExpectedAssignmentInDeclaration =>
                SyntaxFailure::ExpectedAssignmentInDeclaration,
            SyntaxError::ExpectedIdentifier => SyntaxFailure::ExpectedIdentifier,
            SyntaxError::ExpectedCommaOrParenthesis => SyntaxFailure::ExpectedCommaOrParenthesis,
            SyntaxError::ExpectedClosingParenthesis => SyntaxFailure::ExpectedClosingParenthesis,
            SyntaxError::ExpectedCodeBlock => SyntaxFailure::ExpectedCodeBlock,
            SyntaxError::UnexpectedStatement => SyntaxFailure::UnexpectedStatement,
        }
    }
}

/// Why an operation of the runtime failed.
#[derive(Debug, PartialEq, Eq)]
pub enum RuntimeError {
    /// The name is bound in no scope of the active chain.
    UndeclaredVariable(String),
    /// The name is already declared in the innermost scope.
    DuplicateDeclaration(String),
    /// The name is bound, but not as mutable.
    ImmutableAssignment(String),
    /// An operand is not of the kind the operation works on.
    TypeMismatch,
    DivisionByZero,
    ModuloByZero,
    /// A call handed over the wrong number of arguments: expected, got.
    ArityMismatch(usize, usize),
    /// The name is bound to something that is no function.
    NotCallable(String),
    /// No cell of the arena is free.
    OutOfMemory,
    /// The address lies outside the arena.
    AddressOutOfBounds(usize),
    /// Calls are nested deeper than the interpreter allows.
    CallDepthExceeded,
    /// A loop ran for more rounds than the interpreter allows.
    IterationLimitExceeded,
}

/// The mathematical content of a [`RuntimeError`].
pub ghost enum Failure {
    UndeclaredVariable(Seq<char>),
    DuplicateDeclaration(Seq<char>),
    ImmutableAssignment(Seq<char>),
    TypeMismatch,
    DivisionByZero,
    ModuloByZero,
    ArityMismatch(nat, nat),
    NotCallable(Seq<char>),
    OutOfMemory,
    AddressOutOfBounds(nat),
    CallDepthExceeded,
    IterationLimitExceeded,
}

impl View for RuntimeError {
    type V = Failure;

    open spec fn view(&self) -> Failure {
        match *self {
            RuntimeError::UndeclaredVariable(name) => Failure::UndeclaredVariable(name@),
            RuntimeError::DuplicateDeclaration(name) => Failure::DuplicateDeclaration(name@),
            RuntimeError::ImmutableAssignment(name) => Failure::ImmutableAssignment(name@),
            RuntimeError::TypeMismatch => Failure::TypeMismatch,
            RuntimeError::DivisionByZero => Failure::DivisionByZero,
            RuntimeError::ModuloByZero => Failure::ModuloByZero,
            RuntimeError::ArityMismatch(expected, got) => Failure::ArityMismatch(
                expected as nat,
                got as nat,
            ),
            RuntimeError::NotCallable(name) => Failure::NotCallable(name@),
            RuntimeError::OutOfMemory => Failure::OutOfMemory,
            RuntimeError::AddressOutOfBounds(address) => Failure::AddressOutOfBounds(
                address as nat,
            ),
            RuntimeError::CallDepthExceeded => Failure::CallDepthExceeded,
            RuntimeError::IterationLimitExceeded => Failure::IterationLimitExceeded,
        }
    }
}

impl RuntimeError {
    /// A copy of the error.
    pub fn duplicate(&self) -> (copy: RuntimeError)
        ensures
            copy@ == self@,
    {
        match self {
            RuntimeError::UndeclaredVariable(name) => RuntimeError::UndeclaredVariable(
                name.clone(),
            ),
            RuntimeError::DuplicateDeclaration(name) => RuntimeError::DuplicateDeclaration(
                name.clone(),
            ),
            RuntimeError::ImmutableAssignment(name) => RuntimeError::ImmutableAssignment(
                name.clone(),
            ),
            RuntimeError::TypeMismatch => RuntimeError::TypeMismatch,
            RuntimeError::DivisionByZero => RuntimeError::DivisionByZero,
            RuntimeError::ModuloByZero => RuntimeError::ModuloByZero,
            RuntimeError::ArityMismatch(expected, got) => RuntimeError::ArityMismatch(
                *expected,
                *got,
            ),
            RuntimeError::NotCallable(name) => RuntimeError::NotCallable(name.clone()),
            RuntimeError::OutOfMemory => RuntimeError::OutOfMemory,
            RuntimeError::AddressOutOfBounds(address) => RuntimeError::AddressOutOfBounds(
                *address,
            ),
            RuntimeError::CallDepthExceeded => RuntimeError::CallDepthExceeded,
            RuntimeError::IterationLimitExceeded => RuntimeError::IterationLimitExceeded,
        }
    }
}

impl Clone for RuntimeError {
    fn clone(&self) -> (copy: RuntimeError)
        ensures
            copy@ == self@,
    {
        self.duplicate()
    }
}

} // verus!
