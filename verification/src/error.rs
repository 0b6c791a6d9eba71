//! Error type for the whole pipeline.

use vstd::prelude::*;

verus! {

/// Top-level error type for KQL operations.
#[derive(Debug)]
pub enum KovaQueryError {
    /// Parser failed to recognise the input as a valid KQL statement.
    /// Message carries line and column.
    Parse(String),
    /// Binder rejected a syntactically-valid statement. Examples: embedding
    /// update attempted, distance ordering without a limit.
    Bind(String),
    /// Planner could not produce a valid `PhysicalPlan` for the given
    /// `LogicalStatement` (e.g., no plan satisfies the constraints).
    Plan(String),
    /// Executor failed at runtime. Most often a storage-layer error (see
    /// [`KovaQueryError::Backend`]); this variant covers failures that
    /// originate in the executor itself (parameter binding mismatch, unbound
    /// named parameter, etc).
    Execution(String),
    /// Storage layer error, with the message of its cause.
    Backend(String),
}

/// An error, with text as sequences of characters.
pub enum Failure {
    Parse(Seq<char>),
    Bind(Seq<char>),
    Plan(Seq<char>),
    Execution(Seq<char>),
    Backend(Seq<char>),
}

impl View for KovaQueryError {
    type V = Failure;

    open spec fn view(&self) -> Failure {
        match self {
            KovaQueryError::Parse(m) => Failure::Parse(m@),
            KovaQueryError::Bind(m) => Failure::Bind(m@),
            KovaQueryError::Plan(m) => Failure::Plan(m@),
            KovaQueryError::Execution(m) => Failure::Execution(m@),
            KovaQueryError::Backend(m) => Failure::Backend(m@),
        }
    }
}

/// What an error says to a user.
pub open spec fn message(e: Failure) -> Seq<char> {
    match e {
        Failure::Parse(m) => "parse error: "@ + m,
        Failure::Bind(m) => "bind error: "@ + m,
        Failure::Plan(m) => "plan error: "@ + m,
        Failure::Execution(m) => "execution error: "@ + m,
        Failure::Backend(_) => "storage backend error"@,
    }
}

impl KovaQueryError {
    /// What the error says to a user.
    pub fn to_message(&self) -> (r: String)
        ensures
            r@ == message(self@),
    {
        match self {
            KovaQueryError::Parse(m) => "parse error: ".to_owned().concat(m.as_str()),
            KovaQueryError::Bind(m) => "bind error: ".to_owned().concat(m.as_str()),
            KovaQueryError::Plan(m) => "plan error: ".to_owned().concat(m.as_str()),
            KovaQueryError::Execution(m) => "execution error: ".to_owned().concat(m.as_str()),
            KovaQueryError::Backend(_) => "storage backend error".to_owned(),
        }
    }
}

} // verus!
