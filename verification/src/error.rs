//! The error type of the library.

use vstd::prelude::*;

verus! {

/// Everything that can go wrong.
#[derive(Debug, PartialEq)]
pub enum DaimonError {
    /// A model provider failed or answered with something unusable.
    Model(String),
    /// A builder was given an impossible configuration.
    Builder(String),
    /// The Model Context Protocol was violated, or its transport failed.
    Mcp(String),
    /// A chain, graph or workflow is malformed or failed.
    Orchestration(String),
    /// A value could not be written as or read from JSON.
    Serialization(String),
    /// The run was cancelled.
    Cancelled,
    /// Anything else.
    Other(String),
}

/// The result type of the library.
pub type Result<T> = std::result::Result<T, DaimonError>;

/// An error, as contracts speak of it.
pub enum ErrorView {
    Model(Seq<char>),
    Builder(Seq<char>),
    Mcp(Seq<char>),
    Orchestration(Seq<char>),
    Serialization(Seq<char>),
    Cancelled,
    Other(Seq<char>),
}

impl View for DaimonError {
    type V = ErrorView;

    open spec fn view(&self) -> ErrorView {
        match *self {
            DaimonError::Model(s) => ErrorView::Model(s@),
            DaimonError::Builder(s) => ErrorView::Builder(s@),
            DaimonError::Mcp(s) => ErrorView::Mcp(s@),
            DaimonError::Orchestration(s) => ErrorView::Orchestration(s@),
            DaimonError::Serialization(s) => ErrorView::Serialization(s@),
            DaimonError::Cancelled => ErrorView::Cancelled,
            DaimonError::Other(s) => ErrorView::Other(s@),
        }
    }
}

/// A result with its error as contracts speak of it.
pub type Outcome<T> = std::result::Result<T, ErrorView>;

/// A result with its error as contracts speak of it.
pub open spec fn outcome<T>(r: Result<T>) -> Outcome<T> {
    match r {
        Ok(v) => Ok(v),
        Err(e) => Err(e@),
    }
}

impl ErrorView {
    /// The words of the error; a cancellation has none.
    pub open spec fn words(self) -> Seq<char> {
        match self {
            ErrorView::Model(s) => s,
            ErrorView::Builder(s) => s,
            ErrorView::Mcp(s) => s,
            ErrorView::Orchestration(s) => s,
            ErrorView::Serialization(s) => s,
            ErrorView::Cancelled => Seq::empty(),
            ErrorView::Other(s) => s,
        }
    }
}

impl DaimonError {
    /// The words of the error; a cancellation has none.
    pub fn message(&self) -> (r: String)
        ensures
            r@ == self@.words(),
    {
        match self {
            DaimonError::Model(s) => s.clone(),
            DaimonError::Builder(s) => s.clone(),
            DaimonError::Mcp(s) => s.clone(),
            DaimonError::Orchestration(s) => s.clone(),
            DaimonError::Serialization(s) => s.clone(),
            DaimonError::Cancelled => String::new(),
            DaimonError::Other(s) => s.clone(),
        }
    }
}

} // verus!
