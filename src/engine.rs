//! Lifecycle of the inference engine: a session that is loaded at most once
//! successfully and then stays ready, and the classification of each run's
//! outcome. Loading and executing the session happen outside; the decisions
//! taken on their outcomes are here.

use vstd::prelude::*;

verus! {

/// Why loading the model into a session failed.
#[derive(Debug, Clone, Copy, PartialEq, Eq, Structural)]
pub enum LoadError {
    /// The model payload is malformed or the runtime rejected it.
    Rejected,
}

/// Why a run produced no result.
#[derive(Debug, Clone, Copy, PartialEq, Eq, Structural)]
pub enum RunError {
    /// No session has been loaded.
    NotInitialized,
    /// The runtime failed while executing the session.
    ExecutionFailed,
    /// The expected output tensor is absent from the results.
    MissingOutput,
    /// The output tensor is present but not of the expected element kind.
    UnexpectedType,
    /// The run did not complete in time.
    Timeout,
}

/// What a run found under the expected output name.
pub enum OutputLookup<T> {
    /// No tensor of that name.
    Missing,
    /// A tensor of the expected element kind, with its contents.
    Expected(T),
    /// A tensor of another element kind.
    OtherKind,
}

/// The outcome of executing a session once.
pub enum Execution<T> {
    /// The runtime reported a failure.
    Failed,
    /// The runtime returned a result set, looked up by the expected output name.
    Completed(OutputLookup<T>),
}

/// A provider of an inference session of type `S`, uninitialized until a
/// load succeeds and ready from then on.
pub struct OnnxProvider<S> {
    session: Option<S>,
}

impl<S> OnnxProvider<S> {
    /// The loaded session, if any.
    pub closed spec fn loaded(&self) -> Option<S> {
        self.session
    }

    /// Whether a session has been loaded.
    pub open spec fn ready(&self) -> bool {
        self.loaded() is Some
    }

    /// A provider with no session loaded.
    pub fn new() -> (r: Self)
        ensures
            r.loaded() is None,
    {
        OnnxProvider { session: None }
    }

    /// Takes the outcome of loading the model: a loaded session becomes the
    /// provider's session; a failed load leaves the provider as it was and
    /// is handed back.
    pub fn init(&mut self, outcome: Result<S, LoadError>) -> (r: Result<(), LoadError>)
        ensures
            match outcome {
                Ok(s) => r is Ok && final(self).loaded() == Some(s),
                Err(e) => r == Err::<(), LoadError>(e) && final(self).loaded() == old(
                    self,
                ).loaded(),
            },
    {
        match outcome {
            Ok(s) => {
                self.session = Some(s);
                Ok(())
            },
            Err(e) => Err(e),
        }
    }

    /// Whether a session has been loaded.
    pub fn is_ready(&self) -> (r: bool)
        ensures
            r == self.ready(),
    {
        self.session.is_some()
    }

    /// The session to run, or `NotInitialized` before a load has succeeded.
    pub fn session(&self) -> (r: Result<&S, RunError>)
        ensures
            match self.loaded() {
                Some(s) => r == Ok::<&S, RunError>(&s),
                None => r == Err::<&S, RunError>(RunError::NotInitialized),
            },
    {
        match &self.session {
            Some(s) => Ok(s),
            None => Err(RunError::NotInitialized),
        }
    }
}

/// The result of a run from what executing the session gave: the contents
/// of the output tensor only when execution succeeded and the tensor is
/// present with the expected element kind.
pub fn run_outcome<T>(execution: Execution<T>) -> (r: Result<T, RunError>)
    ensures
        match execution {
            Execution::Failed => r == Err::<T, RunError>(RunError::ExecutionFailed),
            Execution::Completed(OutputLookup::Missing) => r == Err::<T, RunError>(
                RunError::MissingOutput,
            ),
            Execution::Completed(OutputLookup::OtherKind) => r == Err::<T, RunError>(
                RunError::UnexpectedType,
            ),
            Execution::Completed(OutputLookup::Expected(t)) => r == Ok::<T, RunError>(t),
        },
{
    match execution {
        Execution::Failed => Err(RunError::ExecutionFailed),
        Execution::Completed(OutputLookup::Missing) => Err(RunError::MissingOutput),
        Execution::Completed(OutputLookup::OtherKind) => Err(RunError::UnexpectedType),
        Execution::Completed(OutputLookup::Expected(t)) => Ok(t),
    }
}

} // verus!
