//! What a connection handler is given: the connection, which can be taken
//! once, and the hosted files.
use vstd::prelude::*;

verus! {

/// A handler asked for something its context no longer holds.
#[derive(Debug, Clone, Copy, PartialEq, Eq, Structural)]
pub enum ContextError {
    /// The connection was already taken.
    AlreadyTaken,
}

/// The context of one connection: the stream `S` and the hosted files `F`.
pub struct Context<S, F> {
    pub stream: Option<S>,
    pub files: F,
}

impl<S, F> Context<S, F> {
    /// Takes the connection out of the context; it can be taken only once.
    pub fn take_stream(&mut self) -> (res: Result<S, ContextError>)
        ensures
            final(self).stream is None,
            final(self).files == old(self).files,
            old(self).stream matches Some(s) ==> res == Ok::<S, ContextError>(s),
            old(self).stream is None ==> res == Err::<S, ContextError>(ContextError::AlreadyTaken),
    {
        match self.stream.take() {
            Some(s) => Ok(s),
            None => Err(ContextError::AlreadyTaken),
        }
    }
}

} // verus!
