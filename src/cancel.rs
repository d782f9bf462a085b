//! The cooperative cancellation token.
use vstd::prelude::*;
use crate::error::Error;

verus! {

/// A flag, created per operation, that the caller sets to ask the operation
/// to stop. Once set it stays set: nothing clears it.
#[derive(Debug, Clone, Copy)]
pub struct CancellationToken {
    cancelled: bool,
}

impl CancellationToken {
    /// The token has been set.
    pub closed spec fn is_set(&self) -> bool {
        self.cancelled
    }

    /// A token that is not set.
    pub fn new() -> (r: CancellationToken)
        ensures
            !r.is_set(),
    {
        CancellationToken { cancelled: false }
    }

    /// Asks the operation to stop.
    pub fn cancel(&mut self)
        ensures
            final(self).is_set(),
    {
        self.cancelled = true;
    }

    /// Whether the token has been set.
    pub fn is_cancelled(&self) -> (r: bool)
        ensures
            r == self.is_set(),
    {
        self.cancelled
    }

    /// The check made at each suspension point: an interruption once the
    /// token is set.
    pub fn check(&self) -> (r: Result<(), Error>)
        ensures
            r is Ok <==> !self.is_set(),
            r matches Err(e) ==> e is Interrupted,
    {
        if self.cancelled {
            Err(Error::Interrupted)
        } else {
            Ok(())
        }
    }
}

} // verus!
