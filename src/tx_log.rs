use vstd::prelude::*;

verus! {

/// Holds the most recent notification that could not be delivered, to be sent again
/// before the next one.
pub struct TxLog<E> {
    pending: Option<E>,
}

impl<E> TxLog<E> {
    /// The notification waiting to be sent again, if any.
    pub closed spec fn waiting(&self) -> Option<E> {
        self.pending
    }

    /// A log with nothing waiting.
    pub fn new() -> (r: TxLog<E>)
        ensures
            r.waiting() is None,
    {
        TxLog { pending: None }
    }

    /// Hands out the waiting notification, leaving nothing waiting.
    pub fn take_retry(&mut self) -> (r: Option<E>)
        ensures
            r == old(self).waiting(),
            final(self).waiting() is None,
    {
        self.pending.take()
    }

    /// Keeps `e`, which could not be delivered, in place of anything waiting.
    pub fn record_failure(&mut self, e: E)
        ensures
            final(self).waiting() == Some(e),
    {
        self.pending = Some(e);
    }

    /// Whether a notification is waiting.
    pub fn has_waiting(&self) -> (r: bool)
        ensures
            r == self.waiting() is Some,
    {
        self.pending.is_some()
    }
}

} // verus!
