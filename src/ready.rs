//! A one-shot readiness signal: waiters that arrive before it is set are
//! remembered and handed back, to be woken, when it is set.
use vstd::prelude::*;

verus! {

/// A signal that is set once; until then it records who waits on it.
pub struct ReadySignal {
    ready: bool,
    waiters: Vec<u64>,
}

/// One waiter's handle on a signal.
pub struct ReadySignalFuture {
    pub waiter: u64,
}

impl ReadySignal {
    pub closed spec fn is_set(&self) -> bool {
        self.ready
    }

    /// Waiters recorded and not yet woken, in arrival order.
    pub closed spec fn waiting(&self) -> Seq<u64> {
        self.waiters@
    }

    /// A signal not yet set, with no waiters.
    pub fn new() -> (r: ReadySignal)
        ensures
            !r.is_set(),
            r.waiting().len() == 0,
    {
        ReadySignal { ready: false, waiters: Vec::new() }
    }

    /// Sets the signal and hands back every waiter to wake.
    pub fn set(&mut self) -> (r: Vec<u64>)
        ensures
            final(self).is_set(),
            r@ == old(self).waiting(),
            final(self).waiting().len() == 0,
    {
        self.ready = true;
        let mut out: Vec<u64> = Vec::new();
        std::mem::swap(&mut out, &mut self.waiters);
        out
    }

    /// A handle for `waiter` to wait on this signal.
    pub fn wait(&self, waiter: u64) -> (r: ReadySignalFuture)
        ensures
            r.waiter == waiter,
    {
        ReadySignalFuture { waiter }
    }
}

impl ReadySignalFuture {
    /// Whether the signal is set; when it is not, the waiter is recorded so
    /// that setting the signal hands it back.
    pub fn poll(&self, signal: &mut ReadySignal) -> (r: bool)
        ensures
            r == old(signal).is_set(),
            final(signal).is_set() == old(signal).is_set(),
            r ==> final(signal).waiting() == old(signal).waiting(),
            !r ==> final(signal).waiting() == old(signal).waiting().push(self.waiter),
    {
        if signal.ready {
            true
        } else {
            signal.waiters.push(self.waiter);
            false
        }
    }
}

} // verus!
