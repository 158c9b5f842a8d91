//! The deferred callback queue: readiness notifications produced while an
//! operation mutates file state, run only after the operation has fully
//! returned, in enqueue order.

use vstd::prelude::*;
use crate::types::StateEvent;

verus! {

/// Collects state-change notifications during one mutating operation.
#[derive(Debug, PartialEq, Eq)]
pub struct CallbackQueue {
    pub queue: Vec<StateEvent>,
}

impl CallbackQueue {
    pub fn new() -> (r: CallbackQueue)
        ensures
            r.queue@ == Seq::<StateEvent>::empty(),
    {
        CallbackQueue { queue: Vec::new() }
    }

    /// Defer one notification.
    pub fn push(&mut self, ev: StateEvent)
        ensures
            final(self).queue@ == old(self).queue@.push(ev),
    {
        self.queue.push(ev);
    }

    /// Publishes the queued notifications to the scheduler-visible event
    /// list, in enqueue order, and empties the queue.
    pub fn flush(&mut self, events: &mut Vec<StateEvent>)
        ensures
            final(events)@ == old(events)@ + old(self).queue@,
            final(self).queue@ == Seq::<StateEvent>::empty(),
    {
        let mut i: usize = 0;
        let n = self.queue.len();
        while i < n
            invariant
                i <= n,
                n == self.queue@.len(),
                self.queue@ == old(self).queue@,
                events@ == old(events)@ + self.queue@.subrange(0, i as int),
            decreases n - i,
        {
            proof {
                assert(old(events)@ + self.queue@.subrange(0, i as int + 1)
                    =~= (old(events)@ + self.queue@.subrange(0, i as int)).push(self.queue@[i as int]));
            }
            events.push(self.queue[i]);
            i = i + 1;
        }
        proof {
            assert(self.queue@.subrange(0, n as int) =~= self.queue@);
        }
        self.queue.clear();
    }
}

} // verus!
