use vstd::prelude::*;

verus! {

/// What a pool tells its caller to do to obtain a client handle.
pub enum AcquireAction {
    /// Reuse the idle handle with this id; it is no longer idle.
    Reuse(u64),
    /// Open a new connection under this fresh id; the pool has counted it
    /// against the cap.
    Create(u64),
    /// The pool is at its cap with nothing idle: wait for a release.
    Wait,
}

/// Bookkeeping for a bounded pool of reusable client handles to one
/// endpoint. The pool tracks handle ids only; the caller owns the actual
/// connections, keyed by id. Handles are lazily created up to the cap,
/// returned to the idle set after healthy use, and discarded — freeing
/// their slot — when they fail or time out. No id is handed to two
/// callers at once.
pub struct ClientPool {
    /// Most handles that may be live at once.
    pub cap: usize,
    /// Handles currently live, idle or checked out.
    pub live: usize,
    /// Ids of idle handles, available for reuse.
    pub idle: Vec<u64>,
    /// Next fresh id.
    pub next_id: u64,
}

impl ClientPool {
    /// Pool invariant: no more idle than live, no more live than the
    /// cap, idle ids distinct and below the next fresh id.
    pub open spec fn wf(self) -> bool {
        &&& self.idle@.len() <= self.live <= self.cap
        &&& self.idle@.no_duplicates()
        &&& forall|i: int| 0 <= i < self.idle@.len() ==> self.idle@[i] < self.next_id
    }

    /// Handles currently checked out by callers.
    pub open spec fn checked_out(self) -> int {
        self.live - self.idle@.len()
    }

    /// An empty pool bounded by `cap`.
    pub fn new(cap: usize) -> (p: ClientPool)
        ensures
            p.wf(),
            p.cap == cap,
            p.live == 0,
            p.idle@.len() == 0,
    {
        ClientPool { cap, live: 0, idle: Vec::new(), next_id: 0 }
    }

    /// Decide how the caller gets a handle: reuse the most recently
    /// returned idle handle if there is one; otherwise admit a new
    /// connection if the pool is below its cap; otherwise the caller
    /// must wait for a release.
    pub fn acquire_step(&mut self) -> (a: AcquireAction)
        requires
            old(self).wf(),
            old(self).next_id < u64::MAX,
        ensures
            final(self).wf(),
            final(self).cap == old(self).cap,
            ({
                let o = *old(self);
                if o.idle@.len() > 0 {
                    &&& a == AcquireAction::Reuse(o.idle@.last())
                    &&& final(self).idle@ == o.idle@.drop_last()
                    &&& final(self).live == o.live
                    &&& final(self).next_id == o.next_id
                } else if o.live < o.cap {
                    &&& a == AcquireAction::Create(o.next_id)
                    &&& final(self).live == o.live + 1
                    &&& final(self).idle@ == o.idle@
                    &&& final(self).next_id == o.next_id + 1
                } else {
                    a == AcquireAction::Wait && *final(self) == o
                }
            }),
    {
        if self.idle.len() > 0 {
            match self.idle.pop() {
                Some(id) => AcquireAction::Reuse(id),
                None => unreached(),
            }
        } else if self.live < self.cap {
            let id = self.next_id;
            self.next_id = self.next_id + 1;
            self.live = self.live + 1;
            AcquireAction::Create(id)
        } else {
            AcquireAction::Wait
        }
    }

    /// Return a checked-out handle. A healthy handle joins the idle set
    /// for reuse; an unhealthy one is discarded and its slot freed, so a
    /// replacement may be created later.
    pub fn release(&mut self, id: u64, healthy: bool)
        requires
            old(self).wf(),
            old(self).checked_out() > 0,
            id < old(self).next_id,
            !old(self).idle@.contains(id),
        ensures
            final(self).wf(),
            final(self).cap == old(self).cap,
            final(self).next_id == old(self).next_id,
            healthy ==> final(self).idle@ == old(self).idle@.push(id) && final(self).live == old(
                self,
            ).live,
            !healthy ==> final(self).idle@ == old(self).idle@ && final(self).live == old(
                self,
            ).live - 1,
    {
        if healthy {
            self.idle.push(id);
        } else {
            self.live = self.live - 1;
        }
    }
}

} // verus!
