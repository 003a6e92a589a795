//! The save coalescer: per entry, an unbounded rate of edits becomes a
//! bounded-rate sequence of durable writes, with at most one write in
//! flight and never a lost edit. The queue is either idle or draining; an
//! edit submitted while draining overwrites the pending slot (last writer
//! wins), and the drain loop repeatedly takes the slot, persists what it
//! took, and waits the throttle interval — exiting, back to idle, when the
//! slot is empty. The caller runs the loop: it starts one when `submit`
//! says so, persists what `take` hands out, and sleeps the throttle
//! interval between rounds.

use vstd::prelude::*;

verus! {

/// How long the drain loop waits between durable writes, in milliseconds.
pub const SAVE_THROTTLE_MILLIS: u64 = 500;

/// One coalesced edit: the next title and body to persist.
pub struct SaveRequest {
    pub title: Option<String>,
    pub body: String,
}

/// The mathematical value of a request.
pub ghost struct ReqView {
    pub title: Option<Seq<char>>,
    pub body: Seq<char>,
}

impl View for SaveRequest {
    type V = ReqView;

    open spec fn view(&self) -> ReqView {
        ReqView {
            title: match self.title {
                Some(t) => Some(t@),
                None => None,
            },
            body: self.body@,
        }
    }
}

/// The state of one entry's pipeline.
pub ghost struct QueueView {
    pub draining: bool,
    pub next: Option<ReqView>,
}

/// Submitting records the edit as the single next value to persist; it asks
/// the caller to start a drain loop exactly when the queue was idle.
pub open spec fn spec_submit(q: QueueView, e: ReqView) -> (QueueView, bool) {
    (QueueView { draining: true, next: Some(e) }, !q.draining)
}

/// One round of the drain loop: take and clear the pending slot. A full
/// slot keeps the loop draining; an empty one ends it, back to idle.
pub open spec fn spec_take(q: QueueView) -> (QueueView, Option<ReqView>) {
    match q.next {
        Some(e) => (QueueView { draining: q.draining, next: None }, Some(e)),
        None => (QueueView { draining: false, next: None }, None),
    }
}

/// One entry's coalescing queue.
pub struct SaveQueue {
    draining: bool,
    next: Option<SaveRequest>,
}

impl View for SaveQueue {
    type V = QueueView;

    closed spec fn view(&self) -> QueueView {
        QueueView {
            draining: self.draining,
            next: match self.next {
                Some(r) => Some(r@),
                None => None,
            },
        }
    }
}

impl SaveQueue {
    /// An idle queue never holds a pending edit.
    pub open spec fn wf(&self) -> bool {
        !self@.draining ==> self@.next is None
    }

    pub fn new() -> (r: SaveQueue)
        ensures
            r.wf(),
            !r@.draining,
            r@.next is None,
    {
        SaveQueue { draining: false, next: None }
    }

    /// Records the edit, overwriting any pending one; returns whether the
    /// caller must start a drain loop.
    pub fn submit(&mut self, req: SaveRequest) -> (start: bool)
        requires
            old(self).wf(),
        ensures
            final(self).wf(),
            (final(self)@, start) == spec_submit(old(self)@, req@),
    {
        let start = !self.draining;
        self.draining = true;
        self.next = Some(req);
        start
    }

    /// Takes and clears the pending slot. `None` means the loop must exit:
    /// the queue is idle again.
    pub fn take(&mut self) -> (r: Option<SaveRequest>)
        requires
            old(self).wf(),
        ensures
            final(self).wf(),
            (final(self)@, match r {
                Some(x) => Some(x@),
                None => None,
            }) == spec_take(old(self)@),
    {
        match self.next.take() {
            Some(x) => Some(x),
            None => {
                self.draining = false;
                None
            },
        }
    }
}

/// Coalescing: three edits submitted while no write has yet drained start
/// exactly one drain loop, whose first round persists exactly the last
/// edit and whose second round finds nothing and exits — one durable
/// write, reflecting the latest submission, never an intermediate one.
pub proof fn lemma_coalescing(q0: QueueView, e1: ReqView, e2: ReqView, e3: ReqView)
    requires
        !q0.draining,
        q0.next is None,
    ensures
        ({
            let (q1, s1) = spec_submit(q0, e1);
            let (q2, s2) = spec_submit(q1, e2);
            let (q3, s3) = spec_submit(q2, e3);
            let (q4, t1) = spec_take(q3);
            let (q5, t2) = spec_take(q4);
            s1 == true && s2 == false && s3 == false && t1 == Some(e3) && t2
                == None::<ReqView> && !q5.draining && q5.next is None
        }),
{
}

} // verus!
