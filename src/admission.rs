//! Work-group admission: a bounded number of concurrent searches per group.
use vstd::prelude::*;

verus! {

/// Proof of one admitted search. It is neither `Clone` nor `Copy`: giving it
/// back to `WorkGroup::release` consumes it, so one admission is released at
/// most once.
#[must_use]
#[derive(Debug)]
pub struct AdmissionHandle {
    group: u64,
}

impl AdmissionHandle {
    /// Key of the issuing work group.
    pub closed spec fn spec_group(&self) -> u64 {
        self.group
    }

    /// Key of the work group that issued this handle.
    pub fn group(&self) -> (r: u64)
        ensures
            r == self.spec_group(),
    {
        self.group
    }
}

/// Outcome of one admission attempt.
#[derive(Debug)]
pub enum AdmissionPoll {
    /// A slot was taken.
    Admitted(AdmissionHandle),
    /// No slot yet, and the admission timeout has not elapsed: try again.
    Wait,
    /// No slot within the admission timeout.
    TimedOut,
}

/// Concurrency gate of one work group.
#[derive(Debug)]
pub struct WorkGroup {
    key: u64,
    limit: u64,
    running: u64,
}

impl WorkGroup {
    /// Key identifying the group.
    pub closed spec fn spec_key(&self) -> u64 {
        self.key
    }

    /// Most searches the group runs at once.
    pub closed spec fn spec_limit(&self) -> u64 {
        self.limit
    }

    /// Searches admitted and not yet released.
    pub closed spec fn spec_running(&self) -> u64 {
        self.running
    }

    /// Never more searches running than the limit allows.
    pub open spec fn wf(&self) -> bool {
        self.spec_running() <= self.spec_limit()
    }

    /// An idle group admitting up to `limit` concurrent searches.
    pub fn new(key: u64, limit: u64) -> (r: WorkGroup)
        ensures
            r.wf(),
            r.spec_key() == key,
            r.spec_limit() == limit,
            r.spec_running() == 0,
    {
        WorkGroup { key, limit, running: 0 }
    }

    /// Key identifying the group.
    pub fn key(&self) -> (r: u64)
        ensures
            r == self.spec_key(),
    {
        self.key
    }

    /// Most searches the group runs at once.
    pub fn limit(&self) -> (r: u64)
        ensures
            r == self.spec_limit(),
    {
        self.limit
    }

    /// Searches admitted and not yet released.
    pub fn running(&self) -> (r: u64)
        ensures
            r == self.spec_running(),
    {
        self.running
    }

    /// Takes a slot if one is free.
    pub fn try_admit(&mut self) -> (r: Option<AdmissionHandle>)
        requires
            old(self).wf(),
        ensures
            final(self).wf(),
            final(self).spec_key() == old(self).spec_key(),
            final(self).spec_limit() == old(self).spec_limit(),
            old(self).spec_running() < old(self).spec_limit() ==> {
                &&& r is Some
                &&& r->0.spec_group() == old(self).spec_key()
                &&& final(self).spec_running() == old(self).spec_running() + 1
            },
            old(self).spec_running() >= old(self).spec_limit() ==> r is None && final(self).spec_running()
                == old(self).spec_running(),
    {
        if self.running < self.limit {
            self.running = self.running + 1;
            Some(AdmissionHandle { group: self.key })
        } else {
            None
        }
    }

    /// One admission attempt `waited_ms` into a wait bounded by `timeout_ms`:
    /// a free slot admits; a full group times out once the wait has reached
    /// the timeout, and asks to wait otherwise.
    pub fn poll_admit(&mut self, waited_ms: u64, timeout_ms: u64) -> (r: AdmissionPoll)
        requires
            old(self).wf(),
        ensures
            final(self).wf(),
            final(self).spec_key() == old(self).spec_key(),
            final(self).spec_limit() == old(self).spec_limit(),
            old(self).spec_running() < old(self).spec_limit() ==> {
                &&& r is Admitted
                &&& r->Admitted_0.spec_group() == old(self).spec_key()
                &&& final(self).spec_running() == old(self).spec_running() + 1
            },
            old(self).spec_running() >= old(self).spec_limit() ==> {
                &&& final(self).spec_running() == old(self).spec_running()
                &&& (waited_ms >= timeout_ms ==> r is TimedOut)
                &&& (waited_ms < timeout_ms ==> r is Wait)
            },
    {
        match self.try_admit() {
            Some(h) => AdmissionPoll::Admitted(h),
            None => {
                if waited_ms >= timeout_ms {
                    AdmissionPoll::TimedOut
                } else {
                    AdmissionPoll::Wait
                }
            },
        }
    }

    /// Gives a slot back, consuming the handle. A handle of another group
    /// changes nothing, and the count never goes below zero.
    pub fn release(&mut self, handle: AdmissionHandle) -> (r: bool)
        requires
            old(self).wf(),
        ensures
            final(self).wf(),
            final(self).spec_key() == old(self).spec_key(),
            final(self).spec_limit() == old(self).spec_limit(),
            r == (handle.spec_group() == old(self).spec_key() && old(self).spec_running() > 0),
            r ==> final(self).spec_running() == old(self).spec_running() - 1,
            !r ==> final(self).spec_running() == old(self).spec_running(),
    {
        if handle.group == self.key && self.running > 0 {
            self.running = self.running - 1;
            true
        } else {
            false
        }
    }
}

} // verus!
