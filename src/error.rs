//! Errors a search coordination attempt can end with.
use vstd::prelude::*;

verus! {

/// Why a coordination attempt failed; none is retried here.
#[derive(Clone, Copy, Debug, PartialEq, Eq, Structural)]
pub enum SearchErrorKind {
    /// The plan bytes could not be decoded.
    PlanDecode,
    /// The plan does not hold exactly one placeholder scan.
    PlanMalformed,
    /// No file-serving querier is online for the requested role group.
    NoAvailableNode,
    /// The work group had no free slot within the admission timeout.
    AdmissionTimeout,
    /// The file catalog could not list the candidate files.
    Catalog,
    /// The membership provider could not list the nodes.
    Cluster,
}

/// A failed attempt, tagged with the request trace id.
#[derive(Debug)]
pub struct SearchError {
    pub trace_id: String,
    pub kind: SearchErrorKind,
}

impl SearchError {
    /// An error of `kind` for the request `trace_id`.
    pub fn new(trace_id: &String, kind: SearchErrorKind) -> (r: SearchError)
        ensures
            r.trace_id@ == trace_id@,
            r.kind == kind,
    {
        SearchError { trace_id: trace_id.clone(), kind }
    }
}

} // verus!
