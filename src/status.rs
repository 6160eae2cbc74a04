//! Node health answers.
use vstd::prelude::*;
use vstd::string::StringExecFns;
use crate::node::{Node, NodeStatus};

verus! {

/// Body of a health answer.
#[derive(Debug)]
pub struct HealthzResponse {
    pub status: String,
}

impl HealthzResponse {
    /// The healthy answer, "ok".
    pub fn ok() -> (r: HealthzResponse)
        ensures
            r.status@ == "ok"@,
    {
        HealthzResponse { status: String::from_str("ok") }
    }

    /// The unhealthy answer, "not ok".
    pub fn not_ok() -> (r: HealthzResponse)
        ensures
            r.status@ == "not ok"@,
    {
        HealthzResponse { status: String::from_str("not ok") }
    }
}

/// Liveness: a node that answers is healthy.
pub fn healthz() -> (r: HealthzResponse)
    ensures
        r.status@ == "ok"@,
{
    HealthzResponse::ok()
}

/// Whether the local node, as the membership provider last saw it, may take
/// scheduled work: it must be known, schedulable and online.
pub open spec fn is_schedulable(node: Option<Node>) -> bool {
    match node {
        Some(n) => n.schedulable && n.status == NodeStatus::Online,
        None => false,
    }
}

/// Scheduling readiness of the local node: `true` with "ok" when it may take
/// scheduled work, `false` with "not ok" otherwise.
pub fn schedulez(node: Option<&Node>) -> (r: (bool, HealthzResponse))
    ensures
        r.0 == is_schedulable(match node {
            Some(n) => Some(*n),
            None => None,
        }),
        r.0 ==> r.1.status@ == "ok"@,
        !r.0 ==> r.1.status@ == "not ok"@,
{
    match node {
        Some(n) => {
            if n.schedulable && n.status == NodeStatus::Online {
                (true, HealthzResponse::ok())
            } else {
                (false, HealthzResponse::not_ok())
            }
        },
        None => (false, HealthzResponse::not_ok()),
    }
}

} // verus!
