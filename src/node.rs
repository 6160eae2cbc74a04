//! Cluster nodes and the membership view the coordinator works from.
use vstd::prelude::*;

verus! {

/// Workload class of a query node.
#[derive(Clone, Copy, Debug, PartialEq, Eq, Structural)]
pub enum RoleGroup {
    Interactive,
    Background,
}

/// Liveness as last reported by the membership provider.
#[derive(Clone, Copy, Debug, PartialEq, Eq, Structural)]
pub enum NodeStatus {
    Online,
    Offline,
}

/// One cluster member.
#[derive(Debug)]
pub struct Node {
    pub uuid: u64,
    pub name: String,
    pub is_ingester: bool,
    pub is_querier: bool,
    pub role_group: RoleGroup,
    pub status: NodeStatus,
    pub schedulable: bool,
}

impl Clone for Node {
    fn clone(&self) -> (r: Self)
        ensures
            r == *self,
    {
        Node {
            uuid: self.uuid,
            name: self.name.clone(),
            is_ingester: self.is_ingester,
            is_querier: self.is_querier,
            role_group: self.role_group,
            status: self.status,
            schedulable: self.schedulable,
        }
    }
}

impl Node {
    /// A node takes a share of the file list when it queries and does not
    /// ingest: an ingesting node serves its own not-yet-compacted files.
    pub open spec fn serves_files(&self) -> bool {
        self.is_querier && !self.is_ingester
    }

    /// Whether this node takes a share of the file list.
    pub fn takes_files(&self) -> (r: bool)
        ensures
            r == self.serves_files(),
    {
        self.is_querier && !self.is_ingester
    }
}

/// Whether a node is eligible for a search of the given role group.
pub open spec fn selectable(n: Node, role_group: RoleGroup) -> bool {
    n.status == NodeStatus::Online && n.role_group == role_group
}

/// The online members of a role group, in membership order.
pub fn online_nodes(all: &Vec<Node>, role_group: RoleGroup) -> (r: Vec<Node>)
    ensures
        r@ == all@.filter(|n: Node| selectable(n, role_group)),
{
    let mut r: Vec<Node> = Vec::new();
    let mut i: usize = 0;
    while i < all.len()
        invariant
            i <= all.len(),
            r@ == all@.take(i as int).filter(|n: Node| selectable(n, role_group)),
        decreases all.len() - i,
    {
        proof {
            reveal(Seq::filter);
            assert(all@.take(i + 1).drop_last() =~= all@.take(i as int));
        }
        if all[i].status == NodeStatus::Online && all[i].role_group == role_group {
            r.push(all[i].clone());
        }
        i = i + 1;
    }
    assert(all@.take(all.len() as int) =~= all@);
    r
}

} // verus!
