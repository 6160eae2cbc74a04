//! Splitting a candidate file list across the selected nodes.
use vstd::prelude::*;
use crate::node::Node;
use crate::ring::{
    HashRing, VIRTUAL_NODES, has_file_server, in_ring, key_hash, key_owner, lemma_owner_exists,
    owner_of, vnode_pos,
};

verus! {

/// One candidate file of a search.
#[derive(Debug)]
pub struct FileId {
    pub key: String,
    pub original_size: u64,
    pub compressed_size: u64,
    pub min_ts: i64,
    pub max_ts: i64,
}

impl Clone for FileId {
    fn clone(&self) -> (r: Self)
        ensures
            r == *self,
    {
        FileId {
            key: self.key.clone(),
            original_size: self.original_size,
            compressed_size: self.compressed_size,
            min_ts: self.min_ts,
            max_ts: self.max_ts,
        }
    }
}

/// `i` is the first file-serving member of `nodes` with uuid `id`.
pub open spec fn is_slot(nodes: Seq<Node>, id: u64, i: int) -> bool {
    &&& 0 <= i < nodes.len()
    &&& nodes[i].serves_files()
    &&& nodes[i].uuid == id
    &&& forall|j: int| 0 <= j < i ==> !(#[trigger] nodes[j].serves_files() && nodes[j].uuid == id)
}

/// The file `f` is routed to `nodes[i]`.
pub open spec fn routes_to(nodes: Seq<Node>, f: FileId, i: int) -> bool {
    is_slot(nodes, key_owner(nodes, f.key@), i)
}

/// The files of `files` routed to `nodes[i]`, in their original order.
pub open spec fn share_of(files: Seq<FileId>, nodes: Seq<Node>, i: int) -> Seq<FileId> {
    files.filter(|f: FileId| routes_to(nodes, f, i))
}

/// Index of the first file-serving node with the given uuid.
pub fn slot_of(nodes: &Vec<Node>, id: u64) -> (r: Option<usize>)
    ensures
        r is Some ==> is_slot(nodes@, id, r->0 as int),
        r is None ==> forall|j: int|
            0 <= j < nodes.len() ==> !(#[trigger] nodes@[j].serves_files() && nodes@[j].uuid == id),
{
    let mut i: usize = 0;
    while i < nodes.len()
        invariant
            i <= nodes.len(),
            forall|j: int| 0 <= j < i ==> !(#[trigger] nodes@[j].serves_files() && nodes@[j].uuid == id),
        decreases nodes.len() - i,
    {
        if nodes[i].takes_files() && nodes[i].uuid == id {
            return Some(i);
        }
        i = i + 1;
    }
    None
}

/// `parts` is the partition of `files` over `nodes`: one entry per node,
/// entry `i` holding the share routed to `nodes[i]`.
pub open spec fn is_partition_of(files: Seq<FileId>, nodes: Seq<Node>, parts: Seq<Vec<FileId>>) -> bool {
    &&& parts.len() == nodes.len()
    &&& forall|i: int| 0 <= i < nodes.len() ==> (#[trigger] parts[i])@ == share_of(files, nodes, i)
}

/// A node list with a file-serving member `w` of uuid `id` has a first such member.
pub proof fn lemma_slot_exists(nodes: Seq<Node>, id: u64, w: int)
    requires
        0 <= w < nodes.len(),
        nodes[w].serves_files(),
        nodes[w].uuid == id,
    ensures
        exists|i: int| is_slot(nodes, id, i),
    decreases w,
{
    if !is_slot(nodes, id, w) {
        let j = choose|j: int| 0 <= j < w && (#[trigger] nodes[j].serves_files() && nodes[j].uuid == id);
        lemma_slot_exists(nodes, id, j);
    }
}

/// With at least one file-serving node, every file routes to some node.
pub proof fn lemma_routed(nodes: Seq<Node>, f: FileId)
    requires
        has_file_server(nodes),
    ensures
        exists|i: int| routes_to(nodes, f, i),
{
    let h = key_hash(f.key@);
    lemma_owner_exists(nodes, h);
    let p = owner_of(nodes, h);
    assert(in_ring(nodes, p));
    let (w, r) = choose|w: int, r: u64|
        0 <= w < nodes.len() && w < nodes.len() && #[trigger] nodes[w].serves_files() && r < VIRTUAL_NODES
            && p == (#[trigger] vnode_pos(nodes[w].uuid, r), nodes[w].uuid);
    lemma_slot_exists(nodes, p.1, w);
    let i = choose|i: int| is_slot(nodes, p.1, i);
    assert(routes_to(nodes, f, i));
}

/// Partitioning is a function of its inputs: two partitions of the same
/// files over the same nodes hold the same shares.
pub proof fn lemma_partition_deterministic(
    files: Seq<FileId>,
    nodes: Seq<Node>,
    a: Seq<Vec<FileId>>,
    b: Seq<Vec<FileId>>,
)
    requires
        is_partition_of(files, nodes, a),
        is_partition_of(files, nodes, b),
    ensures
        a.len() == b.len(),
        forall|i: int| 0 <= i < a.len() ==> (#[trigger] a[i])@ == b[i]@,
{
}

/// A partition over nodes of which one takes files loses no file, invents
/// none, and puts no file in two shares.
pub proof fn lemma_partition_complete_disjoint(
    files: Seq<FileId>,
    nodes: Seq<Node>,
    parts: Seq<Vec<FileId>>,
)
    requires
        is_partition_of(files, nodes, parts),
        has_file_server(nodes),
    ensures
        forall|f: FileId| #[trigger] files.contains(f) ==> exists|i: int|
            0 <= i < parts.len() && #[trigger] parts[i]@.contains(f),
        forall|i: int, f: FileId| 0 <= i < parts.len() && #[trigger] parts[i]@.contains(f) ==> files.contains(f),
        forall|i: int, j: int, f: FileId|
            0 <= i < parts.len() && 0 <= j < parts.len() && #[trigger] parts[i]@.contains(f)
                && #[trigger] parts[j]@.contains(f) ==> i == j,
{
    broadcast use vstd::seq_lib::group_filter_ensures;

    assert forall|f: FileId| #[trigger] files.contains(f) implies exists|i: int|
        0 <= i < parts.len() && #[trigger] parts[i]@.contains(f) by {
        let k = choose|k: int| 0 <= k < files.len() && files[k] == f;
        lemma_routed(nodes, f);
        let i = choose|i: int| routes_to(nodes, f, i);
        files.lemma_filter_contains(|g: FileId| routes_to(nodes, g, i), k);
        assert(parts[i]@ == share_of(files, nodes, i));
        assert(0 <= i < parts.len() && parts[i]@.contains(files[k]));
    }
    assert forall|i: int, f: FileId| 0 <= i < parts.len() && #[trigger] parts[i]@.contains(f) implies files.contains(f) by {
        assert(parts[i]@ == share_of(files, nodes, i));
        files.lemma_filter_contains_rev(|g: FileId| routes_to(nodes, g, i), f);
    }
    assert forall|i: int, j: int, f: FileId|
        0 <= i < parts.len() && 0 <= j < parts.len() && #[trigger] parts[i]@.contains(f)
            && #[trigger] parts[j]@.contains(f) implies i == j by {
        assert(parts[i]@ == share_of(files, nodes, i));
        assert(parts[j]@ == share_of(files, nodes, j));
        let a = choose|a: int| 0 <= a < parts[i]@.len() && parts[i]@[a] == f;
        let b = choose|b: int| 0 <= b < parts[j]@.len() && parts[j]@[b] == f;
        files.lemma_filter_pred(|g: FileId| routes_to(nodes, g, i), a);
        files.lemma_filter_pred(|g: FileId| routes_to(nodes, g, j), b);
        lemma_slot_unique(nodes, f, i, j);
    }
}

/// Whether some member of `nodes` takes files.
pub fn any_file_server(nodes: &Vec<Node>) -> (r: bool)
    ensures
        r == has_file_server(nodes@),
{
    let mut i: usize = 0;
    while i < nodes.len()
        invariant
            i <= nodes.len(),
            forall|j: int| 0 <= j < i ==> !(#[trigger] nodes@[j].serves_files()),
        decreases nodes.len() - i,
    {
        if nodes[i].takes_files() {
            return true;
        }
        i = i + 1;
    }
    false
}

/// Every file routes to exactly one node: the first file-serving node
/// whose uuid owns the file key's ring position.
pub proof fn lemma_slot_unique(nodes: Seq<Node>, f: FileId, i: int, j: int)
    requires
        routes_to(nodes, f, i),
        routes_to(nodes, f, j),
    ensures
        i == j,
{
    if i < j {
        assert(nodes[i].serves_files());
    }
    if j < i {
        assert(nodes[j].serves_files());
    }
}

/// Splits `files` into one list per node, index-aligned with `nodes`:
/// entry `i` holds, in input order, the files whose key routes to
/// `nodes[i]`. Nodes that do not take files get an empty entry. `None` when
/// no node takes files.
pub fn partition_file_list(files: &Vec<FileId>, nodes: &Vec<Node>) -> (r: Option<Vec<Vec<FileId>>>)
    ensures
        r is None <==> !has_file_server(nodes@),
        r is Some ==> is_partition_of(files@, nodes@, r->0@),
{
    if !any_file_server(nodes) {
        return None;
    }
    let ring = HashRing::new(nodes);
    let mut out: Vec<Vec<FileId>> = Vec::new();
    let mut i: usize = 0;
    while i < nodes.len()
        invariant
            i <= nodes.len(),
            out.len() == i,
            forall|s: int| 0 <= s < i ==> (#[trigger] out[s])@ == Seq::<FileId>::empty(),
        decreases nodes.len() - i,
    {
        out.push(Vec::new());
        i = i + 1;
    }
    let mut k: usize = 0;
    while k < files.len()
        invariant
            ring.wf(),
            ring@ == nodes@,
            k <= files.len(),
            out.len() == nodes.len(),
            forall|s: int|
                0 <= s < nodes.len() ==> (#[trigger] out[s])@ == files@.take(k as int).filter(
                    |f: FileId| routes_to(nodes@, f, s),
                ),
        decreases files.len() - k,
    {
        let id = match ring.node_for_key(files[k].key.as_str()) {
            Some(id) => id,
            None => {
                return None;
            },
        };
        let ghost f = files@[k as int];
        let slot = match slot_of(nodes, id) {
            Some(s) => s,
            None => {
                proof {
                    let h = key_hash(f.key@);
                    let p = owner_of(nodes@, h);
                    let (w, r) = choose|w: int, r: u64|
                        0 <= w < nodes@.len() && w < nodes@.len() && #[trigger] nodes@[w].serves_files()
                            && r < VIRTUAL_NODES && p == (#[trigger] vnode_pos(nodes@[w].uuid, r), nodes@[w].uuid);
                    assert(nodes@[w].serves_files() && nodes@[w].uuid == id);
                }
                return None;
            },
        };
        let ghost before = out@;
        out[slot].push(files[k].clone());
        proof {
            reveal(Seq::filter);
            assert forall|s: int|
                0 <= s < nodes.len() implies (#[trigger] out[s])@ == files@.take(k + 1).filter(
                    |f: FileId| routes_to(nodes@, f, s),
                ) by {
                assert(files@.take(k + 1).drop_last() =~= files@.take(k as int));
                assert(files@.take(k + 1).last() == f);
                if s != slot {
                    assert(out[s] == before[s]);
                    if routes_to(nodes@, f, s) {
                        lemma_slot_unique(nodes@, f, s, slot as int);
                    }
                }
            }
        }
        k = k + 1;
    }
    assert(files@.take(files.len() as int) =~= files@);
    Some(out)
}

} // verus!
