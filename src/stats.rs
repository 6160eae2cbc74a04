//! Aggregate scan counters of a search.
use vstd::prelude::*;
use crate::node::Node;
use crate::partition::{FileId, is_partition_of, lemma_routed, lemma_slot_unique, routes_to, share_of};
use crate::ring::has_file_server;

verus! {

/// Size and cost counters of a search's data scan.
#[derive(Clone, Copy, Debug, PartialEq, Eq, Structural)]
pub struct ScanStats {
    pub files: u64,
    pub records: u64,
    pub original_size: u64,
    pub compressed_size: u64,
    pub file_list_took: u64,
}

/// Sum of the original sizes of `files`.
pub open spec fn total_original_size(files: Seq<FileId>) -> nat
    decreases files.len(),
{
    if files.len() == 0 {
        0
    } else {
        total_original_size(files.drop_last()) + files.last().original_size as nat
    }
}

/// Sum of the compressed sizes of `files`.
pub open spec fn total_compressed_size(files: Seq<FileId>) -> nat
    decreases files.len(),
{
    if files.len() == 0 {
        0
    } else {
        total_compressed_size(files.drop_last()) + files.last().compressed_size as nat
    }
}

/// `n`, or `u64::MAX` when it does not fit.
pub open spec fn saturate(n: nat) -> u64 {
    if n <= u64::MAX {
        n as u64
    } else {
        u64::MAX
    }
}

impl ScanStats {
    /// The counters of a candidate file list found in `took_ms`: file count
    /// and byte totals, each held at `u64::MAX` if it overflows.
    pub fn for_file_list(files: &Vec<FileId>, took_ms: u64) -> (r: ScanStats)
        ensures
            r.files == files.len(),
            r.records == 0,
            r.original_size == saturate(total_original_size(files@)),
            r.compressed_size == saturate(total_compressed_size(files@)),
            r.file_list_took == took_ms,
    {
        let mut original: u64 = 0;
        let mut compressed: u64 = 0;
        let mut k: usize = 0;
        while k < files.len()
            invariant
                k <= files.len(),
                original == saturate(total_original_size(files@.take(k as int))),
                compressed == saturate(total_compressed_size(files@.take(k as int))),
            decreases files.len() - k,
        {
            assert(files@.take(k + 1).drop_last() =~= files@.take(k as int));
            original = original.saturating_add(files[k].original_size);
            compressed = compressed.saturating_add(files[k].compressed_size);
            k = k + 1;
        }
        assert(files@.take(k as int) =~= files@);
        ScanStats {
            files: files.len() as u64,
            records: 0,
            original_size: original,
            compressed_size: compressed,
            file_list_took: took_ms,
        }
    }

    /// The counters handed back by a coordinating node, which scans no bytes
    /// itself: everything zeroed but the time spent listing files.
    pub fn handoff(&self) -> (r: ScanStats)
        ensures
            r.files == 0,
            r.records == 0,
            r.original_size == 0,
            r.compressed_size == 0,
            r.file_list_took == self.file_list_took,
    {
        ScanStats { files: 0, records: 0, original_size: 0, compressed_size: 0, file_list_took: self.file_list_took }
    }
}

/// Sum of the original sizes of the shares of `nodes[..n]`.
pub open spec fn shares_original_size(parts: Seq<Vec<FileId>>, n: int) -> nat
    decreases n,
{
    if n <= 0 {
        0
    } else {
        shares_original_size(parts, n - 1) + total_original_size(parts[n - 1]@)
    }
}

/// Sum over `i < n` of the share sizes of `files` routed to `nodes[i]`.
pub open spec fn routed_size_upto(files: Seq<FileId>, nodes: Seq<Node>, n: int) -> nat
    decreases n,
{
    if n <= 0 {
        0
    } else {
        routed_size_upto(files, nodes, n - 1) + total_original_size(share_of(files, nodes, n - 1))
    }
}

proof fn lemma_share_push(files: Seq<FileId>, nodes: Seq<Node>, i: int)
    requires
        files.len() > 0,
    ensures
        total_original_size(share_of(files, nodes, i)) == total_original_size(share_of(files.drop_last(), nodes, i))
            + if routes_to(nodes, files.last(), i) {
            files.last().original_size as nat
        } else {
            0nat
        },
{
    reveal(Seq::filter);
    let sub = share_of(files.drop_last(), nodes, i);
    if routes_to(nodes, files.last(), i) {
        assert(share_of(files, nodes, i) == sub.push(files.last()));
        assert(sub.push(files.last()).drop_last() =~= sub);
    }
}

proof fn lemma_routed_size_step(files: Seq<FileId>, nodes: Seq<Node>, n: int)
    requires
        files.len() > 0,
        0 <= n <= nodes.len(),
    ensures
        routed_size_upto(files, nodes, n) == routed_size_upto(files.drop_last(), nodes, n) + if exists|i: int|
            0 <= i < n && routes_to(nodes, files.last(), i) {
            files.last().original_size as nat
        } else {
            0nat
        },
    decreases n,
{
    if n > 0 {
        lemma_routed_size_step(files, nodes, n - 1);
        lemma_share_push(files, nodes, n - 1);
        let x = files.last();
        if routes_to(nodes, x, n - 1) {
            assert forall|i: int| 0 <= i < n - 1 implies !routes_to(nodes, x, i) by {
                if routes_to(nodes, x, i) {
                    lemma_slot_unique(nodes, x, i, n - 1);
                }
            }
        }
        if exists|i: int| 0 <= i < n && routes_to(nodes, x, i) {
            if !routes_to(nodes, x, n - 1) {
                let i = choose|i: int| 0 <= i < n && routes_to(nodes, x, i);
                assert(0 <= i < n - 1);
            }
        }
    }
}

proof fn lemma_routed_size_total(files: Seq<FileId>, nodes: Seq<Node>)
    requires
        has_file_server(nodes),
    ensures
        routed_size_upto(files, nodes, nodes.len() as int) == total_original_size(files),
    decreases files.len(),
{
    if files.len() == 0 {
        assert forall|i: int| 0 <= i < nodes.len() implies share_of(files, nodes, i) =~= Seq::<FileId>::empty() by {
            reveal(Seq::filter);
        }
        lemma_routed_size_zero(files, nodes, nodes.len() as int);
    } else {
        lemma_routed_size_total(files.drop_last(), nodes);
        lemma_routed_size_step(files, nodes, nodes.len() as int);
        lemma_routed(nodes, files.last());
        let i = choose|i: int| routes_to(nodes, files.last(), i);
        assert(0 <= i < nodes.len() && routes_to(nodes, files.last(), i));
    }
}

proof fn lemma_routed_size_zero(files: Seq<FileId>, nodes: Seq<Node>, n: int)
    requires
        files.len() == 0,
        n <= nodes.len(),
    ensures
        routed_size_upto(files, nodes, n) == 0,
    decreases n,
{
    if n > 0 {
        reveal(Seq::filter);
        assert(share_of(files, nodes, n - 1) =~= Seq::<FileId>::empty());
        lemma_routed_size_zero(files, nodes, n - 1);
    }
}

proof fn lemma_shares_match(files: Seq<FileId>, nodes: Seq<Node>, parts: Seq<Vec<FileId>>, n: int)
    requires
        is_partition_of(files, nodes, parts),
        n <= nodes.len(),
    ensures
        shares_original_size(parts, n) == routed_size_upto(files, nodes, n),
    decreases n,
{
    if n > 0 {
        lemma_shares_match(files, nodes, parts, n - 1);
        assert(parts[n - 1]@ == share_of(files, nodes, n - 1));
    }
}

/// Byte accounting survives partitioning: the original sizes of all shares
/// add up to the original size of the whole file list.
pub proof fn lemma_partition_preserves_bytes(files: Seq<FileId>, nodes: Seq<Node>, parts: Seq<Vec<FileId>>)
    requires
        is_partition_of(files, nodes, parts),
        has_file_server(nodes),
    ensures
        shares_original_size(parts, parts.len() as int) == total_original_size(files),
{
    lemma_shares_match(files, nodes, parts, nodes.len() as int);
    lemma_routed_size_total(files, nodes);
}

} // verus!
