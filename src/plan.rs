//! Physical plan trees and the remote-scan rewrite.
use vstd::prelude::*;
use crate::node::Node;
use crate::partition::FileId;
use crate::error::{SearchError, SearchErrorKind};

verus! {

broadcast use vstd::std_specs::vec::group_vec_axioms;

/// Operator kinds of a decoded physical plan.
#[derive(Debug)]
pub enum PlanNode {
    /// Stands in for "read this stream"; bound at coordination time.
    Placeholder { stream: String },
    /// Merges already-sorted inputs, keeping the global order.
    SortPreservingMerge { input: Box<PlanNode> },
    /// Fans `input` out to the target nodes and streams their results back.
    RemoteScan { input: Box<PlanNode> },
    /// Any other operator, by name, with its inputs.
    Other { name: String, children: Vec<PlanNode> },
}

/// Placeholder scans in the locally executed part of a plan (what runs under
/// a remote scan executes on the target nodes and is not counted).
pub open spec fn placeholder_count(p: PlanNode) -> nat
    decreases p,
{
    match p {
        PlanNode::Placeholder { .. } => 1,
        PlanNode::SortPreservingMerge { input } => placeholder_count(*input),
        PlanNode::RemoteScan { .. } => 0,
        PlanNode::Other { children, .. } => placeholder_count_seq(children@),
    }
}

/// Placeholder scans of a list of sibling plans.
pub open spec fn placeholder_count_seq(s: Seq<PlanNode>) -> nat
    decreases s,
{
    if s.len() == 0 {
        0
    } else {
        placeholder_count_seq(s.drop_last()) + placeholder_count(s.last())
    }
}

/// Remote-scan operators in the locally executed part of a plan.
pub open spec fn remote_scan_count(p: PlanNode) -> nat
    decreases p,
{
    match p {
        PlanNode::Placeholder { .. } => 0,
        PlanNode::SortPreservingMerge { input } => remote_scan_count(*input),
        PlanNode::RemoteScan { .. } => 1,
        PlanNode::Other { children, .. } => remote_scan_count_seq(children@),
    }
}

/// Remote-scan operators of a list of sibling plans.
pub open spec fn remote_scan_count_seq(s: Seq<PlanNode>) -> nat
    decreases s,
{
    if s.len() == 0 {
        0
    } else {
        remote_scan_count_seq(s.drop_last()) + remote_scan_count(s.last())
    }
}

/// Stream names of the placeholder scans in the locally executed part of a
/// plan, in depth-first, left-to-right order.
pub open spec fn placeholder_streams(p: PlanNode) -> Seq<Seq<char>>
    decreases p,
{
    match p {
        PlanNode::Placeholder { stream } => seq![stream@],
        PlanNode::SortPreservingMerge { input } => placeholder_streams(*input),
        PlanNode::RemoteScan { .. } => Seq::empty(),
        PlanNode::Other { children, .. } => placeholder_streams_seq(children@),
    }
}

/// Placeholder stream names of a list of sibling plans, in order.
pub open spec fn placeholder_streams_seq(s: Seq<PlanNode>) -> Seq<Seq<char>>
    decreases s,
{
    if s.len() == 0 {
        Seq::empty()
    } else {
        placeholder_streams_seq(s.drop_last()) + placeholder_streams(s.last())
    }
}

/// One stream name per placeholder scan.
pub proof fn lemma_streams_count(p: PlanNode)
    ensures
        placeholder_streams(p).len() == placeholder_count(p),
    decreases p,
{
    match p {
        PlanNode::SortPreservingMerge { input } => lemma_streams_count(*input),
        PlanNode::Other { children, .. } => lemma_streams_count_seq(children@),
        _ => {},
    }
}

/// One stream name per placeholder scan, over sibling plans.
pub proof fn lemma_streams_count_seq(s: Seq<PlanNode>)
    ensures
        placeholder_streams_seq(s).len() == placeholder_count_seq(s),
    decreases s,
{
    if s.len() > 0 {
        lemma_streams_count_seq(s.drop_last());
        lemma_streams_count(s.last());
    }
}

proof fn lemma_streams_seq_append(a: Seq<PlanNode>, b: Seq<PlanNode>)
    ensures
        placeholder_streams_seq(a + b) == placeholder_streams_seq(a) + placeholder_streams_seq(b),
    decreases b.len(),
{
    if b.len() == 0 {
        assert(a + b =~= a);
        assert(placeholder_streams_seq(a) + Seq::<Seq<char>>::empty() =~= placeholder_streams_seq(a));
    } else {
        assert((a + b).drop_last() =~= a + b.drop_last());
        assert((a + b).last() == b.last());
        lemma_streams_seq_append(a, b.drop_last());
        assert(placeholder_streams_seq(a) + placeholder_streams_seq(b.drop_last()) + placeholder_streams(b.last())
            =~= placeholder_streams_seq(a) + (placeholder_streams_seq(b.drop_last()) + placeholder_streams(b.last())));
    }
}

/// Stream of the first placeholder scan of the locally executed part, if any.
pub fn placeholder_stream(p: &PlanNode) -> (r: Option<String>)
    ensures
        placeholder_streams(*p).len() == 0 ==> r is None,
        placeholder_streams(*p).len() > 0 ==> r is Some && r->0@ == placeholder_streams(*p)[0],
    decreases p,
{
    match p {
        PlanNode::Placeholder { stream } => Some(stream.clone()),
        PlanNode::SortPreservingMerge { input } => placeholder_stream(input),
        PlanNode::RemoteScan { .. } => None,
        PlanNode::Other { children, .. } => {
            let mut k: usize = 0;
            while k < children.len()
                invariant
                    *p is Other,
                    (*p)->children == *children,
                    k <= children@.len(),
                    placeholder_streams_seq(children@.take(k as int)).len() == 0,
                decreases children@.len() - k,
            {
                proof {
                    assert(decreases_to!(*p => (*p)->children));
                    assert(decreases_to!((*p)->children => (*p)->children@));
                    assert(decreases_to!((*p)->children@ => (*p)->children@[k as int]));
                }
                assert(children@.take(k + 1).drop_last() =~= children@.take(k as int));
                let found = placeholder_stream(&children[k]);
                if let Some(name) = found {
                    proof {
                        let a = children@.take(k + 1);
                        let b = children@.subrange(k + 1, children@.len() as int);
                        assert(children@ =~= a + b);
                        lemma_streams_seq_append(a, b);
                        assert(placeholder_streams_seq(a) =~= placeholder_streams(children@[k as int]));
                    }
                    return Some(name);
                }
                k = k + 1;
            }
            assert(children@.take(k as int) =~= children@);
            None
        },
    }
}

/// `n`, held at 2 once it reaches 2.
pub open spec fn capped(n: nat) -> nat {
    if n < 2 {
        n
    } else {
        2
    }
}

/// Counts placeholder scans, stopping at 2: enough to tell none, one and
/// several apart.
pub fn count_placeholders(p: &PlanNode) -> (r: u64)
    ensures
        r as nat == capped(placeholder_count(*p)),
    decreases p,
{
    match p {
        PlanNode::Placeholder { .. } => 1,
        PlanNode::SortPreservingMerge { input } => count_placeholders(input),
        PlanNode::RemoteScan { .. } => 0,
        PlanNode::Other { children, .. } => {
            let mut acc: u64 = 0;
            let mut k: usize = 0;
            while k < children.len()
                invariant
                    *p is Other,
                    (*p)->children == *children,
                    k <= children@.len(),
                    acc as nat == capped(placeholder_count_seq(children@.take(k as int))),
                decreases children@.len() - k,
            {
                assert(children@.take(k + 1).drop_last() =~= children@.take(k as int));
                proof {
                    assert(decreases_to!(*p => (*p)->children));
                    assert(decreases_to!((*p)->children => (*p)->children@));
                    assert(decreases_to!((*p)->children@ => (*p)->children@[k as int]));
                }
                let c = count_placeholders(&children[k]);
                acc = if acc + c >= 2 {
                    2
                } else {
                    acc + c
                };
                k = k + 1;
            }
            assert(children@.take(k as int) =~= children@);
            acc
        },
    }
}

/// `q` is `p` with every placeholder scan `s` of its locally executed part
/// replaced in place by a remote scan of `s`.
pub open spec fn spliced(p: PlanNode, q: PlanNode) -> bool
    decreases p,
{
    match p {
        PlanNode::Placeholder { .. } => q == PlanNode::RemoteScan { input: Box::new(p) },
        PlanNode::SortPreservingMerge { input } => match q {
            PlanNode::SortPreservingMerge { input: q_input } => spliced(*input, *q_input),
            _ => false,
        },
        PlanNode::RemoteScan { .. } => q == p,
        PlanNode::Other { name, children } => match q {
            PlanNode::Other { name: q_name, children: q_children } => {
                &&& q_name == name
                &&& q_children.len() == children.len()
                &&& forall|i: int|
                    0 <= i < children.len() ==> spliced(#[trigger] children@[i], q_children@[i])
            },
            _ => false,
        },
    }
}

/// Replaces every placeholder scan in the locally executed part of `p` by a
/// remote scan wrapping it.
pub fn splice(p: PlanNode) -> (q: PlanNode)
    ensures
        spliced(p, q),
        placeholder_count(q) == 0,
        remote_scan_count(q) == remote_scan_count(p) + placeholder_count(p),
    decreases p,
{
    match p {
        PlanNode::Placeholder { stream } => PlanNode::RemoteScan {
            input: Box::new(PlanNode::Placeholder { stream }),
        },
        PlanNode::SortPreservingMerge { input } => PlanNode::SortPreservingMerge {
            input: Box::new(splice(*input)),
        },
        PlanNode::RemoteScan { input } => PlanNode::RemoteScan { input },
        PlanNode::Other { name, children } => {
            let ghost orig = children@;
            assert(orig == p->children@);
            let n = children.len();
            let mut rest = children;
            let mut out: Vec<PlanNode> = Vec::new();
            let mut k: usize = 0;
            while k < n
                invariant
                    p is Other,
                    orig == p->children@,
                    n == orig.len(),
                    k <= n,
                    rest@ == orig.subrange(k as int, n as int),
                    out@.len() == k,
                    forall|i: int| 0 <= i < k ==> spliced(#[trigger] orig[i], out@[i]),
                    placeholder_count_seq(out@) == 0,
                    remote_scan_count_seq(out@) == remote_scan_count_seq(orig.take(k as int))
                        + placeholder_count_seq(orig.take(k as int)),
                decreases n - k,
            {
                let c = rest.remove(0);
                assert(c == orig[k as int]);
                proof {
                    assert(decreases_to!(p => p->children));
                    assert(decreases_to!(p->children => p->children@));
                    assert(decreases_to!(p->children@ => p->children@[k as int]));
                }
                let q = splice(c);
                let ghost before = out@;
                out.push(q);
                assert(out@.drop_last() =~= before);
                assert(orig.take(k + 1).drop_last() =~= orig.take(k as int));
                k = k + 1;
            }
            assert(orig.take(n as int) =~= orig);
            PlanNode::Other { name, children: out }
        },
    }
}

/// Where and how a remote scan fans out: target nodes, the file share of
/// each (index-aligned with `nodes`), time range, timeout, cache use and
/// histogram bucket width.
#[derive(Debug)]
pub struct RemoteScanSpec {
    pub nodes: Vec<Node>,
    pub partitions: Vec<Vec<FileId>>,
    pub start_time: i64,
    pub end_time: i64,
    pub timeout: u64,
    pub use_cache: bool,
    pub histogram_interval: i64,
}

/// A rewritten plan: `root` holds one remote-scan operator, which fans out
/// as `scan` describes.
#[derive(Debug)]
pub struct SearchPlan {
    pub root: PlanNode,
    pub scan: RemoteScanSpec,
}

/// The result of rewriting a plan with exactly one placeholder scan: under an
/// order-preserving merge root the remote scan becomes the merge's sole child
/// (wrapping the merge's former input); otherwise it replaces the
/// placeholder in place.
pub open spec fn rewritten(p: PlanNode, q: PlanNode) -> bool {
    match p {
        PlanNode::SortPreservingMerge { input } => q == PlanNode::SortPreservingMerge {
            input: Box::new(PlanNode::RemoteScan { input }),
        },
        _ => spliced(p, q),
    }
}

/// Rewrites a decoded plan to fan out through a remote scan. Fails with
/// `PlanMalformed` unless the plan holds exactly one placeholder scan.
pub fn build_plan(trace_id: &String, root: PlanNode, scan: RemoteScanSpec) -> (r: Result<SearchPlan, SearchError>)
    ensures
        r is Err <==> placeholder_count(root) != 1,
        r is Err ==> r->Err_0.kind == SearchErrorKind::PlanMalformed && r->Err_0.trace_id@ == trace_id@,
        r is Ok ==> r->Ok_0.scan == scan && rewritten(root, r->Ok_0.root),
        r is Ok ==> placeholder_count(r->Ok_0.root) == 0,
        r is Ok && root is SortPreservingMerge ==> remote_scan_count(r->Ok_0.root) == 1,
        r is Ok && !(root is SortPreservingMerge) ==> remote_scan_count(r->Ok_0.root) == remote_scan_count(root) + 1,
{
    if count_placeholders(&root) != 1 {
        return Err(SearchError::new(trace_id, SearchErrorKind::PlanMalformed));
    }
    let new_root = match root {
        PlanNode::SortPreservingMerge { input } => {
            let scan_node = PlanNode::RemoteScan { input };
            assert(placeholder_count(scan_node) == 0 && remote_scan_count(scan_node) == 1);
            PlanNode::SortPreservingMerge { input: Box::new(scan_node) }
        },
        other => splice(other),
    };
    Ok(SearchPlan { root: new_root, scan })
}

} // verus!
