//! The search coordinator: node selection, remote-scan assembly, and the
//! state machine that orders the phases of one search and guarantees that an
//! admitted search releases its work-group slot exactly once.
use vstd::prelude::*;
use crate::error::{SearchError, SearchErrorKind};
use crate::node::{Node, RoleGroup, online_nodes, selectable};
use crate::partition::{FileId, any_file_server, is_partition_of, partition_file_list};
use crate::plan::RemoteScanSpec;
use crate::ring::has_file_server;

verus! {

/// The first querier of `nodes`, if any, as a list of at most one node.
pub open spec fn first_querier(nodes: Seq<Node>) -> Seq<Node> {
    let q = nodes.filter(|n: Node| n.is_querier);
    if q.len() == 0 {
        Seq::empty()
    } else {
        seq![q[0]]
    }
}

/// Local mode pins a search to the local node when it is a querier, and to
/// a single arbitrary querier otherwise.
pub open spec fn pinned(nodes: Seq<Node>, local: Node) -> Seq<Node> {
    if local.is_querier {
        nodes.filter(|n: Node| n.name@ == local.name@)
    } else {
        first_querier(nodes)
    }
}

/// The node list a search fans out to, before the querier check.
pub open spec fn selection(all: Seq<Node>, role_group: RoleGroup, local_mode: bool, local: Node) -> Seq<Node> {
    let online = all.filter(|n: Node| selectable(n, role_group));
    if local_mode {
        pinned(online, local)
    } else {
        online
    }
}

/// Keeps the nodes named like `local`.
fn retain_named(nodes: &Vec<Node>, local: &Node) -> (r: Vec<Node>)
    ensures
        r@ == nodes@.filter(|n: Node| n.name@ == local.name@),
{
    let mut r: Vec<Node> = Vec::new();
    let mut i: usize = 0;
    while i < nodes.len()
        invariant
            i <= nodes.len(),
            r@ == nodes@.take(i as int).filter(|n: Node| n.name@ == local.name@),
        decreases nodes.len() - i,
    {
        proof {
            reveal(Seq::filter);
            assert(nodes@.take(i + 1).drop_last() =~= nodes@.take(i as int));
        }
        if nodes[i].name == local.name {
            r.push(nodes[i].clone());
        }
        i = i + 1;
    }
    assert(nodes@.take(nodes.len() as int) =~= nodes@);
    r
}

/// The first querier of `nodes`, or nothing.
fn take_first_querier(nodes: &Vec<Node>) -> (r: Vec<Node>)
    ensures
        r@ == first_querier(nodes@),
{
    let ghost pred = |n: Node| n.is_querier;
    let mut i: usize = 0;
    while i < nodes.len()
        invariant
            i <= nodes.len(),
            pred == (|n: Node| n.is_querier),
            nodes@.take(i as int).filter(pred) =~= Seq::<Node>::empty(),
        decreases nodes.len() - i,
    {
        proof {
            reveal(Seq::filter);
            assert(nodes@.take(i + 1).drop_last() =~= nodes@.take(i as int));
        }
        if nodes[i].is_querier {
            proof {
                let a = nodes@.take(i + 1);
                let b = nodes@.subrange(i + 1, nodes@.len() as int);
                assert(a.filter(pred) =~= seq![nodes@[i as int]]);
                assert(nodes@ =~= a + b);
                Seq::filter_distributes_over_add(a, b, pred);
            }
            return vec![nodes[i].clone()];
        }
        i = i + 1;
    }
    assert(nodes@.take(nodes.len() as int) =~= nodes@);
    Vec::new()
}

/// The nodes a search fans out to: the online members of the role group,
/// narrowed by local mode. Fails with `NoAvailableNode` when none of them
/// takes files.
pub fn select_nodes(
    trace_id: &String,
    all: &Vec<Node>,
    role_group: RoleGroup,
    local_mode: bool,
    local: &Node,
) -> (r: Result<Vec<Node>, SearchError>)
    ensures
        r is Ok <==> has_file_server(selection(all@, role_group, local_mode, *local)),
        r is Ok ==> r->Ok_0@ == selection(all@, role_group, local_mode, *local),
        r is Err ==> r->Err_0.kind == SearchErrorKind::NoAvailableNode && r->Err_0.trace_id@ == trace_id@,
{
    let online = online_nodes(all, role_group);
    let nodes = if local_mode {
        if local.is_querier {
            retain_named(&online, local)
        } else {
            take_first_querier(&online)
        }
    } else {
        online
    };
    if !any_file_server(&nodes) {
        return Err(SearchError::new(trace_id, SearchErrorKind::NoAvailableNode));
    }
    Ok(nodes)
}

/// Kind of data a stream holds.
#[derive(Clone, Copy, Debug, PartialEq, Eq, Structural)]
pub enum StreamType {
    Logs,
    Metrics,
    Traces,
    EnrichmentTables,
    Metadata,
    Index,
}

/// One search as handed to the coordinator.
#[derive(Debug)]
pub struct SearchRequest {
    pub trace_id: String,
    pub org_id: String,
    pub stream_type: StreamType,
    pub time_range: Option<(i64, i64)>,
    pub timeout: u64,
    pub use_cache: bool,
    pub histogram_interval: i64,
    pub role_group: Option<RoleGroup>,
    pub local_mode: bool,
}

impl SearchRequest {
    /// The role group to search in: the hint, or `Interactive` without one.
    pub open spec fn spec_role_group(&self) -> RoleGroup {
        match self.role_group {
            Some(g) => g,
            None => RoleGroup::Interactive,
        }
    }

    /// The role group to search in.
    pub fn effective_role_group(&self) -> (r: RoleGroup)
        ensures
            r == self.spec_role_group(),
    {
        match self.role_group {
            Some(g) => g,
            None => RoleGroup::Interactive,
        }
    }

    /// Start of the requested range; 0 without one.
    pub open spec fn spec_start_time(&self) -> i64 {
        match self.time_range {
            Some(t) => t.0,
            None => 0,
        }
    }

    /// End of the requested range; 0 without one.
    pub open spec fn spec_end_time(&self) -> i64 {
        match self.time_range {
            Some(t) => t.1,
            None => 0,
        }
    }
}

/// Time range to list files for: an enrichment table is read from its
/// first record up to now; any other stream over the requested range.
pub open spec fn catalog_range(
    stream_type: StreamType,
    requested: Option<(i64, i64)>,
    enrichment_start: i64,
    now: i64,
) -> Option<(i64, i64)> {
    if stream_type == StreamType::EnrichmentTables {
        Some((enrichment_start, now))
    } else {
        requested
    }
}

/// The time range to ask the file catalog for.
pub fn file_list_time_range(
    stream_type: StreamType,
    requested: Option<(i64, i64)>,
    enrichment_start: i64,
    now: i64,
) -> (r: Option<(i64, i64)>)
    ensures
        r == catalog_range(stream_type, requested, enrichment_start, now),
{
    if stream_type == StreamType::EnrichmentTables {
        Some((enrichment_start, now))
    } else {
        requested
    }
}

/// Partitions `files` over `nodes` and describes the remote scan that will
/// read each share on its node. Fails with `NoAvailableNode` when no node
/// takes files.
pub fn remote_scan_spec(req: &SearchRequest, files: &Vec<FileId>, nodes: Vec<Node>) -> (r: Result<
    RemoteScanSpec,
    SearchError,
>)
    ensures
        r is Ok <==> has_file_server(nodes@),
        r is Ok ==> {
            let spec = r->Ok_0;
            &&& spec.nodes == nodes
            &&& is_partition_of(files@, nodes@, spec.partitions@)
            &&& spec.start_time == req.spec_start_time()
            &&& spec.end_time == req.spec_end_time()
            &&& spec.timeout == req.timeout
            &&& spec.use_cache == req.use_cache
            &&& spec.histogram_interval == req.histogram_interval
        },
        r is Err ==> r->Err_0.kind == SearchErrorKind::NoAvailableNode && r->Err_0.trace_id@ == req.trace_id@,
{
    let partitions = match partition_file_list(files, &nodes) {
        Some(p) => p,
        None => {
            return Err(SearchError::new(&req.trace_id, SearchErrorKind::NoAvailableNode));
        },
    };
    let (start_time, end_time) = match req.time_range {
        Some(t) => t,
        None => (0, 0),
    };
    Ok(
        RemoteScanSpec {
            nodes,
            partitions,
            start_time,
            end_time,
            timeout: req.timeout,
            use_cache: req.use_cache,
            histogram_interval: req.histogram_interval,
        },
    )
}

/// Ingesting nodes among `nodes[..n]`: they serve their own files.
pub open spec fn ingesters_upto(nodes: Seq<Node>, n: int) -> nat
    decreases n,
{
    if n <= 0 {
        0
    } else {
        ingesters_upto(nodes, n - 1) + if nodes[n - 1].is_ingester {
            1nat
        } else {
            0nat
        }
    }
}

/// Non-ingesting queriers among `nodes[..n]` with a non-empty share.
pub open spec fn busy_queriers_upto(nodes: Seq<Node>, parts: Seq<Vec<FileId>>, n: int) -> nat
    decreases n,
{
    if n <= 0 {
        0
    } else {
        busy_queriers_upto(nodes, parts, n - 1) + if !nodes[n - 1].is_ingester && nodes[n - 1].is_querier
            && parts[n - 1].len() > 0 {
            1nat
        } else {
            0nat
        }
    }
}

/// How many ingesters and how many queriers a partitioned search reaches.
pub fn fan_out(nodes: &Vec<Node>, parts: &Vec<Vec<FileId>>) -> (r: (usize, usize))
    requires
        parts.len() == nodes.len(),
    ensures
        r.0 == ingesters_upto(nodes@, nodes.len() as int),
        r.1 == busy_queriers_upto(nodes@, parts@, nodes.len() as int),
{
    let mut ingesters: usize = 0;
    let mut queriers: usize = 0;
    let mut i: usize = 0;
    while i < nodes.len()
        invariant
            i <= nodes.len(),
            parts.len() == nodes.len(),
            ingesters == ingesters_upto(nodes@, i as int),
            queriers == busy_queriers_upto(nodes@, parts@, i as int),
            ingesters <= i,
            queriers <= i,
        decreases nodes.len() - i,
    {
        if nodes[i].is_ingester {
            ingesters = ingesters + 1;
        } else if nodes[i].is_querier && parts[i].len() > 0 {
            queriers = queriers + 1;
        }
        i = i + 1;
    }
    (ingesters, queriers)
}

/// Phases of one search.
#[derive(Clone, Copy, Debug, PartialEq, Eq, Structural)]
pub enum Phase {
    Start,
    ResolveFiles,
    SelectNodes,
    Admission,
    Partition,
    BuildPlan,
    Ready,
    Released,
    Failed,
}

/// What happened since the last step: the outcome of the action asked for,
/// or an abort (cancellation, timeout, unwinding caller).
#[derive(Clone, Copy, Debug, PartialEq, Eq, Structural)]
pub enum Event {
    Begin,
    FilesListed,
    CatalogFailed,
    NodesSelected,
    NoQuerier,
    ClusterFailed,
    Admitted,
    AdmissionTimedOut,
    Partitioned,
    PlanBuilt,
    PlanFailed(SearchErrorKind),
    ExecutionFinished,
    Aborted,
}

/// What the driver of the search must do next.
#[derive(Clone, Copy, Debug, PartialEq, Eq, Structural)]
pub enum Action {
    FetchFiles,
    FetchNodes,
    RequestAdmission,
    PartitionFiles,
    BuildPlan,
    /// Hand the plan and the release duty to the caller.
    Deliver,
    /// Give the work-group slot back.
    Release,
    /// Give the work-group slot back, then report the error.
    ReleaseAndFail(SearchErrorKind),
    /// Report the error; no slot is held.
    Fail(SearchErrorKind),
    /// Stop quietly; no slot is held.
    Stop,
    /// The event does not apply in this phase.
    Ignore,
}

/// State of one search: its phase, and whether it holds a work-group slot.
#[derive(Clone, Copy, Debug, PartialEq, Eq, Structural)]
pub struct Coordinator {
    pub phase: Phase,
    pub holding: bool,
}

/// A finished search: nothing happens after these phases.
pub open spec fn is_terminal(p: Phase) -> bool {
    p == Phase::Released || p == Phase::Failed
}

/// The coordinator state with the given phase and slot.
pub open spec fn state(phase: Phase, holding: bool) -> Coordinator {
    Coordinator { phase, holding }
}

/// The transition table. Before admission a failure ends in `Failed`; from
/// admission on, every exit (success, error or abort) goes through a release
/// and ends in `Released`.
pub open spec fn transition(s: Coordinator, e: Event) -> (Coordinator, Action) {
    match (s.phase, e) {
        (Phase::Start, Event::Begin) => (state(Phase::ResolveFiles, false), Action::FetchFiles),
        (Phase::ResolveFiles, Event::FilesListed) => (state(Phase::SelectNodes, false), Action::FetchNodes),
        (Phase::ResolveFiles, Event::CatalogFailed) => (
            state(Phase::Failed, false),
            Action::Fail(SearchErrorKind::Catalog),
        ),
        (Phase::SelectNodes, Event::NodesSelected) => (
            state(Phase::Admission, false),
            Action::RequestAdmission,
        ),
        (Phase::SelectNodes, Event::NoQuerier) => (
            state(Phase::Failed, false),
            Action::Fail(SearchErrorKind::NoAvailableNode),
        ),
        (Phase::SelectNodes, Event::ClusterFailed) => (
            state(Phase::Failed, false),
            Action::Fail(SearchErrorKind::Cluster),
        ),
        (Phase::Admission, Event::Admitted) => (state(Phase::Partition, true), Action::PartitionFiles),
        (Phase::Admission, Event::AdmissionTimedOut) => (
            state(Phase::Failed, false),
            Action::Fail(SearchErrorKind::AdmissionTimeout),
        ),
        (Phase::Partition, Event::Partitioned) => (state(Phase::BuildPlan, true), Action::BuildPlan),
        (Phase::BuildPlan, Event::PlanBuilt) => (state(Phase::Ready, true), Action::Deliver),
        (Phase::BuildPlan, Event::PlanFailed(k)) => (state(Phase::Released, false), Action::ReleaseAndFail(k)),
        (Phase::Ready, Event::ExecutionFinished) => (state(Phase::Released, false), Action::Release),
        (p, Event::Aborted) => if is_terminal(p) {
            (s, Action::Ignore)
        } else if s.holding {
            (state(Phase::Released, false), Action::Release)
        } else {
            (state(Phase::Failed, false), Action::Stop)
        },
        _ => (s, Action::Ignore),
    }
}

impl Coordinator {
    /// A search not yet begun, holding no slot.
    pub open spec fn initial() -> Coordinator {
        state(Phase::Start, false)
    }

    /// A search not yet begun.
    pub fn new() -> (r: Coordinator)
        ensures
            r == Coordinator::initial(),
    {
        Coordinator { phase: Phase::Start, holding: false }
    }

    /// Applies one event and returns the action it calls for.
    pub fn step(&mut self, e: Event) -> (a: Action)
        ensures
            (*final(self), a) == transition(*old(self), e),
    {
        let s = *self;
        let (next, a) = match (s.phase, e) {
            (Phase::Start, Event::Begin) => (Coordinator { phase: Phase::ResolveFiles, holding: false }, Action::FetchFiles),
            (Phase::ResolveFiles, Event::FilesListed) => (Coordinator { phase: Phase::SelectNodes, holding: false }, Action::FetchNodes),
            (Phase::ResolveFiles, Event::CatalogFailed) => (
                Coordinator { phase: Phase::Failed, holding: false },
                Action::Fail(SearchErrorKind::Catalog),
            ),
            (Phase::SelectNodes, Event::NodesSelected) => (
                Coordinator { phase: Phase::Admission, holding: false },
                Action::RequestAdmission,
            ),
            (Phase::SelectNodes, Event::NoQuerier) => (
                Coordinator { phase: Phase::Failed, holding: false },
                Action::Fail(SearchErrorKind::NoAvailableNode),
            ),
            (Phase::SelectNodes, Event::ClusterFailed) => (
                Coordinator { phase: Phase::Failed, holding: false },
                Action::Fail(SearchErrorKind::Cluster),
            ),
            (Phase::Admission, Event::Admitted) => (Coordinator { phase: Phase::Partition, holding: true }, Action::PartitionFiles),
            (Phase::Admission, Event::AdmissionTimedOut) => (
                Coordinator { phase: Phase::Failed, holding: false },
                Action::Fail(SearchErrorKind::AdmissionTimeout),
            ),
            (Phase::Partition, Event::Partitioned) => (Coordinator { phase: Phase::BuildPlan, holding: true }, Action::BuildPlan),
            (Phase::BuildPlan, Event::PlanBuilt) => (Coordinator { phase: Phase::Ready, holding: true }, Action::Deliver),
            (Phase::BuildPlan, Event::PlanFailed(k)) => (
                Coordinator { phase: Phase::Released, holding: false },
                Action::ReleaseAndFail(k),
            ),
            (Phase::Ready, Event::ExecutionFinished) => (Coordinator { phase: Phase::Released, holding: false }, Action::Release),
            (p, Event::Aborted) => if p == Phase::Released || p == Phase::Failed {
                (s, Action::Ignore)
            } else if s.holding {
                (Coordinator { phase: Phase::Released, holding: false }, Action::Release)
            } else {
                (Coordinator { phase: Phase::Failed, holding: false }, Action::Stop)
            },
            _ => (s, Action::Ignore),
        };
        *self = next;
        a
    }
}

/// A finished search stays as it is and asks for nothing more, whatever
/// arrives: no partitioning, plan building or release follows a failure.
pub proof fn lemma_finished_is_final(s: Coordinator, e: Event)
    requires
        is_terminal(s.phase),
    ensures
        transition(s, e) == (s, Action::Ignore),
{
}

/// The state after feeding `events` in order, starting from `s`.
pub open spec fn run(s: Coordinator, events: Seq<Event>) -> Coordinator
    decreases events.len(),
{
    if events.len() == 0 {
        s
    } else {
        transition(run(s, events.drop_last()), events.last()).0
    }
}

/// 1 when event `e` in state `s` is a granted admission.
pub open spec fn admission_of(s: Coordinator, e: Event) -> nat {
    if s.phase == Phase::Admission && e == Event::Admitted {
        1
    } else {
        0
    }
}

/// 1 when action `a` gives a work-group slot back.
pub open spec fn release_of(a: Action) -> nat {
    match a {
        Action::Release | Action::ReleaseAndFail(_) => 1,
        _ => 0,
    }
}

/// Granted admissions along a trace.
pub open spec fn admissions(s: Coordinator, events: Seq<Event>) -> nat
    decreases events.len(),
{
    if events.len() == 0 {
        0
    } else {
        admissions(s, events.drop_last()) + admission_of(run(s, events.drop_last()), events.last())
    }
}

/// Releases asked for along a trace.
pub open spec fn releases(s: Coordinator, events: Seq<Event>) -> nat
    decreases events.len(),
{
    if events.len() == 0 {
        0
    } else {
        releases(s, events.drop_last()) + release_of(transition(run(s, events.drop_last()), events.last()).1)
    }
}

/// Phases in which no admission has been granted yet.
pub open spec fn before_admission(p: Phase) -> bool {
    p == Phase::Start || p == Phase::ResolveFiles || p == Phase::SelectNodes || p == Phase::Admission
}

/// Whatever events arrive, in whatever order (success, any error, aborts at
/// any point, events out of place), a search is admitted at most once, never
/// releases more than it was admitted, holds a slot exactly while an
/// admission is unreleased, and, once finished, has released every
/// admission exactly once.
pub proof fn lemma_release_exactly_once(events: Seq<Event>)
    ensures
        admissions(Coordinator::initial(), events) <= 1,
        releases(Coordinator::initial(), events) + (if run(Coordinator::initial(), events).holding {
            1nat
        } else {
            0nat
        }) == admissions(Coordinator::initial(), events),
        is_terminal(run(Coordinator::initial(), events).phase) ==> releases(Coordinator::initial(), events)
            == admissions(Coordinator::initial(), events),
        before_admission(run(Coordinator::initial(), events).phase) ==> admissions(
            Coordinator::initial(),
            events,
        ) == 0,
        run(Coordinator::initial(), events).holding <==> (run(Coordinator::initial(), events).phase
            == Phase::Partition || run(Coordinator::initial(), events).phase == Phase::BuildPlan || run(
            Coordinator::initial(),
            events,
        ).phase == Phase::Ready),
    decreases events.len(),
{
    if events.len() > 0 {
        lemma_release_exactly_once(events.drop_last());
    }
}

} // verus!
