use search_core::admission::{AdmissionPoll, WorkGroup};
use search_core::coordinator::{
    fan_out, file_list_time_range, remote_scan_spec, select_nodes, Action, Coordinator, Event, Phase, SearchRequest, StreamType,
};
use search_core::error::{SearchError, SearchErrorKind};
use search_core::node::{Node, NodeStatus, RoleGroup};
use search_core::partition::FileId;
use search_core::plan::{build_plan, count_placeholders, placeholder_stream, splice, PlanNode, RemoteScanSpec};
use search_core::schema_history::SqliteSchemaHistory;
use search_core::status::{healthz, schedulez};

fn node(uuid: u64, name: &str, ingester: bool, querier: bool) -> Node {
    Node {
        uuid,
        name: name.to_string(),
        is_ingester: ingester,
        is_querier: querier,
        role_group: RoleGroup::Interactive,
        status: NodeStatus::Online,
        schedulable: true,
    }
}

fn file(i: u64) -> FileId {
    FileId { key: format!("f/{i}"), original_size: i, compressed_size: i, min_ts: 0, max_ts: 1 }
}

fn request() -> SearchRequest {
    SearchRequest {
        trace_id: "trace-1".to_string(),
        org_id: "default".to_string(),
        stream_type: StreamType::Logs,
        time_range: Some((100, 200)),
        timeout: 30,
        use_cache: true,
        histogram_interval: 60,
        role_group: None,
        local_mode: false,
    }
}

fn empty_scan() -> RemoteScanSpec {
    RemoteScanSpec {
        nodes: vec![],
        partitions: vec![],
        start_time: 0,
        end_time: 0,
        timeout: 0,
        use_cache: false,
        histogram_interval: 0,
    }
}

fn placeholder(stream: &str) -> PlanNode {
    PlanNode::Placeholder { stream: stream.to_string() }
}

fn other(name: &str, children: Vec<PlanNode>) -> PlanNode {
    PlanNode::Other { name: name.to_string(), children }
}

fn trace() -> String {
    "trace-1".to_string()
}

fn remote_scans(p: &PlanNode) -> usize {
    match p {
        PlanNode::Placeholder { .. } => 0,
        PlanNode::SortPreservingMerge { input } => remote_scans(input),
        PlanNode::RemoteScan { .. } => 1,
        PlanNode::Other { children, .. } => children.iter().map(remote_scans).sum(),
    }
}

fn kind(r: Result<impl Sized, SearchError>) -> Option<SearchErrorKind> {
    r.err().map(|e| e.kind)
}

#[test]
fn one_placeholder_becomes_one_remote_scan() {
    let plan = other("Projection", vec![other("Filter", vec![placeholder("logs")])]);
    assert_eq!(count_placeholders(&plan), 1);
    let out = build_plan(&trace(), plan, empty_scan()).unwrap();
    assert_eq!(count_placeholders(&out.root), 0);
    assert_eq!(remote_scans(&out.root), 1);
    match &out.root {
        PlanNode::Other { name, children } => {
            assert_eq!(name, "Projection");
            match &children[0] {
                PlanNode::Other { name, children } => {
                    assert_eq!(name, "Filter");
                    assert!(matches!(&children[0], PlanNode::RemoteScan { .. }));
                }
                _ => panic!("filter expected"),
            }
        }
        _ => panic!("projection expected"),
    }
}

#[test]
fn zero_or_two_placeholders_are_malformed() {
    let none = other("Values", vec![]);
    assert_eq!(kind(build_plan(&trace(), none, empty_scan())), Some(SearchErrorKind::PlanMalformed));
    let two = other("Union", vec![placeholder("a"), placeholder("b")]);
    assert_eq!(count_placeholders(&two), 2);
    let err = build_plan(&trace(), two, empty_scan()).err().unwrap();
    assert_eq!(err.kind, SearchErrorKind::PlanMalformed);
    assert_eq!(err.trace_id, "trace-1");
    let three = other("Union", vec![placeholder("a"), placeholder("b"), placeholder("c")]);
    assert_eq!(count_placeholders(&three), 2);
}

#[test]
fn merge_root_keeps_its_type_and_gets_the_remote_scan() {
    let plan = PlanNode::SortPreservingMerge { input: Box::new(other("Sort", vec![placeholder("logs")])) };
    let out = build_plan(&trace(), plan, empty_scan()).unwrap();
    match &out.root {
        PlanNode::SortPreservingMerge { input } => match input.as_ref() {
            PlanNode::RemoteScan { input } => match input.as_ref() {
                PlanNode::Other { name, children } => {
                    assert_eq!(name, "Sort");
                    assert!(matches!(&children[0], PlanNode::Placeholder { stream } if stream == "logs"));
                }
                _ => panic!("sort expected under the remote scan"),
            },
            _ => panic!("remote scan expected"),
        },
        _ => panic!("merge expected"),
    }
    assert_eq!(count_placeholders(&out.root), 0);
    assert_eq!(remote_scans(&out.root), 1);
}

#[test]
fn splice_replaces_in_place() {
    let out = splice(placeholder("logs"));
    assert!(matches!(out, PlanNode::RemoteScan { .. }));
}

#[test]
fn scenario_three_queriers_ten_files() {
    let all = vec![node(1, "q1", false, true), node(2, "q2", false, true), node(3, "q3", false, true)];
    let req = request();
    let local = node(1, "q1", false, true);
    let nodes = select_nodes(&req.trace_id, &all, req.effective_role_group(), false, &local).unwrap();
    assert_eq!(nodes.len(), 3);
    let files: Vec<FileId> = (0..10).map(file).collect();
    let spec = remote_scan_spec(&req, &files, nodes).unwrap();
    assert_eq!(spec.partitions.len(), 3);
    assert_eq!(spec.partitions.iter().map(|p| p.len()).sum::<usize>(), 10);
    let mut seen: Vec<String> = spec.partitions.iter().flatten().map(|f| f.key.clone()).collect();
    seen.sort();
    seen.dedup();
    assert_eq!(seen.len(), 10);
    assert_eq!((spec.start_time, spec.end_time, spec.timeout, spec.use_cache, spec.histogram_interval), (100, 200, 30, true, 60));
    let again = remote_scan_spec(&req, &files, spec.nodes.clone()).unwrap();
    let a: Vec<Vec<String>> = spec.partitions.iter().map(|p| p.iter().map(|f| f.key.clone()).collect()).collect();
    let b: Vec<Vec<String>> = again.partitions.iter().map(|p| p.iter().map(|f| f.key.clone()).collect()).collect();
    assert_eq!(a, b);
    let (ingesters, queriers) = fan_out(&spec.nodes, &spec.partitions);
    assert_eq!(ingesters, 0);
    assert!(queriers >= 1 && queriers <= 3);
}

#[test]
fn scenario_only_ingesters_has_no_querier() {
    let all = vec![node(1, "i1", true, false), node(2, "i2", true, false)];
    let local = node(1, "i1", true, false);
    let r = select_nodes(&trace(), &all, RoleGroup::Interactive, false, &local);
    assert_eq!(kind(r), Some(SearchErrorKind::NoAvailableNode));
    let mut c = Coordinator::new();
    assert_eq!(c.step(Event::Begin), Action::FetchFiles);
    assert_eq!(c.step(Event::FilesListed), Action::FetchNodes);
    assert_eq!(c.step(Event::NoQuerier), Action::Fail(SearchErrorKind::NoAvailableNode));
    assert_eq!(c.phase, Phase::Failed);
    assert_eq!(c.step(Event::Partitioned), Action::Ignore);
}

#[test]
fn scenario_admission_timeout_zero_when_saturated() {
    let mut group = WorkGroup::new(7, 1);
    let first = match group.poll_admit(0, 0) {
        AdmissionPoll::Admitted(h) => h,
        _ => panic!("first search must be admitted"),
    };
    assert!(matches!(group.poll_admit(0, 0), AdmissionPoll::TimedOut));
    assert_eq!(group.running(), 1);
    let mut c = Coordinator::new();
    c.step(Event::Begin);
    c.step(Event::FilesListed);
    assert_eq!(c.step(Event::NodesSelected), Action::RequestAdmission);
    assert_eq!(c.step(Event::AdmissionTimedOut), Action::Fail(SearchErrorKind::AdmissionTimeout));
    assert_eq!(c.step(Event::Partitioned), Action::Ignore);
    assert_eq!(c.step(Event::PlanBuilt), Action::Ignore);
    assert!(!c.holding);
    assert!(group.release(first));
    assert_eq!(group.running(), 0);
}

#[test]
fn admission_waits_until_timeout() {
    let mut group = WorkGroup::new(1, 0);
    assert!(matches!(group.poll_admit(10, 50), AdmissionPoll::Wait));
    assert!(matches!(group.poll_admit(50, 50), AdmissionPoll::TimedOut));
    let mut other_group = WorkGroup::new(2, 2);
    let h = match other_group.poll_admit(0, 0) {
        AdmissionPoll::Admitted(h) => h,
        _ => panic!("free slot expected"),
    };
    assert_eq!(h.group(), 2);
    assert!(!group.release(h));
    assert_eq!(other_group.running(), 1);
}

fn count_releases(events: &[Event]) -> (usize, Coordinator) {
    let mut c = Coordinator::new();
    let mut releases = 0;
    for e in events {
        match c.step(*e) {
            Action::Release | Action::ReleaseAndFail(_) => releases += 1,
            _ => {}
        }
    }
    (releases, c)
}

#[test]
fn release_happens_once_on_every_path() {
    let head = [Event::Begin, Event::FilesListed, Event::NodesSelected, Event::Admitted];
    let success = [&head[..], &[Event::Partitioned, Event::PlanBuilt, Event::ExecutionFinished, Event::Aborted]].concat();
    let (n, c) = count_releases(&success);
    assert_eq!((n, c.phase), (1, Phase::Released));
    let error = [&head[..], &[Event::Partitioned, Event::PlanFailed(SearchErrorKind::PlanMalformed), Event::Aborted]].concat();
    let (n, c) = count_releases(&error);
    assert_eq!((n, c.phase), (1, Phase::Released));
    let unwind = [&head[..], &[Event::Aborted, Event::ExecutionFinished, Event::Aborted]].concat();
    let (n, c) = count_releases(&unwind);
    assert_eq!((n, c.phase), (1, Phase::Released));
    let early = [Event::Begin, Event::CatalogFailed, Event::Aborted];
    let (n, c) = count_releases(&early);
    assert_eq!((n, c.phase), (0, Phase::Failed));
    let abort_before = [Event::Begin, Event::FilesListed, Event::Aborted];
    let (n, c) = count_releases(&abort_before);
    assert_eq!((n, c.phase), (0, Phase::Failed));
}

#[test]
fn local_mode_pins_the_search() {
    let all = vec![node(1, "q1", false, true), node(2, "q2", false, true), node(3, "i1", true, false)];
    let me = node(2, "q2", false, true);
    let r = select_nodes(&trace(), &all, RoleGroup::Interactive, true, &me).unwrap();
    assert_eq!(r.iter().map(|n| n.uuid).collect::<Vec<_>>(), vec![2]);
    let ingest_me = node(3, "i1", true, false);
    let r = select_nodes(&trace(), &all, RoleGroup::Interactive, true, &ingest_me).unwrap();
    assert_eq!(r.iter().map(|n| n.uuid).collect::<Vec<_>>(), vec![1]);
}

#[test]
fn request_defaults_to_interactive() {
    let mut req = request();
    assert_eq!(req.effective_role_group(), RoleGroup::Interactive);
    req.role_group = Some(RoleGroup::Background);
    assert_eq!(req.effective_role_group(), RoleGroup::Background);
}

#[test]
fn health_answers() {
    assert_eq!(healthz().status, "ok");
    let n = node(1, "q1", false, true);
    let (ok, body) = schedulez(Some(&n));
    assert!(ok);
    assert_eq!(body.status, "ok");
    let mut off = node(1, "q1", false, true);
    off.status = NodeStatus::Offline;
    let (ok, body) = schedulez(Some(&off));
    assert!(!ok);
    assert_eq!(body.status, "not ok");
    assert_eq!(schedulez(None).1.status, "not ok");
}

#[test]
fn schema_history_constructs() {
    let _a = SqliteSchemaHistory::new();
    let _b = SqliteSchemaHistory::default();
}

#[test]
fn enrichment_tables_are_listed_up_to_now() {
    assert_eq!(file_list_time_range(StreamType::EnrichmentTables, Some((5, 9)), 100, 900), Some((100, 900)));
    assert_eq!(file_list_time_range(StreamType::EnrichmentTables, None, 100, 900), Some((100, 900)));
    assert_eq!(file_list_time_range(StreamType::Logs, Some((5, 9)), 100, 900), Some((5, 9)));
    assert_eq!(file_list_time_range(StreamType::Logs, None, 100, 900), None);
}

#[test]
fn placeholder_stream_is_found() {
    let plan = PlanNode::SortPreservingMerge {
        input: Box::new(other("Sort", vec![other("Filter", vec![]), other("Scan", vec![placeholder("logs")])])),
    };
    assert_eq!(placeholder_stream(&plan), Some("logs".to_string()));
    assert_eq!(placeholder_stream(&other("Values", vec![])), None);
    let two = other("Union", vec![placeholder("a"), placeholder("b")]);
    assert_eq!(placeholder_stream(&two), Some("a".to_string()));
    let hidden = PlanNode::RemoteScan { input: Box::new(placeholder("x")) };
    assert_eq!(placeholder_stream(&hidden), None);
}
