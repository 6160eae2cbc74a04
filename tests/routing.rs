use search_core::node::{Node, NodeStatus, RoleGroup, online_nodes};
use search_core::partition::{FileId, partition_file_list};
use search_core::ring::{HashRing, fnv1a_bytes, hash_key};
use search_core::stats::ScanStats;

fn querier(uuid: u64, name: &str) -> Node {
    Node {
        uuid,
        name: name.to_string(),
        is_ingester: false,
        is_querier: true,
        role_group: RoleGroup::Interactive,
        status: NodeStatus::Online,
        schedulable: true,
    }
}

fn ingester(uuid: u64, name: &str) -> Node {
    Node { is_ingester: true, is_querier: false, ..querier(uuid, name) }
}

fn file(i: u64) -> FileId {
    FileId {
        key: format!("files/default/logs/app/2025/01/01/00/{i:04}.parquet"),
        original_size: 1000 + i,
        compressed_size: 100 + i,
        min_ts: 0,
        max_ts: 10,
    }
}

fn keys(parts: &[Vec<FileId>]) -> Vec<Vec<String>> {
    parts.iter().map(|p| p.iter().map(|f| f.key.clone()).collect()).collect()
}

#[test]
fn fnv1a_known_values() {
    assert_eq!(fnv1a_bytes(b""), 0xcbf2_9ce4_8422_2325);
    assert_eq!(fnv1a_bytes(b"a"), 0xaf63_dc4c_8601_ec8c);
    assert_eq!(fnv1a_bytes(b"foobar"), 0x8594_4171_f739_67e8);
    assert_eq!(hash_key("foobar"), 0x8594_4171_f739_67e8);
}

#[test]
fn ring_lookup_is_stable() {
    let nodes = vec![querier(1, "q1"), querier(2, "q2"), querier(3, "q3")];
    let a = HashRing::new(&nodes);
    let b = HashRing::new(&nodes);
    for i in 0..200u64 {
        let key = format!("key-{i}");
        let x = a.node_for_key(&key).unwrap();
        assert_eq!(x, a.node_for_key(&key).unwrap());
        assert_eq!(x, b.node_for_key(&key).unwrap());
        assert!([1, 2, 3].contains(&x));
    }
}

#[test]
fn empty_ring_routes_nowhere() {
    let nodes = vec![ingester(9, "i1")];
    let ring = HashRing::new(&nodes);
    assert_eq!(ring.node_for_key("any"), None);
    assert_eq!(HashRing::new(&vec![]).node_for_key("any"), None);
}

#[test]
fn removing_a_node_moves_only_its_keys() {
    let nodes: Vec<Node> = (1..=5).map(|i| querier(i, &format!("q{i}"))).collect();
    let fewer: Vec<Node> = nodes.iter().filter(|n| n.uuid != 3).cloned().collect();
    let full = HashRing::new(&nodes);
    let less = HashRing::new(&fewer);
    let total = 2000u64;
    let mut moved = 0u64;
    let mut modulo_moved = 0u64;
    for i in 0..total {
        let key = format!("file-{i}");
        let before = full.node_for_key(&key).unwrap();
        let after = less.node_for_key(&key).unwrap();
        if before != after {
            assert_eq!(before, 3);
            moved += 1;
        }
        if before != 3 {
            assert_eq!(before, after);
        }
        let h = hash_key(&key);
        let m_before = [1u64, 2, 3, 4, 5][(h % 5) as usize];
        let m_after = [1u64, 2, 4, 5][(h % 4) as usize];
        if m_before != m_after {
            modulo_moved += 1;
        }
    }
    // roughly |F|/N keys move with the ring, far more with modulo hashing
    assert!(moved <= total / 5 * 2);
    assert!(moved < modulo_moved);
}

#[test]
fn online_nodes_filter_status_and_group() {
    let mut off = querier(2, "q2");
    off.status = NodeStatus::Offline;
    let mut bg = querier(3, "q3");
    bg.role_group = RoleGroup::Background;
    let all = vec![querier(1, "q1"), off, bg, querier(4, "q4")];
    let online: Vec<u64> = online_nodes(&all, RoleGroup::Interactive).iter().map(|n| n.uuid).collect();
    assert_eq!(online, vec![1, 4]);
    let background: Vec<u64> = online_nodes(&all, RoleGroup::Background).iter().map(|n| n.uuid).collect();
    assert_eq!(background, vec![3]);
}

#[test]
fn partition_three_queriers_ten_files() {
    let nodes = vec![querier(11, "q1"), querier(22, "q2"), querier(33, "q3")];
    let files: Vec<FileId> = (0..10).map(file).collect();
    let parts = partition_file_list(&files, &nodes).unwrap();
    assert_eq!(parts.len(), 3);
    assert_eq!(parts.iter().map(|p| p.len()).sum::<usize>(), 10);
    let mut all: Vec<String> = parts.iter().flatten().map(|f| f.key.clone()).collect();
    all.sort();
    all.dedup();
    assert_eq!(all.len(), 10);
    let again = partition_file_list(&files, &nodes).unwrap();
    assert_eq!(keys(&parts), keys(&again));
    for (i, part) in parts.iter().enumerate() {
        let ring = HashRing::new(&nodes);
        for f in part {
            assert_eq!(ring.node_for_key(&f.key), Some(nodes[i].uuid));
        }
    }
}

#[test]
fn partition_is_deterministic() {
    let nodes = vec![querier(5, "a"), querier(6, "b")];
    let files: Vec<FileId> = (0..50).map(file).collect();
    let a = partition_file_list(&files, &nodes).unwrap();
    let b = partition_file_list(&files, &nodes).unwrap();
    assert_eq!(keys(&a), keys(&b));
}

#[test]
fn partition_bytes_add_up() {
    let nodes = vec![querier(1, "q1"), ingester(2, "i1"), querier(3, "q3")];
    let files: Vec<FileId> = (0..40).map(file).collect();
    let before = ScanStats::for_file_list(&files, 7);
    let parts = partition_file_list(&files, &nodes).unwrap();
    let after: u64 = parts.iter().map(|p| ScanStats::for_file_list(p, 0).original_size).sum();
    assert_eq!(before.original_size, after);
    assert_eq!(before.files, 40);
    assert!(parts[1].is_empty());
}

#[test]
fn partition_skips_ingesters_and_keeps_empty_slots() {
    let nodes = vec![ingester(1, "i1"), querier(2, "q2")];
    let files: Vec<FileId> = (0..5).map(file).collect();
    let parts = partition_file_list(&files, &nodes).unwrap();
    assert!(parts[0].is_empty());
    assert_eq!(parts[1].len(), 5);
    let none = partition_file_list(&files, &vec![ingester(1, "i1")]);
    assert!(none.is_none());
    let empty = partition_file_list(&vec![], &nodes).unwrap();
    assert_eq!(empty.len(), 2);
    assert!(empty.iter().all(|p| p.is_empty()));
}

#[test]
fn scan_stats_sum_and_saturate() {
    let files = vec![
        FileId { key: "a".to_string(), original_size: 10, compressed_size: 3, min_ts: 0, max_ts: 1 },
        FileId { key: "b".to_string(), original_size: 32, compressed_size: 4, min_ts: 0, max_ts: 1 },
    ];
    let s = ScanStats::for_file_list(&files, 12);
    assert_eq!((s.files, s.original_size, s.compressed_size, s.file_list_took), (2, 42, 7, 12));
    let h = s.handoff();
    assert_eq!((h.files, h.original_size, h.compressed_size, h.records, h.file_list_took), (0, 0, 0, 0, 12));
    let big = vec![
        FileId { key: "a".to_string(), original_size: u64::MAX, compressed_size: 0, min_ts: 0, max_ts: 1 },
        FileId { key: "b".to_string(), original_size: 5, compressed_size: 0, min_ts: 0, max_ts: 1 },
    ];
    assert_eq!(ScanStats::for_file_list(&big, 0).original_size, u64::MAX);
}

#[test]
fn route_keys_matches_single_lookups() {
    let nodes = vec![querier(1, "q1"), querier(2, "q2")];
    let ring = HashRing::new(&nodes);
    let keys: Vec<String> = (0..20).map(|i| format!("k{i}")).collect();
    let routed = ring.route_keys(&keys);
    assert_eq!(routed.len(), 20);
    for (k, r) in keys.iter().zip(routed.iter()) {
        assert_eq!(*r, ring.node_for_key(k));
        assert!(r.is_some());
    }
    let empty = HashRing::new(&vec![ingester(3, "i")]);
    assert!(empty.route_keys(&keys).iter().all(|r| r.is_none()));
}
