//! Consistent-hash ring mapping keys to nodes.
//!
//! Every file-serving node owns `VIRTUAL_NODES` points on a 64-bit ring; a
//! key belongs to the first point at or after its hash, wrapping around to
//! the smallest point. Points are ordered by position, then by node uuid, so
//! the owner of a key is a function of the set of points alone.
use vstd::prelude::*;
use vstd::utf8::encode_utf8;
use vstd::wrapping::u64_specs::wrapping_mul;
use vstd::relations::{is_minimal, total_ordering};
use vstd::set_lib::{set_int_range, lemma_int_range};
use vstd::arithmetic::div_mod::lemma_fundamental_div_mod_converse;
use crate::node::Node;

verus! {

/// Points each file-serving node places on the ring.
pub const VIRTUAL_NODES: u64 = 64;

pub const FNV_OFFSET: u64 = 0xcbf2_9ce4_8422_2325;

pub const FNV_PRIME: u64 = 0x0000_0100_0000_01b3;

pub const MIX_GAMMA: u64 = 0x9e37_79b9_7f4a_7c15;

pub const MIX_M1: u64 = 0xbf58_476d_1ce4_e5b9;

pub const MIX_M2: u64 = 0x94d0_49bb_1331_11eb;

/// 64-bit FNV-1a over a byte string.
pub open spec fn fnv1a(bytes: Seq<u8>) -> u64
    decreases bytes.len(),
{
    if bytes.len() == 0 {
        FNV_OFFSET
    } else {
        wrapping_mul(fnv1a(bytes.drop_last()) ^ (bytes.last() as u64), FNV_PRIME)
    }
}

/// Ring position of a string key: FNV-1a of its UTF-8 encoding.
pub open spec fn key_hash(key: Seq<char>) -> u64 {
    fnv1a(encode_utf8(key))
}

/// Bit-mixing finaliser spreading a virtual-node seed over the ring.
#[verifier::opaque]
pub open spec fn mix64(x: u64) -> u64 {
    let a = wrapping_mul(x ^ (x >> 30u64), MIX_M1);
    let b = wrapping_mul(a ^ (a >> 27u64), MIX_M2);
    b ^ (b >> 31u64)
}

/// Position of the `replica`-th virtual node of the node with `uuid`.
#[verifier::opaque]
pub open spec fn vnode_pos(uuid: u64, replica: u64) -> u64 {
    mix64(uuid ^ wrapping_mul((replica + 1) as u64, MIX_GAMMA))
}

/// 64-bit FNV-1a of `bytes`.
pub fn fnv1a_bytes(bytes: &[u8]) -> (h: u64)
    ensures
        h == fnv1a(bytes@),
{
    let mut h: u64 = FNV_OFFSET;
    let mut i: usize = 0;
    while i < bytes.len()
        invariant
            i <= bytes@.len(),
            h == fnv1a(bytes@.take(i as int)),
        decreases bytes@.len() - i,
    {
        assert(bytes@.take(i + 1).drop_last() =~= bytes@.take(i as int));
        h = (h ^ (bytes[i] as u64)).wrapping_mul(FNV_PRIME);
        i = i + 1;
    }
    assert(bytes@.take(i as int) =~= bytes@);
    h
}

/// Ring position of a string key.
pub fn hash_key(key: &str) -> (h: u64)
    ensures
        h == key_hash(key@),
{
    fnv1a_bytes(key.as_bytes())
}

/// The bit-mixing finaliser `mix64`.
pub fn mix(x: u64) -> (r: u64)
    ensures
        r == mix64(x),
{
    reveal(mix64);
    let a = (x ^ (x >> 30u64)).wrapping_mul(MIX_M1);
    let b = (a ^ (a >> 27u64)).wrapping_mul(MIX_M2);
    b ^ (b >> 31u64)
}

/// Ring position of one virtual node.
pub fn vnode_position(uuid: u64, replica: u64) -> (r: u64)
    requires
        replica < VIRTUAL_NODES,
    ensures
        r == vnode_pos(uuid, replica),
{
    reveal(vnode_pos);
    mix(uuid ^ (replica + 1).wrapping_mul(MIX_GAMMA))
}

/// Ring order on points `(position, uuid)`: by position, then by uuid.
pub open spec fn point_le(a: (u64, u64), b: (u64, u64)) -> bool {
    a.0 < b.0 || (a.0 == b.0 && a.1 <= b.1)
}

/// The points contributed by the first `n` members of `nodes`.
pub open spec fn in_ring_upto(nodes: Seq<Node>, n: int, p: (u64, u64)) -> bool {
    exists|i: int, r: u64|
        0 <= i < n && i < nodes.len() && #[trigger] nodes[i].serves_files() && r < VIRTUAL_NODES
            && p == (#[trigger] vnode_pos(nodes[i].uuid, r), nodes[i].uuid)
}

/// `p` is a point of the ring built from `nodes`.
pub open spec fn in_ring(nodes: Seq<Node>, p: (u64, u64)) -> bool {
    in_ring_upto(nodes, nodes.len() as int, p)
}

/// At least one member of `nodes` takes files, so the ring is not empty.
pub open spec fn has_file_server(nodes: Seq<Node>) -> bool {
    exists|i: int| 0 <= i < nodes.len() && #[trigger] nodes[i].serves_files()
}

/// `p` owns ring position `h`: it is the least point at or after `h`, or,
/// when no point lies there, the least point of the whole ring.
pub open spec fn is_owner(nodes: Seq<Node>, h: u64, p: (u64, u64)) -> bool {
    &&& in_ring(nodes, p)
    &&& {
        ||| (p.0 >= h && forall|q: (u64, u64)|
            #[trigger] in_ring(nodes, q) && q.0 >= h ==> point_le(p, q))
        ||| ((forall|q: (u64, u64)| #[trigger] in_ring(nodes, q) ==> q.0 < h) && forall|
            q: (u64, u64),
        | #[trigger] in_ring(nodes, q) ==> point_le(p, q))
    }
}

/// The point owning position `h` on the ring of `nodes`.
pub open spec fn owner_of(nodes: Seq<Node>, h: u64) -> (u64, u64) {
    choose|p: (u64, u64)| is_owner(nodes, h, p)
}

/// Uuid of the node that a string key routes to.
pub open spec fn key_owner(nodes: Seq<Node>, key: Seq<char>) -> u64 {
    owner_of(nodes, key_hash(key)).1
}

/// A ring position has at most one owner.
pub proof fn lemma_owner_unique(nodes: Seq<Node>, h: u64, p1: (u64, u64), p2: (u64, u64))
    requires
        is_owner(nodes, h, p1),
        is_owner(nodes, h, p2),
    ensures
        p1 == p2,
{
    assert(point_le(p1, p2));
    assert(point_le(p2, p1));
}

/// Any owner found is the one that `owner_of` names.
pub proof fn lemma_owner_of(nodes: Seq<Node>, h: u64, p: (u64, u64))
    requires
        is_owner(nodes, h, p),
    ensures
        owner_of(nodes, h) == p,
{
    let q = owner_of(nodes, h);
    lemma_owner_unique(nodes, h, p, q);
}

/// The points of the ring of `nodes`, as a set.
pub open spec fn ring_set(nodes: Seq<Node>) -> Set<(u64, u64)> {
    Set::new(|p: (u64, u64)| in_ring(nodes, p))
}

/// The `k`-th candidate point: replica `k % VIRTUAL_NODES` of member `k / VIRTUAL_NODES`.
pub open spec fn indexed_point(nodes: Seq<Node>, k: int) -> (u64, u64) {
    let i = k / (VIRTUAL_NODES as int);
    (vnode_pos(nodes[i].uuid, (k % (VIRTUAL_NODES as int)) as u64), nodes[i].uuid)
}

proof fn lemma_ring_set_finite(nodes: Seq<Node>)
    ensures
        ring_set(nodes).finite(),
{
    let n = nodes.len() * (VIRTUAL_NODES as int);
    let f = |k: int| indexed_point(nodes, k);
    lemma_int_range(0, n);
    set_int_range(0, n).lemma_map_finite(f);
    assert forall|p: (u64, u64)| ring_set(nodes).contains(p) implies #[trigger] set_int_range(0, n).map(f).contains(p) by {
        let (i, r) = choose|i: int, r: u64|
            0 <= i < nodes.len() && i < nodes.len() && #[trigger] nodes[i].serves_files() && r < VIRTUAL_NODES
                && p == (#[trigger] vnode_pos(nodes[i].uuid, r), nodes[i].uuid);
        let k = i * (VIRTUAL_NODES as int) + r;
        lemma_fundamental_div_mod_converse(k, VIRTUAL_NODES as int, i, r as int);
        assert(0 <= k < n) by (nonlinear_arith)
            requires
                k == i * (VIRTUAL_NODES as int) + r,
                0 <= i < nodes.len(),
                0 <= r < VIRTUAL_NODES,
                n == nodes.len() * (VIRTUAL_NODES as int),
        ;
        assert(set_int_range(0, n).contains(k));
        assert(f(k) == p);
    }
    vstd::set_lib::lemma_set_subset_finite(set_int_range(0, n).map(f), ring_set(nodes));
}

proof fn lemma_point_le_total()
    ensures
        total_ordering(|a: (u64, u64), b: (u64, u64)| point_le(a, b)),
{
}

/// The least point of a finite non-empty set of points.
proof fn lemma_least_point(s: Set<(u64, u64)>) -> (m: (u64, u64))
    requires
        s.finite(),
        s.len() > 0,
    ensures
        s.contains(m),
        forall|q: (u64, u64)| #[trigger] s.contains(q) ==> point_le(m, q),
{
    let le = |a: (u64, u64), b: (u64, u64)| point_le(a, b);
    lemma_point_le_total();
    s.find_unique_minimal_ensures(le);
    let m = s.find_unique_minimal(le);
    assert(is_minimal(le, m, s));
    assert forall|q: (u64, u64)| #[trigger] s.contains(q) implies point_le(m, q) by {
        if !point_le(m, q) {
            assert(point_le(q, m));
            assert(le(q, m));
            assert(le(m, q));
        }
    }
    m
}

/// A ring with at least one point gives every position an owner.
pub proof fn lemma_owner_exists(nodes: Seq<Node>, h: u64)
    requires
        has_file_server(nodes),
    ensures
        is_owner(nodes, h, owner_of(nodes, h)),
{
    let s = ring_set(nodes);
    lemma_ring_set_finite(nodes);
    let i = choose|i: int| 0 <= i < nodes.len() && #[trigger] nodes[i].serves_files();
    let q0 = (vnode_pos(nodes[i].uuid, 0), nodes[i].uuid);
    assert(in_ring(nodes, q0));
    assert(s.contains(q0));
    vstd::set_lib::lemma_set_empty_equivalency_len(s);
    let ge = s.filter(|q: (u64, u64)| q.0 >= h);
    vstd::set_lib::lemma_set_subset_finite(s, ge);
    vstd::set_lib::lemma_set_empty_equivalency_len(ge);
    if exists|q: (u64, u64)| #[trigger] in_ring(nodes, q) && q.0 >= h {
        let q = choose|q: (u64, u64)| #[trigger] in_ring(nodes, q) && q.0 >= h;
        assert(ge.contains(q));
        let m = lemma_least_point(ge);
        assert forall|q2: (u64, u64)| #[trigger] in_ring(nodes, q2) && q2.0 >= h implies point_le(m, q2) by {
            assert(ge.contains(q2));
        }
        assert(is_owner(nodes, h, m));
        lemma_owner_of(nodes, h, m);
    } else {
        let m = lemma_least_point(s);
        assert forall|q2: (u64, u64)| #[trigger] in_ring(nodes, q2) implies q2.0 < h && point_le(m, q2) by {
            assert(s.contains(q2));
        }
        assert(is_owner(nodes, h, m));
        lemma_owner_of(nodes, h, m);
    }
}

/// Every point of the ring of a node list with one member taken out is a
/// point of the full ring.
pub proof fn lemma_ring_remove_subset(nodes: Seq<Node>, x: int, q: (u64, u64))
    requires
        0 <= x < nodes.len(),
        in_ring(nodes.remove(x), q),
    ensures
        in_ring(nodes, q),
{
    let rest = nodes.remove(x);
    let (i, r) = choose|i: int, r: u64|
        0 <= i < rest.len() && i < rest.len() && #[trigger] rest[i].serves_files() && r < VIRTUAL_NODES
            && q == (#[trigger] vnode_pos(rest[i].uuid, r), rest[i].uuid);
    let j = if i < x { i } else { i + 1 };
    assert(nodes[j] == rest[i]);
    assert(nodes[j].serves_files() && q == (vnode_pos(nodes[j].uuid, r), nodes[j].uuid));
}

/// Taking one node out of the ring moves only the positions that node
/// owned: a position owned by a point of any other node keeps that owner.
pub proof fn lemma_removal_keeps_other_owners(nodes: Seq<Node>, x: int, h: u64, p: (u64, u64))
    requires
        0 <= x < nodes.len(),
        is_owner(nodes, h, p),
        p.1 != nodes[x].uuid,
    ensures
        is_owner(nodes.remove(x), h, p),
        owner_of(nodes.remove(x), h) == p,
{
    let rest = nodes.remove(x);
    let (i, r) = choose|i: int, r: u64|
        0 <= i < nodes.len() && i < nodes.len() && #[trigger] nodes[i].serves_files() && r < VIRTUAL_NODES
            && p == (#[trigger] vnode_pos(nodes[i].uuid, r), nodes[i].uuid);
    assert(i != x);
    let j = if i < x { i } else { i - 1 };
    assert(rest[j] == nodes[i]);
    assert(rest[j].serves_files() && p == (vnode_pos(rest[j].uuid, r), rest[j].uuid));
    assert(in_ring(rest, p));
    assert forall|q: (u64, u64)| #[trigger] in_ring(rest, q) implies in_ring(nodes, q) by {
        lemma_ring_remove_subset(nodes, x, q);
    }
    lemma_owner_of(rest, h, p);
}

/// Keys routed to any node other than the removed one keep their node.
pub proof fn lemma_removal_keeps_key_owner(nodes: Seq<Node>, x: int, key: Seq<char>, p: (u64, u64))
    requires
        0 <= x < nodes.len(),
        is_owner(nodes, key_hash(key), p),
        p.1 != nodes[x].uuid,
    ensures
        key_owner(nodes.remove(x), key) == key_owner(nodes, key),
{
    lemma_owner_of(nodes, key_hash(key), p);
    lemma_removal_keeps_other_owners(nodes, x, key_hash(key), p);
}

/// The ring of virtual nodes built for one node list.
pub struct HashRing {
    points: Vec<(u64, u64)>,
    nodes: Ghost<Seq<Node>>,
}

impl View for HashRing {
    type V = Seq<Node>;

    closed spec fn view(&self) -> Seq<Node> {
        self.nodes@
    }
}

impl HashRing {
    /// The stored points are exactly those of the ring of the node list.
    pub closed spec fn wf(&self) -> bool {
        forall|p: (u64, u64)| #[trigger] self.points@.contains(p) <==> in_ring(self.nodes@, p)
    }

    /// Places `VIRTUAL_NODES` points for every file-serving node.
    pub fn new(nodes: &Vec<Node>) -> (r: HashRing)
        ensures
            r.wf(),
            r@ == nodes@,
    {
        let mut points: Vec<(u64, u64)> = Vec::new();
        let mut i: usize = 0;
        while i < nodes.len()
            invariant
                i <= nodes.len(),
                forall|p: (u64, u64)| #[trigger] points@.contains(p) <==> in_ring_upto(nodes@, i as int, p),
            decreases nodes.len() - i,
        {
            if nodes[i].takes_files() {
                let uuid = nodes[i].uuid;
                let mut r: u64 = 0;
                while r < VIRTUAL_NODES
                    invariant
                        i < nodes.len(),
                        uuid == nodes@[i as int].uuid,
                        nodes@[i as int].serves_files(),
                        r <= VIRTUAL_NODES,
                        forall|p: (u64, u64)| #[trigger] points@.contains(p) <==> (in_ring_upto(nodes@, i as int, p)
                            || exists|r2: u64| r2 < r && p == (#[trigger] vnode_pos(uuid, r2), uuid)),
                    decreases VIRTUAL_NODES - r,
                {
                    let pos = vnode_position(uuid, r);
                    let ghost old_points = points@;
                    points.push((pos, uuid));
                    assert forall|p: (u64, u64)| #[trigger] points@.contains(p) <==> (in_ring_upto(nodes@, i as int, p)
                            || exists|r2: u64| r2 < r + 1 && p == (#[trigger] vnode_pos(uuid, r2), uuid)) by {
                        assert(points@ == old_points.push((pos, uuid)));
                        if old_points.contains(p) {
                            let k = choose|k: int| 0 <= k < old_points.len() && old_points[k] == p;
                            assert(points@[k] == p);
                        }
                        if points@.contains(p) {
                            if p == (pos, uuid) {
                                assert(p == (vnode_pos(uuid, r), uuid));
                            } else {
                                let k = choose|k: int| 0 <= k < points@.len() && points@[k] == p;
                                assert(old_points[k] == p);
                                assert(old_points.contains(p));
                                if !in_ring_upto(nodes@, i as int, p) {
                                    let r2 = choose|r2: u64| r2 < r && p == (#[trigger] vnode_pos(uuid, r2), uuid);
                                    assert(r2 < r + 1 && p == (vnode_pos(uuid, r2), uuid));
                                }
                            }
                        }
                        if exists|r2: u64| r2 < r + 1 && p == (#[trigger] vnode_pos(uuid, r2), uuid) {
                            let r2 = choose|r2: u64| r2 < r + 1 && p == (#[trigger] vnode_pos(uuid, r2), uuid);
                            if r2 < r {
                                assert(old_points.contains(p));
                            }
                            assert(points@[old_points.len() as int] == (pos, uuid));
                        }
                        if in_ring_upto(nodes@, i as int, p) {
                            assert(old_points.contains(p));
                        }
                    }
                    r = r + 1;
                }
                assert forall|p: (u64, u64)| #[trigger] points@.contains(p) <==> in_ring_upto(nodes@, i + 1, p) by {
                    if in_ring_upto(nodes@, i + 1, p) {
                        let (i2, r2) = choose|i2: int, r2: u64|
                            0 <= i2 < i + 1 && i2 < nodes@.len() && #[trigger] nodes@[i2].serves_files() && r2 < VIRTUAL_NODES
                                && p == (#[trigger] vnode_pos(nodes@[i2].uuid, r2), nodes@[i2].uuid);
                        if i2 < i {
                            assert(in_ring_upto(nodes@, i as int, p));
                        } else {
                            assert(vnode_pos(uuid, r2) == p.0);
                        }
                    }
                    if points@.contains(p) {
                        if !in_ring_upto(nodes@, i as int, p) {
                            let r2 = choose|r2: u64| r2 < r && p == (#[trigger] vnode_pos(uuid, r2), uuid);
                            assert(nodes@[i as int].serves_files());
                            assert(p == (vnode_pos(nodes@[i as int].uuid, r2), nodes@[i as int].uuid));
                        }
                    }
                }
            } else {
                assert forall|p: (u64, u64)| #[trigger] points@.contains(p) <==> in_ring_upto(nodes@, i + 1, p) by {
                    if in_ring_upto(nodes@, i + 1, p) {
                        let (i2, r2) = choose|i2: int, r2: u64|
                            0 <= i2 < i + 1 && i2 < nodes@.len() && #[trigger] nodes@[i2].serves_files() && r2 < VIRTUAL_NODES
                                && p == (#[trigger] vnode_pos(nodes@[i2].uuid, r2), nodes@[i2].uuid);
                        assert(i2 < i);
                    }
                }
            }
            i = i + 1;
        }
        HashRing { points, nodes: Ghost(nodes@) }
    }

    /// The point owning ring position `h`; `None` when no node takes files.
    pub fn owner(&self, h: u64) -> (r: Option<(u64, u64)>)
        requires
            self.wf(),
        ensures
            r is None <==> !has_file_server(self@),
            r is Some ==> r->0 == owner_of(self@, h) && is_owner(self@, h, r->0),
    {
        let mut best: Option<(u64, u64)> = None;
        let mut best_ge: Option<(u64, u64)> = None;
        let mut j: usize = 0;
        while j < self.points.len()
            invariant
                self.wf(),
                j <= self.points@.len(),
                best is None <==> j == 0,
                best is Some ==> self.points@.contains(best->0) && forall|k: int|
                    0 <= k < j ==> point_le(best->0, #[trigger] self.points@[k]),
                best_ge is None ==> forall|k: int| 0 <= k < j ==> (#[trigger] self.points@[k]).0 < h,
                best_ge is Some ==> self.points@.contains(best_ge->0) && (best_ge->0).0 >= h && forall|k: int|
                    0 <= k < j && (#[trigger] self.points@[k]).0 >= h ==> point_le(best_ge->0, self.points@[k]),
            decreases self.points@.len() - j,
        {
            let p = self.points[j];
            match best {
                None => {
                    best = Some(p);
                },
                Some(b) => {
                    if p.0 < b.0 || (p.0 == b.0 && p.1 < b.1) {
                        best = Some(p);
                    }
                },
            }
            if p.0 >= h {
                match best_ge {
                    None => {
                        best_ge = Some(p);
                    },
                    Some(b) => {
                        if p.0 < b.0 || (p.0 == b.0 && p.1 < b.1) {
                            best_ge = Some(p);
                        }
                    },
                }
            }
            j = j + 1;
        }
        proof {
            if has_file_server(self@) {
                let i = choose|i: int| 0 <= i < self@.len() && #[trigger] self@[i].serves_files();
                let q = (vnode_pos(self@[i].uuid, 0), self@[i].uuid);
                assert(in_ring(self@, q));
                assert(self.points@.contains(q));
            }
            if j > 0 {
                assert(self.points@.contains(self.points@[0]));
                assert(in_ring(self@, self.points@[0]));
            }
        }
        match best_ge {
            Some(b) => {
                proof {
                    assert forall|q: (u64, u64)| #[trigger] in_ring(self@, q) && q.0 >= h implies point_le(b, q) by {
                        assert(self.points@.contains(q));
                    }
                    assert(is_owner(self@, h, b));
                    lemma_owner_of(self@, h, b);
                }
                Some(b)
            },
            None => {
                match best {
                    Some(b) => {
                        proof {
                            assert forall|q: (u64, u64)| #[trigger] in_ring(self@, q) implies q.0 < h && point_le(b, q) by {
                                assert(self.points@.contains(q));
                            }
                            assert(self.points@.contains(b));
                            assert(is_owner(self@, h, b));
                            lemma_owner_of(self@, h, b);
                        }
                        Some(b)
                    },
                    None => None,
                }
            },
        }
    }

    /// Uuid of the node that `key` routes to.
    pub fn node_for_key(&self, key: &str) -> (r: Option<u64>)
        requires
            self.wf(),
        ensures
            r is None <==> !has_file_server(self@),
            r is Some ==> r->0 == key_owner(self@, key@),
            r is Some ==> is_owner(self@, key_hash(key@), owner_of(self@, key_hash(key@))),
    {
        match self.owner(hash_key(key)) {
            Some(p) => Some(p.1),
            None => None,
        }
    }

    /// The node uuid each key routes to, index-aligned with `keys`.
    pub fn route_keys(&self, keys: &Vec<String>) -> (r: Vec<Option<u64>>)
        requires
            self.wf(),
        ensures
            r.len() == keys.len(),
            forall|i: int|
                0 <= i < keys.len() ==> (#[trigger] r@[i] is None <==> !has_file_server(self@)) && (r@[i] is Some
                    ==> r@[i]->0 == key_owner(self@, keys@[i]@)),
    {
        let mut r: Vec<Option<u64>> = Vec::new();
        let mut i: usize = 0;
        while i < keys.len()
            invariant
                self.wf(),
                i <= keys.len(),
                r.len() == i,
                forall|j: int|
                    0 <= j < i ==> (#[trigger] r@[j] is None <==> !has_file_server(self@)) && (r@[j] is Some
                        ==> r@[j]->0 == key_owner(self@, keys@[j]@)),
            decreases keys.len() - i,
        {
            r.push(self.node_for_key(keys[i].as_str()));
            i = i + 1;
        }
        r
    }
}

} // verus!
