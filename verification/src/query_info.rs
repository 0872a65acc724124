//! State of one active lookup and the distance-spread request logic.

use vstd::prelude::*;
use vstd::math::min;
use crate::error::FindValueError;
use crate::kbucket::{log2_distance_of, Key};
use crate::node_id::NodeId;
use crate::rpc::RequestBody;

verus! {

/// Information about a query, generic over the peer-record type `R` it
/// accumulates: the core stores records without reading them, so any record
/// type serves, and the service instantiates `R` with its signed ENR type.
#[derive(Debug)]
#[verifier::reject_recursive_types(R)]
pub struct QueryInfo<R> {
    /// What we are querying and why.
    pub query_type: QueryType,
    /// Temporary ENRs used when trying to reach nodes, untrusted until
    /// verified elsewhere, appended by the service as responses arrive.
    pub untrusted_enrs: Vec<R>,
    /// A callback channel for the service that requested the query.
    pub callback: QueryCallback<R>,
    /// The number of distances we request for each peer. Must not be larger
    /// than 127.
    pub distances_to_request: usize,
}

/// What a query is looking for.
#[derive(Debug, Clone, PartialEq, Eq)]
pub enum QueryType {
    /// Locate the peer records closest to this node identifier; the final
    /// list is reported once, when the query finishes.
    FindNode(NodeId),
    /// Locate a value stored under this key; results are streamed back as
    /// they arrive.
    FindValue(NodeId),
}

/// The channel over which a query delivers results to its originating
/// caller: a single-use channel for a node lookup, an unbounded multi-use
/// channel for a value lookup.
#[derive(Debug)]
#[verifier::reject_recursive_types(R)]
pub enum QueryCallback<R> {
    FindNode(tokio::sync::oneshot::Sender<Vec<R>>),
    FindValue(tokio::sync::mpsc::UnboundedSender<Result<Vec<u8>, FindValueError>>),
}

/// The distance list carried by a request: the spread around the true log2
/// distance between target and peer, or the single fallback distance 0 when
/// the two coincide and no finite distance exists.
pub open spec fn request_distances(target: NodeId, peer: NodeId, count: int) -> Seq<u64> {
    if target@ == peer@ {
        seq![0u64]
    } else {
        spread(log2_distance_of(target@, peer@) as int).take(count)
    }
}

impl<R> QueryInfo<R> {
    /// A query is well formed when its probe count respects the protocol
    /// ceiling of 127 distances per request.
    pub open spec fn wf(&self) -> bool {
        self.distances_to_request <= 127
    }

    /// The identifier the query is looking for, whichever intent carries it.
    pub open spec fn target_id(&self) -> NodeId {
        match self.query_type {
            QueryType::FindNode(node_id) => node_id,
            QueryType::FindValue(key) => key,
        }
    }

    /// Builds an RPC request for `peer`: a node-lookup or value-lookup body
    /// after the query's intent, carrying the spread of distances to probe,
    /// with a single request for distance 0 substituted when no finite
    /// distance to the peer exists.
    pub fn rpc_request(&self, peer: NodeId) -> (r: RequestBody)
        requires
            self.wf(),
        ensures
            ({
                match self.query_type {
                    QueryType::FindNode(node_id) => r matches RequestBody::FindNode { distances }
                        && distances@ == request_distances(
                        node_id,
                        peer,
                        self.distances_to_request as int,
                    ),
                    QueryType::FindValue(key) => r matches RequestBody::FindValue {
                        key: k,
                        distances,
                    } && k == key && distances@ == request_distances(
                        key,
                        peer,
                        self.distances_to_request as int,
                    ),
                }
            }),
    {
        match self.query_type {
            QueryType::FindNode(node_id) => {
                let distances = match findnode_log2distance(
                    node_id,
                    peer,
                    self.distances_to_request,
                ) {
                    Some(v) => v,
                    None => vec![0u64],
                };
                RequestBody::FindNode { distances }
            },
            QueryType::FindValue(key) => {
                let distances = match findnode_log2distance(key, peer, self.distances_to_request) {
                    Some(v) => v,
                    None => vec![0u64],
                };
                RequestBody::FindValue { key, distances }
            },
        }
    }

    /// The key-space projection of the query's target, used by the query
    /// pool to index in-flight queries: both intents project to the key of
    /// the identifier they carry.
    pub fn key(&self) -> (r: Key)
        ensures
            r@ == self.target_id()@,
            r.preimage_spec() == self.target_id(),
    {
        match self.query_type {
            QueryType::FindNode(node_id) => Key::new_raw(node_id, node_id.raw()),
            QueryType::FindValue(key) => Key::new_raw(key, key.raw()),
        }
    }
}

/// The upward candidate at offset `diff` from `dist`: `dist + diff` when it
/// stays within the 256 distance levels, nothing otherwise.
pub open spec fn up_step(dist: int, diff: int) -> Seq<u64> {
    if dist + diff <= 256 {
        seq![(dist + diff) as u64]
    } else {
        Seq::<u64>::empty()
    }
}

/// The downward candidate at offset `diff` from `dist`: `dist - diff` when
/// it does not fall below distance 0, nothing otherwise.
pub open spec fn down_step(dist: int, diff: int) -> Seq<u64> {
    if dist - diff >= 0 {
        seq![(dist - diff) as u64]
    } else {
        Seq::<u64>::empty()
    }
}

/// The spread order cut off after offset `diff - 1`: the exact distance
/// first, then for each offset `1, 2, …, diff - 1` the upward candidate
/// followed by the downward one, out-of-range candidates skipped.
pub open spec fn spread_prefix(dist: int, diff: int) -> Seq<u64>
    decreases diff,
{
    if diff <= 1 {
        seq![dist as u64]
    } else {
        spread_prefix(dist, diff - 1) + up_step(dist, diff - 1) + down_step(dist, diff - 1)
    }
}

/// The full outward-alternating order of in-range distances around `dist`:
/// `dist, dist + 1, dist - 1, dist + 2, dist - 2, …`, with candidates
/// outside `[0, 256]` skipped. For `dist` in `[0, 256]` it holds each of the
/// 257 distance levels exactly once.
pub open spec fn spread(dist: int) -> Seq<u64> {
    spread_prefix(dist, 257)
}

/// How many candidates stand before offset `diff`: the exact distance, plus
/// one upward candidate per offset that stays at or below 256, plus one
/// downward candidate per offset that stays at or above 0.
pub proof fn lemma_spread_prefix_len(dist: int, diff: int)
    requires
        0 <= dist <= 256,
        1 <= diff,
    ensures
        spread_prefix(dist, diff).len() == 1 + min(diff - 1, 256 - dist) + min(diff - 1, dist),
    decreases diff,
{
    if diff > 1 {
        lemma_spread_prefix_len(dist, diff - 1);
    }
}

/// Cutting the spread off later never changes the candidates already
/// produced: `spread_prefix` grows only at its end.
pub proof fn lemma_spread_prefix_extends(dist: int, k1: int, k2: int, n: int)
    requires
        0 <= dist <= 256,
        1 <= k1 <= k2,
        0 <= n <= spread_prefix(dist, k1).len(),
    ensures
        spread_prefix(dist, k2).take(n) == spread_prefix(dist, k1).take(n),
    decreases k2,
{
    if k2 > k1 {
        lemma_spread_prefix_extends(dist, k1, k2 - 1, n);
        lemma_spread_prefix_len(dist, k1);
        lemma_spread_prefix_len(dist, k2 - 1);
        assert(spread_prefix(dist, k2).take(n) =~= spread_prefix(dist, k2 - 1).take(n));
    }
}

/// Every candidate the spread produces lies within the protocol's distance
/// range `[0, 256]`.
pub proof fn lemma_spread_prefix_in_range(dist: int, diff: int)
    requires
        0 <= dist <= 256,
        1 <= diff,
    ensures
        forall|j: int|
            0 <= j < spread_prefix(dist, diff).len() ==> 0 <= #[trigger] spread_prefix(
                dist,
                diff,
            )[j] <= 256,
    decreases diff,
{
    if diff > 1 {
        lemma_spread_prefix_in_range(dist, diff - 1);
        let prev = spread_prefix(dist, diff - 1);
        let s = spread_prefix(dist, diff);
        assert forall|j: int| 0 <= j < s.len() implies 0 <= #[trigger] s[j] <= 256 by {
            if j < prev.len() {
                assert(0 <= prev[j] <= 256);
            } else if j < prev.len() + up_step(dist, diff - 1).len() {
                assert(s[j] == up_step(dist, diff - 1)[j - prev.len()]);
            } else {
                assert(s[j] == down_step(dist, diff - 1)[j - prev.len() - up_step(
                    dist,
                    diff - 1,
                ).len()]);
            }
        }
    }
}

/// The spread always starts with the exact distance.
pub proof fn lemma_spread_prefix_first(dist: int, diff: int)
    requires
        1 <= diff,
    ensures
        spread_prefix(dist, diff).len() >= 1,
        spread_prefix(dist, diff)[0] == dist as u64,
    decreases diff,
{
    if diff > 1 {
        lemma_spread_prefix_first(dist, diff - 1);
    }
}

/// The spread never repeats a distance: every candidate at offset `diff`
/// lies strictly outside the band `[dist - diff + 1, dist + diff - 1]` that
/// holds all earlier candidates.
pub proof fn lemma_spread_prefix_no_dup(dist: int, diff: int)
    requires
        0 <= dist <= 256,
        1 <= diff,
    ensures
        spread_prefix(dist, diff).no_duplicates(),
        forall|j: int|
            0 <= j < spread_prefix(dist, diff).len() ==> dist - (diff - 1) <= #[trigger] spread_prefix(
                dist,
                diff,
            )[j] <= dist + (diff - 1),
    decreases diff,
{
    if diff > 1 {
        lemma_spread_prefix_no_dup(dist, diff - 1);
        let prev = spread_prefix(dist, diff - 1);
        let s = spread_prefix(dist, diff);
        assert forall|i: int, j: int| 0 <= i < j < s.len() implies s[i] != s[j] by {
            if j < prev.len() {
                assert(prev[i] != prev[j]);
            }
        }
    }
}

/// As long as neither end of the range clips a candidate, the spread
/// alternates exactly: after the exact distance, the candidates at odd
/// indices step upward and those at even indices step downward.
pub proof fn lemma_spread_prefix_unclipped(dist: int, diff: int)
    requires
        1 <= diff,
        dist - (diff - 1) >= 0,
        dist + (diff - 1) <= 256,
    ensures
        spread_prefix(dist, diff).len() == 2 * diff - 1,
        forall|i: int|
            1 <= i < 2 * diff - 1 ==> #[trigger] spread_prefix(dist, diff)[i] == (
            if i % 2 == 1 {
                dist + (i + 1) / 2
            } else {
                dist - i / 2
            }) as u64,
    decreases diff,
{
    if diff > 1 {
        lemma_spread_prefix_unclipped(dist, diff - 1);
    }
}

/// Distance bound law: for any true log2 distance and any probe count up to
/// the protocol ceiling, the spread yields exactly `count` distances, each
/// within `[0, 256]`.
pub proof fn lemma_distance_bound(dist: int, count: int)
    requires
        1 <= dist <= 256,
        0 <= count <= 127,
    ensures
        spread(dist).take(count).len() == count,
        forall|j: int| 0 <= j < count ==> 0 <= #[trigger] spread(dist).take(count)[j] <= 256,
{
    lemma_spread_prefix_len(dist, 257);
    lemma_spread_prefix_in_range(dist, 257);
    assert forall|j: int| 0 <= j < count implies 0 <= #[trigger] spread(dist).take(count)[j]
        <= 256 by {
        assert(spread(dist).take(count)[j] == spread_prefix(dist, 257)[j]);
    }
}

/// Centering law: the first distance requested is always the true log2
/// distance between target and peer.
pub proof fn lemma_centering(dist: int, count: int)
    requires
        1 <= dist <= 256,
        1 <= count <= 127,
    ensures
        spread(dist).take(count)[0] as int == dist,
{
    lemma_spread_prefix_len(dist, 257);
    lemma_spread_prefix_first(dist, 257);
    assert(spread(dist).take(count)[0] == spread_prefix(dist, 257)[0]);
}

/// Alternation law: while neither end of the range clips a candidate, the
/// distances after the first alternate outward exactly: upward steps at odd
/// indices, downward steps at even indices.
pub proof fn lemma_alternation(dist: int, count: int, i: int)
    requires
        1 <= dist <= 256,
        1 <= i < count <= 127,
        dist + (i + 1) / 2 <= 256,
        dist - (i + 1) / 2 >= 0,
    ensures
        i % 2 == 1 ==> spread(dist).take(count)[i] as int == dist + (i + 1) / 2,
        i % 2 == 0 ==> spread(dist).take(count)[i] as int == dist - i / 2,
{
    let k = (i + 1) / 2 + 1;
    lemma_spread_prefix_unclipped(dist, k);
    lemma_spread_prefix_len(dist, 257);
    lemma_spread_prefix_extends(dist, k, 257, i + 1);
    assert(spread(dist).take(count)[i] == spread(dist)[i]);
    assert(spread(dist).take(i + 1)[i] == spread(dist)[i]);
    assert(spread_prefix(dist, k).take(i + 1)[i] == spread_prefix(dist, k)[i]);
}

/// Boundary clipping law: a candidate that would leave `[0, 256]` is
/// omitted outright, never replaced: the spread repeats no distance and
/// wraps nothing around the ends of the range.
pub proof fn lemma_boundary_clipping(dist: int, count: int)
    requires
        1 <= dist <= 256,
        0 <= count <= 127,
    ensures
        spread(dist).take(count).no_duplicates(),
        forall|j: int| 0 <= j < count ==> 0 <= #[trigger] spread(dist).take(count)[j] <= 256,
{
    lemma_distance_bound(dist, count);
    lemma_spread_prefix_len(dist, 257);
    lemma_spread_prefix_no_dup(dist, 257);
    let s = spread(dist).take(count);
    assert forall|i: int, j: int|
        0 <= i < s.len() && 0 <= j < s.len() && i != j implies s[i] != s[j] by {
        assert(s[i] == spread_prefix(dist, 257)[i]);
        assert(s[j] == spread_prefix(dist, 257)[j]);
    }
}

/// Determinism law: the distances requested for a peer are a function of
/// the target, the peer, and the probe count alone, with nothing else to
/// influence them.
pub proof fn lemma_determinism(
    target: NodeId,
    peer: NodeId,
    count: int,
    r1: Seq<u64>,
    r2: Seq<u64>,
)
    requires
        r1 == request_distances(target, peer, count),
        r2 == request_distances(target, peer, count),
    ensures
        r1 == r2,
{
}

/// Computes the log2 distance between a target and a destination peer, then
/// the ordered list of `size` distances to request from that peer: the exact
/// distance first, then adjacent distances alternating outward, skipping any
/// that leave `[0, 256]`. Returns `None` when target and peer coincide and
/// no finite log2 distance exists.
pub fn findnode_log2distance(target: NodeId, peer: NodeId, size: usize) -> (r: Option<Vec<u64>>)
    requires
        size <= 127,
    ensures
        (r is Some) <==> target@ != peer@,
        (r matches Some(v) ==> v@ == spread(
            log2_distance_of(target@, peer@) as int,
        ).take(size as int)),
        (r matches Some(v) ==> v@.len() == size),
{
    let dst_key: Key = Key::from_node_id(&peer);
    let target_key: Key = Key::from_node_id(&target);
    let distance: u64 = match dst_key.log2_distance(&target_key) {
        Some(d) => d,
        None => {
            return None;
        },
    };
    proof {
        crate::node_id::lemma_node_id_len(target);
        crate::node_id::lemma_node_id_len(peer);
        crate::kbucket::lemma_xor_bytes_sym(target@, peer@);
    }
    if size == 0 {
        let empty: Vec<u64> = Vec::new();
        proof {
            assert(empty@ =~= spread(distance as int).take(0));
        }
        return Some(empty);
    }
    let mut result_list: Vec<u64> = Vec::new();
    result_list.push(distance);
    let mut difference: u64 = 1;
    proof {
        assert(result_list@ =~= spread_prefix(distance as int, 1));
        assert(result_list@.take(1) =~= result_list@);
    }
    while result_list.len() < size
        invariant
            size <= 127,
            1 <= size,
            1 <= distance <= 256,
            1 <= difference <= 130,
            1 <= result_list.len() <= size,
            result_list@ == spread_prefix(distance as int, difference as int).take(
                result_list.len() as int,
            ),
            result_list.len() <= spread_prefix(distance as int, difference as int).len(),
            result_list.len() == spread_prefix(distance as int, difference as int).len()
                || result_list.len() == size,
        decreases 130 - difference,
    {
        proof {
            lemma_spread_prefix_len(distance as int, difference as int);
            assert(difference <= 129);
            assert(result_list@ =~= spread_prefix(distance as int, difference as int));
        }
        let ghost k = difference as int;
        let ghost d = distance as int;
        if distance + difference <= 256 {
            result_list.push(distance + difference);
        }
        proof {
            assert(result_list@ =~= spread_prefix(d, k) + up_step(d, k));
        }
        if result_list.len() < size {
            if difference <= distance {
                result_list.push(distance - difference);
            }
            proof {
                assert(result_list@ =~= spread_prefix(d, k) + up_step(d, k) + down_step(d, k));
                assert(result_list@ =~= spread_prefix(d, k + 1));
                assert(result_list@.take(result_list.len() as int) =~= result_list@);
            }
        } else {
            proof {
                assert(spread_prefix(d, k + 1).take(result_list.len() as int) =~= result_list@);
            }
        }
        difference = difference + 1;
    }
    proof {
        lemma_spread_prefix_len(distance as int, difference as int);
        lemma_spread_prefix_extends(distance as int, difference as int, 257, size as int);
    }
    Some(result_list)
}

} // verus!
