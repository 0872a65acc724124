use query_info::kbucket::Key;
use query_info::node_id::NodeId;
use query_info::query_info::{findnode_log2distance, QueryCallback, QueryInfo, QueryType};
use query_info::rpc::RequestBody;

type Record = enr::Enr<k256::ecdsa::SigningKey>;

fn find_node_query(query_type: QueryType, distances_to_request: usize) -> QueryInfo<Record> {
    let (callback, _) = tokio::sync::oneshot::channel();
    QueryInfo {
        query_type,
        untrusted_enrs: Vec::new(),
        callback: QueryCallback::FindNode(callback),
        distances_to_request,
    }
}

fn find_value_query(query_type: QueryType, distances_to_request: usize) -> QueryInfo<Record> {
    let (callback, _) = tokio::sync::mpsc::unbounded_channel();
    QueryInfo {
        query_type,
        untrusted_enrs: Vec::new(),
        callback: QueryCallback::FindValue(callback),
        distances_to_request,
    }
}

#[test]
fn test_log2distance() {
    let target = NodeId::new(&[0u8; 32]);
    let mut destination = [0u8; 32];
    destination[10] = 1; // gives a log2 distance of 169
    let destination = NodeId::new(&destination);

    let expected_distances = vec![169, 170, 168, 171, 167, 172, 166, 173, 165];

    assert_eq!(
        findnode_log2distance(target, destination, expected_distances.len()).unwrap(),
        expected_distances
    );
}

#[test]
fn test_log2distance_lower() {
    let target = NodeId::new(&[0u8; 32]);
    let mut destination = [0u8; 32];
    destination[31] = 8; // gives a log2 distance of 4
    let destination = NodeId::new(&destination);

    let expected_distances = vec![4, 5, 3, 6, 2, 7, 1, 8, 0, 9, 10];

    assert_eq!(
        findnode_log2distance(target, destination, expected_distances.len()).unwrap(),
        expected_distances
    );
}

#[test]
fn test_log2distance_upper() {
    let target = NodeId::new(&[0u8; 32]);
    let mut destination = [0u8; 32];
    destination[0] = 8; // gives a log2 distance of 252
    let destination = NodeId::new(&destination);

    let expected_distances = vec![252, 253, 251, 254, 250, 255, 249, 256, 248, 247, 246];

    assert_eq!(
        findnode_log2distance(target, destination, expected_distances.len()).unwrap(),
        expected_distances
    );
}

#[test]
fn distance_spread_is_deterministic() {
    let target = NodeId::new(&[0x5au8; 32]);
    let mut peer_bytes = [0x5au8; 32];
    peer_bytes[17] = 0x3c;
    let peer = NodeId::new(&peer_bytes);

    let first = findnode_log2distance(target, peer, 40);
    let second = findnode_log2distance(target, peer, 40);
    assert_eq!(first, second);
    assert!(first.is_some());
}

#[test]
fn identical_keys_have_no_distance() {
    let id = NodeId::new(&[7u8; 32]);
    assert_eq!(findnode_log2distance(id, id, 3), None);
}

#[test]
fn identical_keys_fall_back_to_distance_zero() {
    let id = NodeId::new(&[7u8; 32]);
    let info = find_node_query(QueryType::FindNode(id), 3);
    match info.rpc_request(id) {
        RequestBody::FindNode { distances } => assert_eq!(distances, vec![0]),
        _ => panic!("expected a node-lookup request"),
    }
}

#[test]
fn zero_count_yields_empty_spread() {
    let target = NodeId::new(&[0u8; 32]);
    let mut destination = [0u8; 32];
    destination[10] = 1;
    let destination = NodeId::new(&destination);
    assert_eq!(findnode_log2distance(target, destination, 0), Some(vec![]));
}

#[test]
fn lower_boundary_clips_without_duplicates() {
    // log2 distance 1: the downward direction is exhausted immediately, so
    // the upward direction supplies all remaining values consecutively.
    let target = NodeId::new(&[0u8; 32]);
    let mut destination = [0u8; 32];
    destination[31] = 1; // gives a log2 distance of 1
    let destination = NodeId::new(&destination);

    let distances = findnode_log2distance(target, destination, 127).unwrap();
    assert_eq!(distances.len(), 127);
    assert_eq!(&distances[..4], &[1, 2, 0, 3]);
    assert_eq!(distances[126], 126);
    let mut seen = std::collections::HashSet::new();
    for d in &distances {
        assert!(*d <= 256);
        assert!(seen.insert(*d), "duplicate distance {d}");
    }
}

#[test]
fn upper_boundary_clips_without_duplicates() {
    // log2 distance 256: the upward direction is exhausted immediately, so
    // the downward direction supplies all remaining values consecutively.
    let target = NodeId::new(&[0u8; 32]);
    let mut destination = [0u8; 32];
    destination[0] = 0x80; // gives a log2 distance of 256
    let destination = NodeId::new(&destination);

    let distances = findnode_log2distance(target, destination, 5).unwrap();
    assert_eq!(distances, vec![256, 255, 254, 253, 252]);
}

#[test]
fn find_node_request_carries_distances() {
    let target = NodeId::new(&[0u8; 32]);
    let mut peer_bytes = [0u8; 32];
    peer_bytes[10] = 1; // log2 distance 169
    let peer = NodeId::new(&peer_bytes);

    let info = find_node_query(QueryType::FindNode(target), 3);
    match info.rpc_request(peer) {
        RequestBody::FindNode { distances } => assert_eq!(distances, vec![169, 170, 168]),
        _ => panic!("expected a node-lookup request"),
    }
}

#[test]
fn find_value_request_carries_key_and_distances() {
    let key = NodeId::new(&[0u8; 32]);
    let mut peer_bytes = [0u8; 32];
    peer_bytes[10] = 1; // log2 distance 169
    let peer = NodeId::new(&peer_bytes);

    let info = find_value_query(QueryType::FindValue(key), 3);
    match info.rpc_request(peer) {
        RequestBody::FindValue { key: k, distances } => {
            assert_eq!(k, key);
            assert_eq!(distances, vec![169, 170, 168]);
        }
        _ => panic!("expected a value-lookup request"),
    }
}

#[test]
fn both_intents_project_to_the_same_key() {
    let id_bytes = [0x21u8; 32];
    let id = NodeId::new(&id_bytes);

    let node_query = find_node_query(QueryType::FindNode(id), 1);
    let value_query = find_value_query(QueryType::FindValue(id), 1);

    let node_key = node_query.key();
    let value_key = value_query.key();
    assert_eq!(node_key.hash(), id_bytes);
    assert_eq!(value_key.hash(), id_bytes);
    assert_eq!(*node_key.preimage(), id);
    assert_eq!(*value_key.preimage(), id);
}

#[test]
fn mid_range_spread_alternates_exactly() {
    // Distance 169 stands far from both ends of [0, 256], so no candidate is
    // clipped over a spread of 21 and the sequence alternates exactly:
    // upward steps at odd indices, downward steps at even indices.
    let target = NodeId::new(&[0u8; 32]);
    let mut destination = [0u8; 32];
    destination[10] = 1; // gives a log2 distance of 169
    let destination = NodeId::new(&destination);

    let distances = findnode_log2distance(target, destination, 21).unwrap();
    assert_eq!(distances[0], 169);
    for i in 1..21usize {
        let offset = (i as u64 + 1) / 2;
        let expected = if i % 2 == 1 { 169 + offset } else { 169 - offset };
        assert_eq!(distances[i], expected, "at index {i}");
    }
}

#[test]
fn records_accumulate_in_query() {
    let key = k256::ecdsa::SigningKey::from_slice(&[1u8; 32]).unwrap();
    let record: Record = enr::Enr::builder().build(&key).unwrap();

    let id = NodeId::new(&[9u8; 32]);
    let mut info = find_node_query(QueryType::FindNode(id), 1);
    assert!(info.untrusted_enrs.is_empty());
    info.untrusted_enrs.push(record.clone());
    info.untrusted_enrs.push(record);
    assert_eq!(info.untrusted_enrs.len(), 2);
    assert_eq!(info.query_type, QueryType::FindNode(id));
}

#[test]
fn log2_distance_matches_highest_differing_bit() {
    let zero = Key::from_node_id(&NodeId::new(&[0u8; 32]));
    let mut bytes = [0u8; 32];
    bytes[10] = 1;
    let other = Key::from_node_id(&NodeId::new(&bytes));
    assert_eq!(other.log2_distance(&zero), Some(169));
    assert_eq!(zero.log2_distance(&other), Some(169));
    assert_eq!(zero.log2_distance(&zero), None);
}
