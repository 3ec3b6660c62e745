use redis_persist::codec::{decode_node, encode_node};
use redis_persist::connection::{ConnectStep, ConnectionState};
use redis_persist::node::Node;
use redis_persist::persist::{
    key_from_hash, DefaultDerivation, Derivation, FixedDerivation, PersistError, Redis,
};
use redis_persist::store::{KeyValueStore, MemoryStore};

fn node(id: u64, path: &str, chunk: &str) -> Node {
    Node {
        id: Some(id),
        path: path.to_string(),
        chunk: chunk.to_string(),
        ..Default::default()
    }
}

fn read_back<D: Derivation>(redis: &Redis<D>, store: &MemoryStore, node: &Node) -> Option<String> {
    let key = redis.persist_key_for_node(node).unwrap();
    store.get(&key)
}

fn fixed(key: &str, value: &str) -> FixedDerivation {
    FixedDerivation {
        key: Ok(key.to_string()),
        value: Ok(value.to_string()),
    }
}

#[test]
fn test_redis_persist() {
    let redis = Redis::new(DefaultDerivation, 256);
    let mut store = MemoryStore::new(true);
    let node = Node {
        id: Some(1),
        path: "test".into(),
        chunk: "chunk".into(),
        vector: None,
        metadata: Vec::new(),
    };

    redis.store(&mut store, node.clone()).unwrap();
    let stored_node = decode_node(&read_back(&redis, &store, &node).unwrap());

    assert_eq!(node, stored_node.unwrap());
}

#[test]
fn test_redis_batch_persist() {
    let redis = Redis::new(DefaultDerivation, 20);
    let mut store = MemoryStore::new(true);
    let nodes = vec![
        Node {
            id: Some(1),
            path: "test".into(),
            ..Default::default()
        },
        Node {
            id: Some(2),
            path: "other".into(),
            ..Default::default()
        },
    ];

    let streamed_nodes: Vec<Node> = redis
        .batch_store(&mut store, nodes)
        .into_iter()
        .collect::<Result<Vec<_>, _>>()
        .unwrap();

    assert_eq!(streamed_nodes.len(), 2);

    for node in streamed_nodes {
        let stored_node = decode_node(&read_back(&redis, &store, &node).unwrap());
        assert_eq!(node, stored_node.unwrap())
    }
}

#[test]
fn test_redis_custom_persist() {
    let redis = Redis::new(
        fixed("test", "hello world"),
        256,
    );
    let mut store = MemoryStore::new(true);
    let node = Node {
        id: Some(1),
        ..Default::default()
    };

    redis.store(&mut store, node.clone()).unwrap();
    let stored_node = read_back(&redis, &store, &node);

    assert_eq!(stored_node.unwrap(), "hello world");
    assert_eq!(
        redis.persist_key_for_node(&node).unwrap(),
        "test".to_string()
    )
}

#[test]
fn stored_node_reads_back_by_derived_key() {
    let redis = Redis::new(DefaultDerivation, 10);
    let mut store = MemoryStore::new(true);
    let n = Node {
        path: "a".into(),
        chunk: "x".into(),
        ..Default::default()
    };
    let out = redis.store(&mut store, n.clone());
    assert_eq!(out, Ok(n.clone()));
    let back = decode_node(&read_back(&redis, &store, &n).unwrap()).unwrap();
    assert_eq!(back.path, "a");
    assert_eq!(back.chunk, "x");
    assert_eq!(back, n);
}

#[test]
fn batch_of_two_reads_back_both() {
    let redis = Redis::new(DefaultDerivation, 10);
    let mut store = MemoryStore::new(true);
    let a = Node {
        path: "a".into(),
        ..Default::default()
    };
    let b = Node {
        path: "b".into(),
        ..Default::default()
    };
    let out = redis.batch_store(&mut store, vec![a.clone(), b.clone()]);
    assert_eq!(out, vec![Ok(a.clone()), Ok(b.clone())]);
    assert_eq!(decode_node(&read_back(&redis, &store, &a).unwrap()), Some(a));
    assert_eq!(decode_node(&read_back(&redis, &store, &b).unwrap()), Some(b));
}

#[test]
fn constant_key_second_store_overwrites_first() {
    let redis = Redis::new(
        fixed("fixed", "first"),
        10,
    );
    let mut store = MemoryStore::new(true);
    redis.store(&mut store, node(1, "a", "x")).unwrap();
    assert_eq!(store.get(&"fixed".to_string()), Some("first".to_string()));
    let redis = Redis::new(
        fixed("fixed", "second"),
        10,
    );
    redis.store(&mut store, node(2, "b", "y")).unwrap();
    assert_eq!(store.get(&"fixed".to_string()), Some("second".to_string()));
}

#[test]
fn same_default_key_last_write_wins() {
    let redis = Redis::new(DefaultDerivation, 10);
    let mut store = MemoryStore::new(true);
    let first = node(1, "p", "same");
    let second = node(2, "p", "same");
    assert_eq!(
        redis.persist_key_for_node(&first),
        redis.persist_key_for_node(&second)
    );
    redis.store(&mut store, first.clone()).unwrap();
    redis.store(&mut store, second.clone()).unwrap();
    assert_eq!(
        decode_node(&read_back(&redis, &store, &first).unwrap()),
        Some(second)
    );
}

#[test]
fn unreachable_store_fails_every_write() {
    let redis = Redis::new(DefaultDerivation, 10);
    let mut store = MemoryStore::new(false);
    let n = node(1, "a", "x");
    assert_eq!(redis.store(&mut store, n.clone()), Err(PersistError::Connection));
    let out = redis.batch_store(&mut store, vec![n.clone(), node(2, "b", "y")]);
    assert_eq!(
        out,
        vec![Err(PersistError::Connection), Err(PersistError::Connection)]
    );
    assert_eq!(read_back(&redis, &store, &n), None);
    assert_eq!(redis.batch_store(&mut store, Vec::new()), Vec::new());
}

#[test]
fn derivation_failure_aborts_batch_before_writing() {
    let bad_key = Redis::new(
        FixedDerivation {
            key: Err("no key".to_string()),
            value: Ok("v".to_string()),
        },
        10,
    );
    let mut store = MemoryStore::new(true);
    let out = bad_key.batch_store(&mut store, vec![node(1, "a", "x"), node(2, "b", "y")]);
    assert_eq!(out, vec![Err(PersistError::Derivation("no key".to_string()))]);
    assert_eq!(
        bad_key.store(&mut store, node(3, "c", "z")),
        Err(PersistError::Derivation("no key".to_string()))
    );
    let bad_value = Redis::new(
        FixedDerivation {
            key: Ok("k".to_string()),
            value: Err("no value".to_string()),
        },
        10,
    );
    assert_eq!(
        bad_value.store(&mut store, node(4, "d", "w")),
        Err(PersistError::Derivation("no value".to_string()))
    );
    assert_eq!(
        bad_value.batch_store(&mut store, vec![node(5, "e", "v")]),
        vec![Err(PersistError::Derivation("no value".to_string()))]
    );
    assert_eq!(store.get(&"k".to_string()), None);
    let good = Redis::new(fixed("k", "v"), 10);
    assert_eq!(good.store(&mut store, node(6, "f", "u")), Ok(node(6, "f", "u")));
    assert_eq!(store.get(&"k".to_string()), Some("v".to_string()));
}

#[test]
fn failed_write_reports_store_error() {
    let n = node(1, "a", "x");
    assert_eq!(
        Redis::<DefaultDerivation>::complete_store(n.clone(), Err("down".to_string())),
        Err(PersistError::Store("down".to_string()))
    );
    assert_eq!(
        Redis::<DefaultDerivation>::complete_store(n.clone(), Ok(())),
        Ok(n.clone())
    );
    assert_eq!(
        Redis::<DefaultDerivation>::complete_batch(vec![n.clone(), n.clone()], Err("down".to_string())),
        vec![Err(PersistError::Store("down".to_string()))]
    );
    assert_eq!(
        Redis::<DefaultDerivation>::complete_batch(vec![n.clone()], Ok(())),
        vec![Ok(n)]
    );
}

#[test]
fn prepare_steps_follow_connection_and_derivation() {
    let redis = Redis::new(fixed("k", "v"), 3);
    let n = node(1, "a", "x");
    assert_eq!(redis.prepare_store(false, &n), Err(PersistError::Connection));
    assert_eq!(
        redis.prepare_store(true, &n),
        Ok(("k".to_string(), "v".to_string()))
    );
    assert_eq!(
        redis.prepare_batch(true, &vec![n.clone(), n.clone()]),
        Ok(vec![
            ("k".to_string(), "v".to_string()),
            ("k".to_string(), "v".to_string())
        ])
    );
    assert_eq!(redis.prepare_batch(false, &vec![n]), Err(PersistError::Connection));
    assert_eq!(
        Redis::<FixedDerivation>::unreachable_outcomes(3).len(),
        3
    );
}

#[test]
fn default_key_is_path_and_content_hash() {
    let redis = Redis::new(DefaultDerivation, 10);
    let a = node(1, "dir/file.md", "hello");
    let key = redis.persist_key_for_node(&a).unwrap();
    assert!(key.starts_with("dir/file.md:"));
    let hash = &key["dir/file.md:".len()..];
    assert!(!hash.is_empty());
    assert!(hash.chars().all(|c| c.is_ascii_digit()));
    assert_eq!(redis.persist_key_for_node(&a).unwrap(), key);
    let other_chunk = node(1, "dir/file.md", "world");
    assert_ne!(redis.persist_key_for_node(&other_chunk).unwrap(), key);
    let other_id = node(9, "dir/file.md", "hello");
    assert_eq!(redis.persist_key_for_node(&other_id).unwrap(), key);
}

#[test]
fn default_value_is_node_encoding() {
    let redis = Redis::new(DefaultDerivation, 10);
    let n = node(1, "a", "x");
    assert_eq!(redis.persist_value_for_node(&n).unwrap(), "+1:1:a1:x-0:");
    assert_eq!(DefaultDerivation.derive_value(&n), Ok(encode_node(&n)));
}

#[test]
fn setup_and_batch_size() {
    let redis = Redis::new(DefaultDerivation, 20);
    assert_eq!(redis.setup(), Ok(()));
    assert_eq!(redis.batch_size(), Some(20));
}

#[test]
fn memory_store_sets_and_reads() {
    let mut store = MemoryStore::new(true);
    assert!(store.acquire());
    assert_eq!(store.get(&"k".to_string()), None);
    store.set("k".to_string(), "1".to_string()).unwrap();
    store
        .set_many(vec![
            ("j".to_string(), "2".to_string()),
            ("k".to_string(), "3".to_string()),
        ])
        .unwrap();
    assert_eq!(store.get(&"k".to_string()), Some("3".to_string()));
    assert_eq!(store.get(&"j".to_string()), Some("2".to_string()));
    assert!(!MemoryStore::new(false).acquire());
}

#[test]
fn connection_is_opened_once_and_reopened_after_failure() {
    let s = ConnectionState::new();
    assert_eq!(s.next_step(), ConnectStep::Open);
    assert!(!s.is_available());
    let s = ConnectionState::after_open(true);
    assert_eq!(s, ConnectionState::Connected);
    assert_eq!(s.next_step(), ConnectStep::Reuse);
    assert!(s.is_available());
    let s = ConnectionState::after_open(false);
    assert_eq!(s, ConnectionState::Failed);
    assert_eq!(s.next_step(), ConnectStep::Open);
}

#[test]
fn key_is_path_colon_hash() {
    assert_eq!(key_from_hash("a", 42), "a:42");
    assert_eq!(key_from_hash("", 0), ":0");
    assert_eq!(key_from_hash("x/y", u64::MAX), "x/y:18446744073709551615");
}
