use redis_persist::codec::{decode_node, encode_node};
use redis_persist::node::Node;

#[test]
fn encodes_each_field() {
    let n = Node {
        id: None,
        path: "p".into(),
        chunk: "héllo".into(),
        vector: Some(vec![0, 1065353216]),
        metadata: vec![("k".to_string(), "v:1".to_string())],
    };
    assert_eq!(encode_node(&n), "-1:p5:héllo+2:0:1065353216:1:1:k3:v:1");
}

#[test]
fn round_trips_full_node() {
    let n = Node {
        id: Some(u64::MAX),
        path: "a/b:c".into(),
        chunk: "12:34\n".into(),
        vector: Some(vec![1.5f32.to_bits(), (-0.25f32).to_bits(), u32::MAX]),
        metadata: vec![
            ("lang".to_string(), "rust".to_string()),
            ("".to_string(), "".to_string()),
        ],
    };
    let back = decode_node(&encode_node(&n)).unwrap();
    assert_eq!(back, n);
    assert_eq!(f32::from_bits(back.vector.unwrap()[0]), 1.5f32);
}

#[test]
fn round_trips_empty_node() {
    let n = Node::default();
    assert_eq!(encode_node(&n), "-0:0:-0:");
    assert_eq!(decode_node("-0:0:-0:"), Some(n));
}

#[test]
fn rejects_what_encodes_no_node() {
    assert_eq!(decode_node(""), None);
    assert_eq!(decode_node("hello world"), None);
    assert_eq!(decode_node("-0:0:-0:x"), None);
    assert_eq!(decode_node("-5:ab"), None);
    assert_eq!(decode_node("+18446744073709551616:0:0:-0:"), None);
    assert_eq!(decode_node("-0:0:+1:4294967296:0:"), None);
    assert_eq!(decode_node("-0:0:-1:"), None);
}
