use juicy::{
    spec_from_term, validate_spec, ConfigurationError, NodeId, NodeVariant, OptionsDesc, SpecDesc,
    ValueType,
};

fn opts(stream: bool) -> OptionsDesc {
    OptionsDesc { stream, label: None, key_rename_table: None, ignore_unmatched_keys: false }
}

#[test]
fn node_matches_by_kind() {
    assert!(NodeVariant::Any.matches(ValueType::Number));
    assert!(NodeVariant::MapOf { child: NodeId(2) }.matches(ValueType::Object));
    assert!(!NodeVariant::MapOf { child: NodeId(2) }.matches(ValueType::Array));
    assert!(NodeVariant::Array { child: NodeId(2) }.matches(ValueType::Array));
    assert!(!NodeVariant::Array { child: NodeId(2) }.matches(ValueType::String));
    assert!(NodeVariant::MapKeys { children: vec![] }.matches(ValueType::Object));
}

#[test]
fn node_children() {
    assert_eq!(NodeVariant::Sentinel.child_root(), Some(NodeId(1)));
    assert_eq!(NodeVariant::MapOf { child: NodeId(4) }.child_key(b"k"), Some(NodeId(4)));
    assert_eq!(NodeVariant::Any.child_key(b"k"), None);
    let mk = NodeVariant::MapKeys { children: vec![(b"a".to_vec(), NodeId(2)), (b"b".to_vec(), NodeId(3))] };
    assert_eq!(mk.child_key(b"b"), Some(NodeId(3)));
    assert_eq!(mk.child_key(b"c"), None);
    assert_eq!(NodeVariant::Array { child: NodeId(5) }.child_index(9), Some(NodeId(5)));
    assert_eq!(NodeVariant::MapOf { child: NodeId(5) }.child_index(0), None);
}

#[test]
fn spec_arena_links_and_stream_collect() {
    let desc = SpecDesc::ArrayOf(
        opts(true),
        Box::new(SpecDesc::MapKeys(opts(false), vec![(b"x".to_vec(), SpecDesc::Any(opts(false)))])),
    );
    let spec = spec_from_term(desc).unwrap();
    assert_eq!(spec.root_id(), NodeId(0));
    assert_eq!(spec.len(), 4);
    assert!(matches!(spec.get(NodeId(0)).variant, NodeVariant::Sentinel));
    assert!(matches!(spec.get(NodeId(1)).variant, NodeVariant::Array { child: NodeId(2) }));
    assert_eq!(spec.get(NodeId(2)).parent, Some(NodeId(1)));
    assert_eq!(spec.get(NodeId(3)).parent, Some(NodeId(2)));
    assert!(spec.get(NodeId(1)).options.stream_collect);
    assert!(!spec.get(NodeId(2)).options.stream);
    assert!(spec.get(NodeId(2)).options.stream_collect);
    assert!(spec.get(NodeId(3)).options.stream_collect);
}

#[test]
fn duplicate_keys_are_a_configuration_error() {
    let desc = SpecDesc::MapKeys(
        opts(false),
        vec![(b"x".to_vec(), SpecDesc::Any(opts(false))), (b"x".to_vec(), SpecDesc::Any(opts(false)))],
    );
    assert_eq!(validate_spec(desc).unwrap_err(), ConfigurationError::DuplicateKey);
    let nested = SpecDesc::MapOf(
        opts(false),
        Box::new(SpecDesc::MapKeys(
            opts(false),
            vec![(b"y".to_vec(), SpecDesc::Any(opts(false))), (b"y".to_vec(), SpecDesc::Any(opts(false)))],
        )),
    );
    assert!(spec_from_term(nested).is_err());
    assert!(validate_spec(SpecDesc::Any(opts(false))).is_ok());
}

#[test]
fn retire_drops_exactly_the_chunks_before_the_watermark() {
    let mut input = juicy::ChunkedInput::new();
    assert!(input.push_chunk(0, b"ab".to_vec()));
    assert!(input.push_chunk(2, b"cd".to_vec()));
    assert!(input.push_chunk(4, b"ef".to_vec()));
    assert!(!input.push_chunk(3, b"x".to_vec()));
    assert!(input.in_one_chunk(2, 4));
    assert!(!input.in_one_chunk(1, 3));
    input.retire(4);
    let starts: Vec<usize> = input.chunks_held().iter().map(|c| c.0).collect();
    assert_eq!(starts, vec![2, 4]);
    assert_eq!(input.byte(4), Some(b'e'));
    assert_eq!(input.byte(0), None);
    input.retire(5);
    let starts: Vec<usize> = input.chunks_held().iter().map(|c| c.0).collect();
    assert_eq!(starts, vec![4]);
}
