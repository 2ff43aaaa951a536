use juicy::{
    spec_from_term, BuildString, ChunkedInput, EngineResult, FailureKind, OptionsDesc, PathEntry,
    PeekResult, SSState, SingleStatus, SpecDesc, StreamStatus, StreamingSS, Value, BailType,
};

fn opts(stream: bool, ignore: bool) -> OptionsDesc {
    OptionsDesc { stream, label: None, key_rename_table: None, ignore_unmatched_keys: ignore }
}

fn any() -> SpecDesc {
    SpecDesc::Any(opts(false, false))
}

fn session(desc: SpecDesc, doc: &[u8]) -> StreamingSS {
    let spec = spec_from_term(desc).unwrap();
    StreamingSS::new(SSState::new(spec), ChunkedInput::single(doc.to_vec()), true, 40_000, Vec::new())
}

fn goto(ss: &mut StreamingSS, pos: usize) {
    let p = ss.position();
    ss.skip(pos - p);
}

/// Reads the key at `[start, end)` (quotes at `start - 1` and `end`).
fn key(ss: &mut StreamingSS, start: usize, end: usize) -> Result<(), juicy::ParseFailure> {
    goto(ss, start);
    ss.start_string(true);
    ss.append_string_range(start, end);
    goto(ss, end + 1);
    ss.finalize_string(start - 1, true)
}

fn number(ss: &mut StreamingSS, start: usize, end: usize) -> Result<(), juicy::ParseFailure> {
    goto(ss, end);
    ss.push_number(start, start, end)
}

fn object_entries(v: &Value) -> Vec<(Vec<u8>, String)> {
    match v {
        Value::Object(e) => e
            .iter()
            .map(|(k, v)| {
                let shown = match v {
                    Value::Number(t) => String::from_utf8(t.clone()).unwrap(),
                    Value::Str(t) => format!("\"{}\"", String::from_utf8(t.clone()).unwrap()),
                    other => format!("{:?}", other),
                };
                (k.clone(), shown)
            })
            .collect(),
        other => panic!("not an object: {:?}", other),
    }
}

fn map_keys_ac(ignore: bool) -> SpecDesc {
    SpecDesc::MapKeys(opts(false, ignore), vec![(b"a".to_vec(), any()), (b"c".to_vec(), any())])
}

// {"a":1,"b":2,"c":3}
fn run_abc(ss: &mut StreamingSS) -> Result<(), juicy::ParseFailure> {
    ss.push_map(0)?;
    for (k, n) in [(2usize, 5usize), (8, 11), (14, 17)] {
        key(ss, k, k + 1)?;
        number(ss, n, n + 1)?;
        ss.pop_into_map();
    }
    goto(ss, 19);
    ss.finalize_map(18);
    Ok(())
}

#[test]
fn map_keys_skips_unmatched_when_allowed() {
    let doc = br#"{"a":1,"b":2,"c":3}"#;
    let mut ss = session(map_keys_ac(true), doc);
    run_abc(&mut ss).unwrap();
    match ss.conclude_single(EngineResult::Completed) {
        SingleStatus::Done(v) => assert_eq!(
            object_entries(&v),
            vec![(b"a".to_vec(), "1".to_string()), (b"c".to_vec(), "3".to_string())]
        ),
        other => panic!("{:?}", other),
    }
}

#[test]
fn map_keys_fails_on_unmatched_key() {
    let doc = br#"{"a":1,"b":2,"c":3}"#;
    let mut ss = session(map_keys_ac(false), doc);
    let err = run_abc(&mut ss).unwrap_err();
    assert_eq!(err.kind, FailureKind::UnmatchedKey);
    assert_eq!(err.position, 7);
    match ss.conclude_single(EngineResult::SinkFailed(err)) {
        SingleStatus::Failed(f) => assert_eq!(f.position, 7),
        other => panic!("{:?}", other),
    }
}

#[test]
fn homogeneous_map_keeps_numbers() {
    let doc = br#"{"x":1,"y":2}"#;
    let desc = SpecDesc::MapOf(opts(false, false), Box::new(SpecDesc::Any(opts(false, false))));
    let mut ss = session(desc, doc);
    ss.push_map(0).unwrap();
    key(&mut ss, 2, 3).unwrap();
    number(&mut ss, 5, 6).unwrap();
    ss.pop_into_map();
    key(&mut ss, 8, 9).unwrap();
    number(&mut ss, 11, 12).unwrap();
    ss.pop_into_map();
    goto(&mut ss, 13);
    ss.finalize_map(12);
    match ss.conclude_single(EngineResult::Completed) {
        SingleStatus::Done(v) => assert_eq!(
            object_entries(&v),
            vec![(b"x".to_vec(), "1".to_string()), (b"y".to_vec(), "2".to_string())]
        ),
        other => panic!("{:?}", other),
    }
}

/// A map whose values must be arrays: a string value is a mismatch.
fn number_map() -> SpecDesc {
    SpecDesc::MapOf(opts(false, false), Box::new(SpecDesc::ArrayOf(opts(false, false), Box::new(any()))))
}

#[test]
fn homogeneous_map_rejects_string_where_array_expected() {
    let doc = br#"{"x":"s"}"#;
    let mut ss = session(number_map(), doc);
    ss.push_map(0).unwrap();
    key(&mut ss, 2, 3).unwrap();
    goto(&mut ss, 6);
    ss.start_string(false);
    ss.append_string_range(6, 7);
    goto(&mut ss, 8);
    let err = ss.finalize_string(5, false).unwrap_err();
    assert_eq!(err.kind, FailureKind::StructuralMismatch);
    assert_eq!(err.position, 5);
}

#[test]
fn streamed_array_elements_yield_in_order() {
    let doc = b"[1,2,3]";
    let desc = SpecDesc::ArrayOf(opts(false, false), Box::new(SpecDesc::Any(opts(true, false))));
    let mut ss = session(desc, doc);
    ss.push_array(0).unwrap();
    for n in [1usize, 3, 5] {
        number(&mut ss, n, n + 1).unwrap();
        ss.pop_into_array();
    }
    goto(&mut ss, 7);
    ss.finalize_array(6);
    let (status, yields) = ss.conclude_streaming(EngineResult::Completed);
    assert_eq!(status, StreamStatus::Finished);
    assert_eq!(yields.len(), 3);
    for (i, y) in yields.iter().enumerate() {
        assert_eq!(y.path.len(), 1);
        assert!(matches!(y.path[0], PathEntry::ArrayIndex(j) if j == i));
        match &y.value {
            Value::Number(t) => assert_eq!(t, &format!("{}", i + 1).into_bytes()),
            other => panic!("{:?}", other),
        }
    }
    match ss.conclude_single(EngineResult::Completed) {
        SingleStatus::Done(Value::Array(items)) => {
            assert_eq!(items.len(), 3);
            assert!(items.iter().all(|v| matches!(v, Value::Streamed)));
        }
        other => panic!("{:?}", other),
    }
}

fn split_string(split: usize) -> Vec<u8> {
    let doc = br#""abc""#;
    let spec = spec_from_term(any()).unwrap();
    let mut input = ChunkedInput::new();
    assert!(input.push_chunk(0, doc[..split].to_vec()));
    let mut ss = StreamingSS::new(SSState::new(spec), input, false, 40_000, Vec::new());
    ss.skip(1);
    ss.start_string(false);
    ss.append_string_range(1, split);
    goto(&mut ss, split);
    assert_eq!(ss.peek_char(), PeekResult::Bail(BailType::AwaitInput));
    let (status, _) = ss.conclude_streaming(EngineResult::Bailed(BailType::AwaitInput));
    assert_eq!(status, StreamStatus::AwaitInput);
    assert!(ss.input.push_chunk(split, doc[split..].to_vec()));
    ss.append_string_range(split, 4);
    assert!(matches!(ss.state.current_string, BuildString::Owned(_)));
    goto(&mut ss, 5);
    ss.finalize_string(0, false).unwrap();
    match ss.conclude_single(EngineResult::Completed) {
        SingleStatus::Done(Value::Str(t)) => t,
        other => panic!("{:?}", other),
    }
}

#[test]
fn string_across_chunks_is_promoted() {
    assert_eq!(split_string(3), b"abc".to_vec());
    assert_eq!(split_string(2), b"abc".to_vec());
}

#[test]
fn string_in_one_chunk_stays_borrowed() {
    let mut ss = session(any(), br#""abc""#);
    ss.skip(1);
    ss.start_string(false);
    ss.append_string_range(1, 3);
    ss.append_string_range(3, 4);
    assert!(matches!(ss.state.current_string, BuildString::Range(1, 4)));
    ss.append_string_single(b'!');
    assert!(matches!(ss.state.current_string, BuildString::Owned(ref v) if v == b"abc!"));
    ss.append_string_codepoint('\u{e9}');
    assert!(matches!(ss.state.current_string, BuildString::Owned(ref v) if v == "abc!\u{e9}".as_bytes()));
}

fn numbers_of(v: &Value) -> Vec<Vec<u8>> {
    match v {
        Value::Array(items) => items
            .iter()
            .map(|i| match i {
                Value::Number(t) => t.clone(),
                other => panic!("{:?}", other),
            })
            .collect(),
        other => panic!("{:?}", other),
    }
}

fn run_three(retire: bool) -> (Vec<Vec<u8>>, usize) {
    // [1,2,3] delivered as "[1," and "2,3]".
    let desc = SpecDesc::ArrayOf(opts(false, false), Box::new(any()));
    let spec = spec_from_term(desc).unwrap();
    let mut input = ChunkedInput::new();
    assert!(input.push_chunk(0, b"[1,".to_vec()));
    assert!(input.push_chunk(3, b"2,3]".to_vec()));
    let mut ss = StreamingSS::new(SSState::new(spec), input, true, 40_000, Vec::new());
    ss.push_array(0).unwrap();
    number(&mut ss, 1, 2).unwrap();
    ss.pop_into_array();
    number(&mut ss, 3, 4).unwrap();
    ss.pop_into_array();
    assert_eq!(ss.state.first_needed, 4);
    let mut held = ss.input.chunks_held().len();
    if retire {
        let (status, _) = ss.conclude_streaming(EngineResult::Bailed(BailType::Reschedule));
        assert_eq!(status, StreamStatus::Reschedule);
        held = ss.input.chunks_held().len();
    }
    number(&mut ss, 5, 6).unwrap();
    ss.pop_into_array();
    goto(&mut ss, 7);
    ss.finalize_array(6);
    match ss.conclude_single(EngineResult::Completed) {
        SingleStatus::Done(v) => (numbers_of(&v), held),
        other => panic!("{:?}", other),
    }
}

#[test]
fn retired_chunks_do_not_change_the_result() {
    let (kept, held_kept) = run_three(false);
    let (dropped, held_dropped) = run_three(true);
    assert_eq!(held_kept, 2);
    assert_eq!(held_dropped, 1);
    assert_eq!(kept, vec![b"1".to_vec(), b"2".to_vec(), b"3".to_vec()]);
    assert_eq!(kept, dropped);
}

#[test]
fn reschedule_budget_only_suspends() {
    let doc = b"[1,2,3]";
    let spec = spec_from_term(any()).unwrap();
    let mut ss = StreamingSS::new(SSState::new(spec), ChunkedInput::single(doc.to_vec()), true, 2, Vec::new());
    assert_eq!(ss.peek_char(), PeekResult::Byte(b'['));
    ss.skip(2);
    assert_eq!(ss.peek_char(), PeekResult::Bail(BailType::Reschedule));
    let (status, _) = ss.conclude_streaming(EngineResult::Bailed(BailType::Reschedule));
    assert_eq!(status, StreamStatus::Reschedule);
    let mut resumed = StreamingSS::new(ss.state.clone(), ss.input.clone(), true, 2, Vec::new());
    assert_eq!(resumed.peek_char(), PeekResult::Byte(b','));
    resumed.skip(5);
    assert_eq!(resumed.peek_char(), PeekResult::Eof);
}

#[test]
fn unexpected_token_is_reported_with_position() {
    let mut ss = session(any(), b"[1,]");
    let (status, _) = ss.conclude_streaming(EngineResult::Unexpected(3));
    assert_eq!(status, StreamStatus::Failed(juicy::ParseFailure { position: 3, kind: FailureKind::UnexpectedToken }));
    match ss.conclude_single(EngineResult::Unexpected(3)) {
        SingleStatus::Failed(f) => assert_eq!(f.kind, FailureKind::UnexpectedToken),
        other => panic!("{:?}", other),
    }
}

#[test]
fn renamed_keys_show_in_yield_paths() {
    let doc = br#"{"a":[7]}"#;
    let o = OptionsDesc {
        stream: false,
        label: None,
        key_rename_table: Some(vec![(b"a".to_vec(), b"alpha".to_vec())]),
        ignore_unmatched_keys: false,
    };
    let inner = SpecDesc::ArrayOf(opts(false, false), Box::new(SpecDesc::Any(opts(true, false))));
    let desc = SpecDesc::MapKeys(o, vec![(b"a".to_vec(), inner)]);
    let mut ss = session(desc, doc);
    ss.push_map(0).unwrap();
    key(&mut ss, 2, 3).unwrap();
    goto(&mut ss, 6);
    ss.push_array(5).unwrap();
    number(&mut ss, 6, 7).unwrap();
    let (_, yields) = ss.conclude_streaming(EngineResult::Bailed(BailType::Reschedule));
    assert_eq!(yields.len(), 1);
    assert!(matches!(&yields[0].path[0], PathEntry::MapKey(k) if k == b"alpha"));
    assert!(matches!(yields[0].path[1], PathEntry::ArrayIndex(0)));
}
