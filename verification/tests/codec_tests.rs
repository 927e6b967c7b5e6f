use livestream_build::bridge::{frame, sift};
use livestream_build::codec::{classify, decode, encode, from_document, to_document, ProtocolError};
use livestream_build::json::Json;
use livestream_build::scan::count_members;
use livestream_build::signal::Signal;

fn candidate(mline_index: u32, text: &str) -> Signal {
    Signal::IceCandidate { mline_index, candidate: text.to_string() }
}

#[test]
fn encode_offer_is_a_single_member_object() {
    let line = encode(&Signal::Offer("v=0...".to_string()));
    assert_eq!(line, "{\"Offer\":\"v=0...\"}");
}

#[test]
fn encode_answer_is_a_single_member_object() {
    let line = encode(&Signal::Answer("v=0...".to_string()));
    assert_eq!(line, "{\"Answer\":\"v=0...\"}");
}

#[test]
fn encode_candidate_writes_index_before_text() {
    let line = encode(&candidate(0, "candidate:1 ..."));
    assert_eq!(line, "{\"IceCandidate\":{\"mline_index\":0,\"candidate\":\"candidate:1 ...\"}}");
}

#[test]
fn encode_escapes_quotes_and_line_breaks() {
    let line = encode(&Signal::Offer("a\"b\r\nc\\".to_string()));
    assert_eq!(line, "{\"Offer\":\"a\\\"b\\r\\nc\\\\\"}");
    assert!(!line.contains('\n'));
}

#[test]
fn round_trip_offer() {
    let m = Signal::Offer("v=0\r\ns=session\r\n".to_string());
    assert_eq!(decode(&encode(&m)), Ok(m));
}

#[test]
fn round_trip_answer() {
    let m = Signal::Answer("v=0\r\ns=\u{e9}\u{4e2d}\"quoted\"\r\n".to_string());
    assert_eq!(decode(&encode(&m)), Ok(m));
}

#[test]
fn round_trip_candidate_index_zero() {
    let m = candidate(0, "candidate:1 1 UDP 2122260223 192.168.1.2 54321 typ host");
    assert_eq!(decode(&encode(&m)), Ok(m));
}

#[test]
fn round_trip_candidate_index_max() {
    let m = candidate(u32::MAX, "");
    let line = encode(&m);
    assert_eq!(line, "{\"IceCandidate\":{\"mline_index\":4294967295,\"candidate\":\"\"}}");
    assert_eq!(decode(&line), Ok(m));
}

#[test]
fn round_trip_empty_descriptions() {
    let offer = Signal::Offer(String::new());
    let answer = Signal::Answer(String::new());
    assert_eq!(decode(&encode(&offer)), Ok(offer));
    assert_eq!(decode(&encode(&answer)), Ok(answer));
}

#[test]
fn round_trip_through_documents() {
    for m in [
        Signal::Offer("o".to_string()),
        Signal::Answer("a".to_string()),
        candidate(0, "c"),
        candidate(u32::MAX, "c"),
    ] {
        assert_eq!(from_document(&to_document(&m)), Some(m));
    }
}

#[test]
fn document_of_a_candidate() {
    let doc = to_document(&candidate(7, "c"));
    let expected = Json::Object(vec![(
        "IceCandidate".to_string(),
        Json::Object(vec![
            ("mline_index".to_string(), Json::Number(Some(7))),
            ("candidate".to_string(), Json::Text("c".to_string())),
        ]),
    )]);
    assert_eq!(doc, expected);
}

#[test]
fn decode_reads_the_three_shapes() {
    assert_eq!(decode("{\"Offer\": \"<sdp text>\"}"), Ok(Signal::Offer("<sdp text>".to_string())));
    assert_eq!(decode("{\"Answer\": \"<sdp text>\"}"), Ok(Signal::Answer("<sdp text>".to_string())));
    assert_eq!(
        decode("{\"IceCandidate\": {\"mline_index\": 3, \"candidate\": \"<text>\"}}"),
        Ok(candidate(3, "<text>"))
    );
}

#[test]
fn decode_accepts_trailing_newline_and_spaces() {
    assert_eq!(decode("  {\"Offer\":\"x\"} \r\n"), Ok(Signal::Offer("x".to_string())));
}

#[test]
fn decode_accepts_candidate_members_in_either_order() {
    assert_eq!(
        decode("{\"IceCandidate\":{\"candidate\":\"c\",\"mline_index\":1}}"),
        Ok(candidate(1, "c"))
    );
}

#[test]
fn decode_unescapes_text() {
    assert_eq!(decode("{\"Offer\":\"a\\nb\\u0041\"}"), Ok(Signal::Offer("a\nbA".to_string())));
}

#[test]
fn decode_rejects_text_that_is_not_json() {
    assert_eq!(decode("garbage"), Err(ProtocolError::NotJson));
    assert_eq!(decode(""), Err(ProtocolError::NotJson));
    assert_eq!(decode("\n"), Err(ProtocolError::NotJson));
    assert_eq!(decode("{\"Offer\":\"x\""), Err(ProtocolError::NotJson));
    assert_eq!(decode("{\"Offer\":\"x\"} {\"Offer\":\"y\"}"), Err(ProtocolError::NotJson));
}

#[test]
fn decode_rejects_unknown_tags() {
    assert_eq!(decode("{\"Bye\":\"x\"}"), Err(ProtocolError::NotSignal));
    assert_eq!(decode("{\"offer\":\"x\"}"), Err(ProtocolError::NotSignal));
    assert_eq!(decode("{}"), Err(ProtocolError::NotSignal));
}

#[test]
fn decode_rejects_more_than_one_tag() {
    assert_eq!(decode("{\"Offer\":\"x\",\"Answer\":\"y\"}"), Err(ProtocolError::NotSignal));
}

#[test]
fn decode_rejects_documents_that_are_no_objects() {
    assert_eq!(decode("null"), Err(ProtocolError::NotSignal));
    assert_eq!(decode("true"), Err(ProtocolError::NotSignal));
    assert_eq!(decode("12"), Err(ProtocolError::NotSignal));
    assert_eq!(decode("\"Offer\""), Err(ProtocolError::NotSignal));
    assert_eq!(decode("[\"Offer\",\"x\"]"), Err(ProtocolError::NotSignal));
}

#[test]
fn decode_rejects_bodies_of_the_wrong_shape() {
    assert_eq!(decode("{\"Offer\":1}"), Err(ProtocolError::NotSignal));
    assert_eq!(decode("{\"Answer\":null}"), Err(ProtocolError::NotSignal));
    assert_eq!(decode("{\"Offer\":{\"mline_index\":0,\"candidate\":\"c\"}}"), Err(ProtocolError::NotSignal));
    assert_eq!(decode("{\"IceCandidate\":\"c\"}"), Err(ProtocolError::NotSignal));
    assert_eq!(decode("{\"IceCandidate\":{\"mline_index\":0}}"), Err(ProtocolError::NotSignal));
    assert_eq!(decode("{\"IceCandidate\":{\"candidate\":\"c\"}}"), Err(ProtocolError::NotSignal));
    assert_eq!(
        decode("{\"IceCandidate\":{\"mline_index\":\"0\",\"candidate\":\"c\"}}"),
        Err(ProtocolError::NotSignal)
    );
}

#[test]
fn decode_rejects_indices_outside_32_bits() {
    assert_eq!(
        decode("{\"IceCandidate\":{\"mline_index\":4294967296,\"candidate\":\"c\"}}"),
        Err(ProtocolError::NotSignal)
    );
    assert_eq!(
        decode("{\"IceCandidate\":{\"mline_index\":-1,\"candidate\":\"c\"}}"),
        Err(ProtocolError::NotSignal)
    );
    assert_eq!(
        decode("{\"IceCandidate\":{\"mline_index\":1.5,\"candidate\":\"c\"}}"),
        Err(ProtocolError::NotSignal)
    );
}

#[test]
fn classify_names_each_failure() {
    assert_eq!(classify(None), Err(ProtocolError::NotJson));
    assert_eq!(classify(Some(Json::Null)), Err(ProtocolError::NotSignal));
    assert_eq!(classify(Some(Json::Array(vec![Json::Bool(true)]))), Err(ProtocolError::NotSignal));
    let doc = Json::Object(vec![("Answer".to_string(), Json::Text("a".to_string()))]);
    assert_eq!(classify(Some(doc)), Ok(Signal::Answer("a".to_string())));
}

#[test]
fn from_document_checks_the_index_range() {
    let body = |n: Option<u64>| {
        Json::Object(vec![(
            "IceCandidate".to_string(),
            Json::Object(vec![
                ("mline_index".to_string(), Json::Number(n)),
                ("candidate".to_string(), Json::Text("c".to_string())),
            ]),
        )])
    };
    assert_eq!(from_document(&body(Some(4294967295))), Some(candidate(u32::MAX, "c")));
    assert_eq!(from_document(&body(Some(4294967296))), None);
    assert_eq!(from_document(&body(None)), None);
}

#[test]
fn frame_ends_the_line() {
    assert_eq!(frame(&Signal::Offer("x".to_string())), "{\"Offer\":\"x\"}\n");
    let framed = frame(&Signal::Answer("a\nb".to_string()));
    assert_eq!(framed.matches('\n').count(), 1);
    assert!(framed.ends_with('\n'));
}

#[test]
fn framed_lines_decode() {
    let m = candidate(2, "candidate:2 ...");
    assert_eq!(decode(&frame(&m)), Ok(m));
}

#[test]
fn sift_skips_garbage_and_keeps_order() {
    let lines = vec![
        "{\"Offer\":\"o\"}\n".to_string(),
        "not json at all\n".to_string(),
        "{\"Hello\":1}\n".to_string(),
        "{\"IceCandidate\":{\"mline_index\":0,\"candidate\":\"c\"}}\n".to_string(),
        String::new(),
        "{\"Answer\":\"a\"}\n".to_string(),
    ];
    assert_eq!(
        sift(&lines),
        vec![Signal::Offer("o".to_string()), candidate(0, "c"), Signal::Answer("a".to_string())]
    );
}

#[test]
fn sift_of_nothing_is_nothing() {
    assert_eq!(sift(&Vec::new()), Vec::<Signal>::new());
    assert_eq!(sift(&vec!["x".to_string()]), Vec::<Signal>::new());
}

#[test]
fn decode_passes_over_unknown_candidate_members() {
    assert_eq!(
        decode("{\"IceCandidate\":{\"mline_index\":0,\"candidate\":\"c\",\"extra\":1}}"),
        Ok(candidate(0, "c"))
    );
    assert_eq!(
        decode("{\"IceCandidate\":{\"x\":{\"a\":[1,{\"b\":2}]},\"candidate\":\"c\",\"y\":null,\"mline_index\":7}}"),
        Ok(candidate(7, "c"))
    );
}

#[test]
fn decode_rejects_a_repeated_tag() {
    assert_eq!(decode("{\"Offer\":\"a\",\"Offer\":\"b\"}"), Err(ProtocolError::NotSignal));
    assert_eq!(decode("{\"Answer\":\"a\", \"Answer\":\"a\"}\n"), Err(ProtocolError::NotSignal));
    assert_eq!(
        decode("{\"IceCandidate\":1,\"IceCandidate\":{\"mline_index\":0,\"candidate\":\"c\"}}"),
        Err(ProtocolError::NotSignal)
    );
}

#[test]
fn decode_rejects_a_repeated_candidate_member() {
    assert_eq!(
        decode("{\"IceCandidate\":{\"mline_index\":0,\"mline_index\":1,\"candidate\":\"c\"}}"),
        Err(ProtocolError::NotSignal)
    );
    assert_eq!(
        decode("{\"IceCandidate\":{\"mline_index\":0,\"candidate\":\"c\",\"candidate\":\"c\"}}"),
        Err(ProtocolError::NotSignal)
    );
    assert_eq!(
        decode("{\"IceCandidate\":{\"mline_index\":0,\"candidate\":\"c\",\"x\":1,\"x\":2}}"),
        Err(ProtocolError::NotSignal)
    );
}

#[test]
fn decode_is_not_misled_by_marks_inside_text() {
    let tricky = "a:b {\"c\":1} [d] \\ \" : end\\";
    let m = Signal::Offer(tricky.to_string());
    assert_eq!(decode(&encode(&m)), Ok(m));
    let c = candidate(1, "\":\":{\"x\":1,\"x\":1}");
    assert_eq!(decode(&encode(&c)), Ok(c));
    assert_eq!(decode("{\"Offer\" : \"a\\\":\\\"b\"}"), Ok(Signal::Offer("a\":\"b".to_string())));
    let wide = Signal::Answer("\u{e9}:\u{4e2d}:\u{1f600}\"".to_string());
    assert_eq!(decode(&encode(&wide)), Ok(wide));
}

#[test]
fn count_members_counts_colons_outside_text() {
    assert_eq!(count_members(""), (0, 0));
    assert_eq!(count_members("{\"Offer\":\"a:b\"}"), (1, 0));
    assert_eq!(count_members("{\"Offer\":\"a\",\"Offer\":\"b\"}"), (2, 0));
    assert_eq!(count_members("{\"IceCandidate\":{\"mline_index\":0,\"candidate\":\"\\\":\"}}"), (1, 2));
    assert_eq!(count_members("[{\"a\":{\"b\":{\"c\":1}}}]"), (0, 1));
}
