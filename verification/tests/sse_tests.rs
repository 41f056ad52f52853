use rar_chat::sse::{SseOverflow, SseParser, SsePayload, DEFAULT_BUF_LIMIT};

fn data(s: &str) -> SsePayload {
    SsePayload::Data(s.to_string())
}

fn payloads(input: &[u8]) -> Vec<SsePayload> {
    let mut p = SseParser::new();
    p.push(input).unwrap().into_iter().map(|e| e.payload).collect()
}

#[test]
fn frame_split_across_pushes_reassembles() {
    let mut p = SseParser::new();
    assert!(p.push(b"data: {\"a\":").unwrap().is_empty());
    let evs = p.push(b"1}\n\n").unwrap();
    assert_eq!(evs.len(), 1);
    assert_eq!(evs[0].payload, SsePayload::Data("{\"a\":1}".into()));
}

#[test]
fn crlf_and_lf_terminators_both_work() {
    let mut p = SseParser::new();
    let evs = p.push(b"data: one\r\n\r\ndata: two\n\n").unwrap();
    assert_eq!(evs.len(), 2);
}

#[test]
fn comment_frames_surface_separately() {
    let mut p = SseParser::new();
    let evs = p.push(b": keep-alive\n\n").unwrap();
    assert_eq!(evs.len(), 1);
    assert!(matches!(evs[0].payload, SsePayload::Comment(_)));
}

#[test]
fn multi_data_lines_join_with_newline() {
    let mut p = SseParser::new();
    let evs = p.push(b"data: line1\ndata: line2\n\n").unwrap();
    assert_eq!(evs[0].payload, SsePayload::Data("line1\nline2".into()));
}

#[test]
fn overflow_is_a_typed_error() {
    let mut p = SseParser::with_limit(16);
    let err = p.push(&[b'x'; 64]).unwrap_err();
    assert_eq!(err.limit_bytes, 16);
}

#[test]
fn finish_recovers_unterminated_tail() {
    let mut p = SseParser::new();
    assert!(p.push(b"data: [DONE]").unwrap().is_empty());
    let evs = p.finish();
    assert_eq!(evs.len(), 1);
    assert_eq!(evs[0].payload, SsePayload::Data("[DONE]".into()));
}

#[test]
fn invalid_utf8_frame_is_undecodable_not_lossy() {
    let mut p = SseParser::new();
    let mut frame = b"data: {\"content\":\"".to_vec();
    frame.extend_from_slice(&[0xff, 0xfe]);
    frame.extend_from_slice(b"\"}\n\n");
    let evs = p.push(&frame).unwrap();
    assert_eq!(evs.len(), 1);
    match &evs[0].payload {
        SsePayload::Undecodable { raw, error } => {
            assert_eq!(raw.len(), frame.len() - 2, "raw bytes carried through");
            assert!(error.contains("utf-8"), "error names the decode failure: {error}");
        }
        other => panic!("expected Undecodable, got {other:?}"),
    }
}

#[test]
fn utf8_multibyte_survives_chunk_split() {
    let bytes = "data: café\n\n".as_bytes();
    let mut p = SseParser::new();
    assert!(p.push(&bytes[..8]).unwrap().is_empty());
    let evs = p.push(&bytes[8..]).unwrap();
    assert_eq!(evs[0].payload, SsePayload::Data("café".into()));
}

#[test]
fn undecodable_error_is_the_standard_librarys() {
    let raw = vec![b'd', 0xff, b'a'];
    let mut frame = raw.clone();
    frame.extend_from_slice(b"\n\n");
    let expected = std::str::from_utf8(&raw).unwrap_err().to_string();
    assert_eq!(payloads(&frame), vec![SsePayload::Undecodable { raw, error: expected }]);
}

#[test]
fn any_chunking_gives_the_same_events() {
    let input = "data: a\r\n\r\n: ping\n\ndata: b\ndata: c\n\nevent: x\n\ndata: é\n\ntail".as_bytes();
    let whole = payloads(input);
    assert_eq!(
        whole,
        vec![data("a"), SsePayload::Comment(": ping".to_string()), data("b\nc"), data("é")]
    );
    for size in 1..=input.len() {
        let mut p = SseParser::new();
        let mut got = Vec::new();
        for chunk in input.chunks(size) {
            got.extend(p.push(chunk).unwrap().into_iter().map(|e| e.payload));
        }
        assert_eq!(got, whole, "chunks of {size}");
        assert_eq!(p.buffered(), 4);
    }
}

#[test]
fn other_fields_are_ignored() {
    assert_eq!(payloads(b"event: x\nid: 7\nretry: 1\ndata: kept\n\n"), vec![data("kept")]);
    assert_eq!(payloads(b"event: x\n\n"), vec![]);
    assert_eq!(payloads(b"\n\n"), vec![]);
}

#[test]
fn one_space_after_the_colon_is_taken_off() {
    assert_eq!(payloads(b"data:a\n\n"), vec![data("a")]);
    assert_eq!(payloads(b"data:  a\n\n"), vec![data(" a")]);
    assert_eq!(payloads(b"data\n\n"), vec![data("")]);
}

#[test]
fn raw_length_excludes_the_terminator() {
    let mut p = SseParser::new();
    let evs = p.push(b"data: one\r\n\r\ndata: two\n\n").unwrap();
    assert_eq!(evs[0].raw_byte_len, 9);
    assert_eq!(evs[1].raw_byte_len, 9);
}

#[test]
fn bound_is_tested_on_what_is_left() {
    let mut p = SseParser::with_limit(4);
    assert_eq!(p.push(b"data: long enough\n\nabcd").unwrap().len(), 1);
    assert_eq!(p.buffered(), 4);
    assert_eq!(p.limit_bytes(), 4);
    assert_eq!(p.push(b"e").unwrap_err(), SseOverflow { limit_bytes: 4 });
}

#[test]
fn default_bound_is_a_mebibyte() {
    let p = SseParser::default();
    assert_eq!(p.limit_bytes(), DEFAULT_BUF_LIMIT);
    assert_eq!(DEFAULT_BUF_LIMIT, 1048576);
    assert_eq!(p.buffered(), 0);
}

#[test]
fn residue_is_what_became_no_event() {
    let mut p = SseParser::new();
    p.push(b"event: half").unwrap();
    let (evs, residue) = p.finish_with_residue();
    assert!(evs.is_empty());
    assert_eq!(residue, b"event: half".to_vec());

    let mut p = SseParser::new();
    p.push(b"data: half").unwrap();
    let (evs, residue) = p.finish_with_residue();
    assert_eq!(evs.len(), 1);
    assert!(residue.is_empty());

    let (evs, residue) = SseParser::new().finish_with_residue();
    assert!(evs.is_empty());
    assert!(residue.is_empty());
}

#[test]
fn data_frames_round_trip() {
    for text in ["", "one", "two\nlines", "\n", "a\n\nb", "café ☕", " leading"] {
        let mut frame = String::new();
        for line in text.split('\n') {
            frame.push_str("data: ");
            frame.push_str(line);
            frame.push('\n');
        }
        frame.push('\n');
        assert_eq!(payloads(frame.as_bytes()), vec![data(text)], "{text:?}");
    }
}

#[test]
fn nothing_is_eaten() {
    let input = b"data: a\r\n\r\n: ping\n\ndata: b\ndata: c\n\nrest of it";
    let separators = 4 + 2 + 2;
    let mut p = SseParser::new();
    let framed: usize = p.push(input).unwrap().iter().map(|e| e.raw_byte_len).sum();
    assert_eq!(framed + separators + p.buffered(), input.len());
}

#[test]
fn what_is_left_holds_no_frame() {
    let mut p = SseParser::new();
    p.push(b"data: a\n\ndata: b\r\n\r\ndata: c\n").unwrap();
    assert_eq!(p.buffered(), 8);
    assert!(p.push(b"").unwrap().is_empty());
    assert_eq!(p.buffered(), 8);
    assert_eq!(p.push(b"\n").unwrap().len(), 1);
    assert_eq!(p.buffered(), 0);
}

#[test]
fn a_carriage_return_inside_data_does_not_survive() {
    assert_eq!(payloads(b"data: a\r\ndata: b\n\n"), vec![data("a\nb")]);
}
