use open_agent::{Error, Frame, FrameDecoder};

fn data_of(f: &Frame) -> &str {
    f.data.as_deref().unwrap()
}

#[test]
fn decodes_one_frame_per_blank_line() {
    let mut d = FrameDecoder::new();
    let frames = d.feed(b"data: one\n\ndata: two\n\n").unwrap();
    assert_eq!(frames.len(), 2);
    assert_eq!(data_of(&frames[0]), "one");
    assert_eq!(data_of(&frames[1]), "two");
    assert!(frames[0].event.is_none());
    assert!(!d.is_finished());
}

#[test]
fn buffers_partial_frames_across_reads() {
    let mut d = FrameDecoder::new();
    assert_eq!(d.feed(b"data: hel").unwrap().len(), 0);
    assert_eq!(d.feed(b"lo\n").unwrap().len(), 0);
    let frames = d.feed(b"\ndata: x").unwrap();
    assert_eq!(frames.len(), 1);
    assert_eq!(data_of(&frames[0]), "hello");
    let frames = d.feed(b"\n\n").unwrap();
    assert_eq!(data_of(&frames[0]), "x");
}

#[test]
fn joins_data_lines_and_reads_event_name() {
    let mut d = FrameDecoder::new();
    let frames = d.feed(b"event: message\ndata: a\ndata:b\n: comment\nid: 7\n\n").unwrap();
    assert_eq!(frames.len(), 1);
    assert_eq!(frames[0].event.as_deref(), Some("message"));
    assert_eq!(data_of(&frames[0]), "a\nb");
}

#[test]
fn accepts_crlf_line_endings() {
    let mut d = FrameDecoder::new();
    let frames = d.feed(b"data: one\r\n\r\ndata: two\r\n\r\n").unwrap();
    assert_eq!(frames.len(), 2);
    assert_eq!(data_of(&frames[0]), "one");
    assert_eq!(data_of(&frames[1]), "two");
}

#[test]
fn comment_only_frame_yields_nothing() {
    let mut d = FrameDecoder::new();
    let frames = d.feed(b": keep-alive\n\ndata: x\n\n").unwrap();
    assert_eq!(frames.len(), 1);
    assert_eq!(data_of(&frames[0]), "x");
}

#[test]
fn done_marker_ends_stream_and_ignores_rest() {
    let mut d = FrameDecoder::new();
    let frames = d.feed(b"data: a\n\ndata: [DONE]\n\ndata: b\n\n").unwrap();
    assert_eq!(frames.len(), 1);
    assert_eq!(data_of(&frames[0]), "a");
    assert!(d.is_finished());
    assert_eq!(d.feed(b"data: c\n\n").unwrap().len(), 0);
}

#[test]
fn decodes_utf8_payload() {
    let mut d = FrameDecoder::new();
    let frames = d.feed("data: héllo ✓\n\n".as_bytes()).unwrap();
    assert_eq!(data_of(&frames[0]), "héllo ✓");
}

#[test]
fn malformed_utf8_fails_with_frame_quoted() {
    let mut d = FrameDecoder::new();
    let r = d.feed(b"data: ok\n\ndata: a\xffb\n\n");
    match r {
        Err(Error::Stream(m)) => {
            assert_eq!(m, "malformed event frame: data: a\u{FFFD}b");
        }
        other => panic!("unexpected {:?}", other),
    }
    assert!(d.is_finished());
}

fn decode_in_two(stream: &[u8], at: usize) -> Vec<(Option<String>, Option<String>)> {
    let mut d = FrameDecoder::new();
    let mut out = Vec::new();
    for part in [&stream[..at], &stream[at..]] {
        for f in d.feed(part).unwrap() {
            out.push((f.event, f.data));
        }
    }
    out
}

#[test]
fn any_split_of_the_stream_gives_the_same_frames() {
    let stream: &[u8] = b"event: a\r\ndata: 1\r\n\r\ndata: x\ndata: y\n\n: ping\n\ndata: [DONE]\n\ndata: z\n\n";
    let whole = decode_in_two(stream, stream.len());
    assert_eq!(
        whole,
        vec![
            (Some("a".to_string()), Some("1".to_string())),
            (None, Some("x\ny".to_string())),
        ]
    );
    for at in 0..=stream.len() {
        assert_eq!(decode_in_two(stream, at), whole, "split at {}", at);
    }
}
