use open_agent::{
    CancellationToken, ChunkDelta, ContentBlock, Error, ResponseAssembler, ToolCallDelta,
};
use serde_json::Value;

fn chunk_from_json(payload: &str) -> ChunkDelta {
    let v: Value = serde_json::from_str(payload).unwrap();
    let choice = &v["choices"][0];
    let delta = &choice["delta"];
    let mut tool_calls = Vec::new();
    if let Some(calls) = delta["tool_calls"].as_array() {
        for c in calls {
            tool_calls.push(ToolCallDelta {
                index: c["index"].as_u64().unwrap() as u32,
                id: c["id"].as_str().map(|s| s.to_string()),
                name: c["function"]["name"].as_str().map(|s| s.to_string()),
                arguments: c["function"]["arguments"].as_str().map(|s| s.to_string()),
            });
        }
    }
    ChunkDelta {
        content: delta["content"].as_str().map(|s| s.to_string()),
        tool_calls,
        finish_reason: choice["finish_reason"].as_str().map(|s| s.to_string()),
    }
}

fn run(reads: &[&[u8]], token: &CancellationToken) -> Result<Vec<ContentBlock>, Error> {
    let mut assembler = ResponseAssembler::new();
    for bytes in reads {
        let frames = assembler.receive_bytes(bytes, token)?;
        for f in frames {
            if let Some(data) = f.data {
                if assembler.receive_chunk(&chunk_from_json(&data), token)? {
                    return assembler.finish(token);
                }
            }
        }
        if assembler.stream_ended() {
            break;
        }
    }
    assembler.finish(token)
}

#[test]
fn end_to_end_text_response() {
    let token = CancellationToken::new();
    let body: &[&[u8]] = &[
        b"data: {\"choices\":[{\"delta\":{\"content\":\"Hello\"}}]}\n\n",
        b"data: {\"choices\":[{\"delta\":{\"content\":\" world\"}}]}\n\n",
        b"data: {\"choices\":[{\"delta\":{},\"finish_reason\":\"stop\"}]}\n\ndata: [DONE]\n\n",
    ];
    let blocks = run(body, &token).unwrap();
    assert_eq!(blocks.len(), 1);
    match &blocks[0] {
        ContentBlock::Text(t) => assert_eq!(t.text, "Hello world"),
        other => panic!("unexpected {:?}", other),
    }
}

#[test]
fn end_to_end_tool_response() {
    let token = CancellationToken::new();
    let body: &[&[u8]] = &[
        b"data: {\"choices\":[{\"delta\":{\"tool_calls\":[{\"index\":0,\"id\":\"a1\",\"function\":{\"name\":\"calc\",\"arguments\":\"{\\\"x\\\":\"}}]}}]}\n\n",
        b"data: {\"choices\":[{\"delta\":{\"tool_calls\":[{\"index\":0,\"function\":{\"arguments\":\"1}\"}}]}}]}\n\n",
        b"data: {\"choices\":[{\"delta\":{},\"finish_reason\":\"tool_calls\"}]}\n\n",
    ];
    let blocks = run(body, &token).unwrap();
    assert_eq!(blocks.len(), 1);
    match &blocks[0] {
        ContentBlock::ToolUse(t) => {
            assert_eq!(t.name, "calc");
            assert_eq!(t.id, "a1");
            assert_eq!(t.input, serde_json::from_str::<Value>("{\"x\":1}").unwrap());
        }
        other => panic!("unexpected {:?}", other),
    }
}

#[test]
fn stream_ending_without_finish_reason_still_finalizes() {
    let token = CancellationToken::new();
    let body: &[&[u8]] = &[b"data: {\"choices\":[{\"delta\":{\"content\":\"Hi\"}}]}\n\ndata: [DONE]\n\n"];
    let blocks = run(body, &token).unwrap();
    assert!(matches!(&blocks[0], ContentBlock::Text(t) if t.text == "Hi"));
}

#[test]
fn cancellation_mid_response_yields_interruption_and_no_blocks() {
    let mut token = CancellationToken::new();
    let mut assembler = ResponseAssembler::new();
    let frames = assembler
        .receive_bytes(b"data: {\"choices\":[{\"delta\":{\"content\":\"partial\",\"tool_calls\":[{\"index\":0,\"id\":\"t\",\"function\":{\"name\":\"f\",\"arguments\":\"{\\\"a\\\":\"}}]}}]}\n\n", &token)
        .unwrap();
    assert_eq!(frames.len(), 1);
    assert_eq!(assembler.receive_chunk(&chunk_from_json(frames[0].data.as_deref().unwrap()), &token).unwrap(), false);
    token.cancel();
    assert!(token.is_cancelled());
    assert!(matches!(assembler.receive_bytes(b"data: {}\n\n", &token), Err(Error::Interrupted)));
    let fresh = CancellationToken::new();
    assert!(matches!(assembler.finish(&fresh), Err(Error::Interrupted)));
}

#[test]
fn cancellation_before_finish_yields_interruption() {
    let mut token = CancellationToken::new();
    let mut assembler = ResponseAssembler::new();
    assembler.receive_chunk(&chunk_from_json("{\"choices\":[{\"delta\":{\"content\":\"done\"}}]}"), &token)
        .unwrap();
    token.cancel();
    assert!(token.check().is_err());
    assert!(matches!(assembler.finish(&token), Err(Error::Interrupted)));
}

#[test]
fn malformed_frame_fails_the_response() {
    let token = CancellationToken::new();
    let mut assembler = ResponseAssembler::new();
    assert!(matches!(assembler.receive_bytes(b"data: \xfe\n\n", &token), Err(Error::Stream(_))));
    assert!(assembler.stream_ended());
}
