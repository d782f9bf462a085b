use open_agent::{ChunkDelta, ContentBlock, DeltaAggregator, Error, ToolCallDelta};

fn text(s: &str) -> ChunkDelta {
    ChunkDelta { content: Some(s.to_string()), tool_calls: vec![], finish_reason: None }
}

fn tool(index: u32, id: Option<&str>, name: Option<&str>, args: Option<&str>) -> ChunkDelta {
    ChunkDelta {
        content: None,
        tool_calls: vec![ToolCallDelta {
            index,
            id: id.map(|s| s.to_string()),
            name: name.map(|s| s.to_string()),
            arguments: args.map(|s| s.to_string()),
        }],
        finish_reason: None,
    }
}

fn finish() -> ChunkDelta {
    ChunkDelta { content: None, tool_calls: vec![], finish_reason: Some("stop".to_string()) }
}

#[test]
fn text_deltas_collapse_into_one_block() {
    let mut agg = DeltaAggregator::new();
    for piece in ["The ", "quick ", "", "fox"] {
        assert!(!agg.apply(&text(piece)));
    }
    assert!(agg.apply(&finish()));
    let blocks = agg.finalize().unwrap();
    assert_eq!(blocks.len(), 1);
    match &blocks[0] {
        ContentBlock::Text(t) => assert_eq!(t.text, "The quick fox"),
        other => panic!("unexpected {:?}", other),
    }
}

#[test]
fn no_text_gives_no_text_block() {
    let mut agg = DeltaAggregator::new();
    agg.apply(&text(""));
    assert_eq!(agg.finalize().unwrap().len(), 0);
}

#[test]
fn whitespace_text_is_kept() {
    let mut agg = DeltaAggregator::new();
    agg.apply(&text("   "));
    let blocks = agg.finalize().unwrap();
    assert_eq!(blocks.len(), 1);
    assert!(matches!(&blocks[0], ContentBlock::Text(t) if t.text == "   "));
}

#[test]
fn interleaved_tool_calls_come_out_in_index_order() {
    let mut agg = DeltaAggregator::new();
    agg.apply(&tool(2, Some("c2"), Some("lookup"), Some("{\"q\":")));
    agg.apply(&tool(0, Some("c0"), Some("calc"), Some("{\"x\"")));
    agg.apply(&tool(2, None, None, Some("\"rust\"}")));
    agg.apply(&tool(0, None, None, Some(":1}")));
    agg.apply(&text("Working"));
    let blocks = agg.finalize().unwrap();
    assert_eq!(blocks.len(), 3);
    assert!(matches!(&blocks[0], ContentBlock::Text(t) if t.text == "Working"));
    match (&blocks[1], &blocks[2]) {
        (ContentBlock::ToolUse(a), ContentBlock::ToolUse(b)) => {
            assert_eq!(a.id, "c0");
            assert_eq!(a.name, "calc");
            assert_eq!(a.input["x"], 1);
            assert_eq!(b.id, "c2");
            assert_eq!(b.name, "lookup");
            assert_eq!(b.input["q"], "rust");
        }
        other => panic!("unexpected {:?}", other),
    }
}

#[test]
fn first_id_and_name_win() {
    let mut agg = DeltaAggregator::new();
    agg.apply(&tool(0, Some(""), None, Some("{")));
    agg.apply(&tool(0, Some("first"), Some("calc"), Some("}")));
    agg.apply(&tool(0, Some("second"), Some("other"), None));
    let blocks = agg.finalize().unwrap();
    match &blocks[0] {
        ContentBlock::ToolUse(t) => {
            assert_eq!(t.id, "first");
            assert_eq!(t.name, "calc");
            assert!(t.input.as_object().unwrap().is_empty());
        }
        other => panic!("unexpected {:?}", other),
    }
}

#[test]
fn several_tool_deltas_in_one_chunk() {
    let mut agg = DeltaAggregator::new();
    let chunk = ChunkDelta {
        content: None,
        tool_calls: vec![
            ToolCallDelta { index: 1, id: Some("b".into()), name: Some("g".into()), arguments: Some("[1".into()) },
            ToolCallDelta { index: 0, id: Some("a".into()), name: Some("f".into()), arguments: Some("true".into()) },
            ToolCallDelta { index: 1, id: None, name: None, arguments: Some(",2]".into()) },
        ],
        finish_reason: Some("tool_calls".into()),
    };
    assert!(agg.apply(&chunk));
    let blocks = agg.finalize().unwrap();
    assert_eq!(blocks.len(), 2);
    match (&blocks[0], &blocks[1]) {
        (ContentBlock::ToolUse(a), ContentBlock::ToolUse(b)) => {
            assert_eq!(a.id, "a");
            assert_eq!(a.input, serde_json::Value::Bool(true));
            assert_eq!(b.id, "b");
            assert_eq!(b.input, serde_json::from_str::<serde_json::Value>("[1,2]").unwrap());
        }
        other => panic!("unexpected {:?}", other),
    }
}

#[test]
fn invalid_arguments_fail_naming_the_call() {
    let mut agg = DeltaAggregator::new();
    agg.apply(&tool(0, Some("ok1"), Some("calc"), Some("{}")));
    agg.apply(&tool(1, Some("bad7"), Some("search"), Some("{\"q\":")));
    match agg.finalize() {
        Err(Error::Tool(m)) => {
            assert_eq!(m, "invalid JSON in arguments of tool call bad7 (search)");
        }
        other => panic!("unexpected {:?}", other),
    }
}

#[test]
fn missing_arguments_are_not_an_empty_object() {
    let mut agg = DeltaAggregator::new();
    agg.apply(&tool(0, Some("t1"), Some("noop"), None));
    assert!(matches!(agg.finalize(), Err(Error::Tool(_))));
}
