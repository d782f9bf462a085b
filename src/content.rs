//! Content blocks: the finalized units of a conversation turn.
use vstd::prelude::*;

verus! {

/// Declares `serde_json::Value`, carried opaquely as a tool call's input.
#[verifier::external_type_specification]
#[verifier::external_body]
pub struct ExJsonValue(serde_json::Value);

/// Plain text produced by the model or supplied by the user.
#[derive(Debug)]
pub struct TextBlock {
    pub text: String,
}

/// A tool invocation requested by the model, with its parsed JSON input.
#[derive(Debug)]
pub struct ToolUseBlock {
    pub id: String,
    pub name: String,
    pub input: serde_json::Value,
}

/// The outcome of a tool invocation, keyed by the id of the call it answers.
#[derive(Debug)]
pub struct ToolResultBlock {
    pub tool_use_id: String,
    pub content: String,
    pub is_error: bool,
}

/// One unit of message content.
#[derive(Debug)]
pub enum ContentBlock {
    Text(TextBlock),
    ToolUse(ToolUseBlock),
    ToolResult(ToolResultBlock),
}

/// Mathematical model of a content block.
pub enum BlockModel {
    Text(Seq<char>),
    ToolUse { id: Seq<char>, name: Seq<char>, input: serde_json::Value },
    ToolResult { tool_use_id: Seq<char>, content: Seq<char>, is_error: bool },
}

impl View for ContentBlock {
    type V = BlockModel;

    open spec fn view(&self) -> BlockModel {
        match self {
            ContentBlock::Text(b) => BlockModel::Text(b.text@),
            ContentBlock::ToolUse(b) => BlockModel::ToolUse {
                id: b.id@,
                name: b.name@,
                input: b.input,
            },
            ContentBlock::ToolResult(b) => BlockModel::ToolResult {
                tool_use_id: b.tool_use_id@,
                content: b.content@,
                is_error: b.is_error,
            },
        }
    }
}

/// The models of a sequence of content blocks, in order.
pub open spec fn blocks_view(bs: Seq<ContentBlock>) -> Seq<BlockModel> {
    bs.map_values(|b: ContentBlock| b@)
}

impl TextBlock {
    /// A text block holding `text`.
    pub fn new(text: &str) -> (r: TextBlock)
        ensures
            r.text@ == text@,
    {
        TextBlock { text: text.to_string() }
    }
}

impl ToolUseBlock {
    /// A tool-use block for the call `id` of tool `name` with `input`.
    pub fn new(id: &str, name: &str, input: serde_json::Value) -> (r: ToolUseBlock)
        ensures
            r.id@ == id@,
            r.name@ == name@,
            r.input == input,
    {
        ToolUseBlock { id: id.to_string(), name: name.to_string(), input }
    }
}

impl ToolResultBlock {
    /// A result block answering the call `tool_use_id`.
    pub fn new(tool_use_id: &str, content: &str, is_error: bool) -> (r: ToolResultBlock)
        ensures
            r.tool_use_id@ == tool_use_id@,
            r.content@ == content@,
            r.is_error == is_error,
    {
        ToolResultBlock { tool_use_id: tool_use_id.to_string(), content: content.to_string(), is_error }
    }
}

} // verus!
