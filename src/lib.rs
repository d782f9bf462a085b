//! Streaming completion engine for OpenAI-compatible chat APIs: decoding of
//! server-sent event frames, reassembly of text and tool-call deltas into
//! content blocks, retry with exponential backoff, ordered hook chains and
//! cooperative cancellation.

pub mod cancel;
pub mod content;
pub mod delta;
pub mod error;
pub mod hooks;
pub mod retry;
pub mod sse;
pub mod stream;

pub use cancel::CancellationToken;
pub use content::{ContentBlock, TextBlock, ToolResultBlock, ToolUseBlock};
pub use delta::{ChunkDelta, DeltaAggregator, ToolCallDelta};
pub use error::{Error, Result};
pub use hooks::{ChainOutcome, HookChain, HookDecision, HookPoint, refusal_error};
pub use retry::{
    AttemptFailure, FailureClass, RetryController, RetryDecision, RetryPolicy, backoff_delay,
    jittered_delay, retryable,
};
pub use sse::{Frame, FrameDecoder};
pub use stream::ResponseAssembler;
