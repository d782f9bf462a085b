//! One streamed response: frames decoded from its bytes, deltas aggregated,
//! and the cancellation token checked at each step.
use vstd::prelude::*;
use crate::cancel::CancellationToken;
use crate::content::{ContentBlock, blocks_view};
use crate::delta::{
    AggregatorModel, ChunkDelta, DeltaAggregator, all_arguments_parse, apply_chunk, empty_model,
    finalized_blocks, names_first_bad_call,
};
use crate::error::Error;
use crate::sse::{Frame, FrameDecoder, feed_outcome};

verus! {

/// Assembles the content blocks of one streamed response.
///
/// The caller hands it the response's bytes, parses the payload of each
/// frame it returns into a [`ChunkDelta`], and hands that back; when the
/// stream ends, `finish` yields the blocks. Each step checks the
/// cancellation token: once it is set the response is abandoned, and no
/// block is ever produced from it.
pub struct ResponseAssembler {
    decoder: FrameDecoder,
    aggregator: DeltaAggregator,
    aborted: bool,
    failed: bool,
}

impl ResponseAssembler {
    pub closed spec fn decoder(&self) -> FrameDecoder {
        self.decoder
    }

    /// What has been accumulated.
    pub closed spec fn aggregate(&self) -> AggregatorModel {
        self.aggregator@
    }

    /// The response was abandoned on cancellation.
    pub closed spec fn aborted(&self) -> bool {
        self.aborted
    }

    /// A malformed frame failed the response.
    pub closed spec fn failed(&self) -> bool {
        self.failed
    }

    pub closed spec fn wf(&self) -> bool {
        self.aggregator.wf()
    }

    /// An assembler at the start of a response.
    pub fn new() -> (r: ResponseAssembler)
        ensures
            r.wf(),
            !r.aborted(),
            !r.failed(),
            r.aggregate() == empty_model(),
            r.decoder().pending() == Seq::<u8>::empty(),
            !r.decoder().done(),
    {
        ResponseAssembler {
            decoder: FrameDecoder::new(),
            aggregator: DeltaAggregator::new(),
            aborted: false,
            failed: false,
        }
    }

    /// Whether the byte stream has ended (end-of-stream frame, or a
    /// malformed frame).
    pub fn stream_ended(&self) -> (r: bool)
        ensures
            r == self.decoder().done(),
    {
        self.decoder.is_finished()
    }

    fn abandon(&mut self)
        ensures
            final(self).wf(),
            final(self).aborted(),
            final(self).failed() == old(self).failed(),
            final(self).aggregate() == empty_model(),
    {
        self.aborted = true;
        self.aggregator = DeltaAggregator::new();
    }

    /// Takes the next bytes of the response and returns the frames they
    /// complete. Once the token is set, the response is abandoned with an
    /// interruption, whatever had accumulated.
    pub fn receive_bytes(&mut self, bytes: &[u8], token: &CancellationToken) -> (r: Result<Vec<Frame>, Error>)
        requires
            old(self).wf(),
            !old(self).failed(),
        ensures
            final(self).wf(),
            old(self).aborted() || token.is_set() ==> {
                &&& r matches Err(e) && e is Interrupted
                &&& final(self).aborted()
                &&& !final(self).failed()
                &&& final(self).aggregate() == empty_model()
            },
            !(old(self).aborted() || token.is_set()) ==> {
                &&& feed_outcome(old(self).decoder(), bytes@, r, final(self).decoder())
                &&& final(self).aggregate() == old(self).aggregate()
                &&& !final(self).aborted()
                &&& final(self).failed() == r is Err
            },
    {
        if self.aborted || token.is_cancelled() {
            self.abandon();
            return Err(Error::Interrupted);
        }
        let r = self.decoder.feed(bytes);
        if r.is_err() {
            self.failed = true;
        }
        r
    }

    /// Takes the deltas parsed from one frame's payload; returns whether the
    /// frame carries a finish reason. Once the token is set, the response is
    /// abandoned with an interruption, whatever had accumulated.
    pub fn receive_chunk(&mut self, chunk: &ChunkDelta, token: &CancellationToken) -> (r: Result<bool, Error>)
        requires
            old(self).wf(),
            !old(self).failed(),
        ensures
            final(self).wf(),
            !final(self).failed(),
            old(self).aborted() || token.is_set() ==> {
                &&& r matches Err(e) && e is Interrupted
                &&& final(self).aborted()
                &&& final(self).aggregate() == empty_model()
            },
            !(old(self).aborted() || token.is_set()) ==> {
                &&& r == Ok::<bool, Error>(chunk@.finished)
                &&& final(self).aggregate() == apply_chunk(old(self).aggregate(), chunk@)
                &&& final(self).decoder() == old(self).decoder()
                &&& !final(self).aborted()
            },
    {
        if self.aborted || token.is_cancelled() {
            self.abandon();
            return Err(Error::Interrupted);
        }
        let finished = self.aggregator.apply(chunk);
        Ok(finished)
    }

    /// Ends the response and yields its blocks: the text block first, then
    /// one tool-use block per tool call in ascending index order. An
    /// abandoned response, or one whose token is now set, yields no block but
    /// an interruption; tool arguments that do not parse yield a tool error.
    pub fn finish(self, token: &CancellationToken) -> (r: Result<Vec<ContentBlock>, Error>)
        requires
            self.wf(),
            !self.failed(),
        ensures
            self.aborted() || token.is_set() ==> (r matches Err(e) && e is Interrupted),
            !(self.aborted() || token.is_set()) ==> {
                &&& r is Ok <==> all_arguments_parse(self.aggregate().calls)
                &&& r matches Ok(bs) ==> blocks_view(bs@) == finalized_blocks(self.aggregate())
                &&& r matches Err(e) ==> names_first_bad_call(self.aggregate().calls, e)
            },
    {
        if self.aborted || token.is_cancelled() {
            return Err(Error::Interrupted);
        }
        self.aggregator.finalize()
    }
}

} // verus!
