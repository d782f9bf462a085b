//! The delta aggregator: reassembles the text and tool-call fragments of one
//! streamed response into finalized content blocks.
use vstd::prelude::*;
use serde_json::Error as JsonError;
use crate::content::{BlockModel, ContentBlock, TextBlock, ToolUseBlock, blocks_view};
use crate::error::Error;

verus! {

/// What `serde_json` parses `text` into when it holds exactly one JSON
/// document; `None` when it does not.
pub uninterp spec fn parsed_json(text: Seq<char>) -> Option<serde_json::Value>;

/// Relies on `serde_json::from_str::<serde_json::Value>`: it succeeds exactly
/// when the text is one JSON document, and the value depends on the text alone.
#[verifier::external_body]
fn parse_json(text: &str) -> (r: core::result::Result<serde_json::Value, JsonError>)
    ensures
        r is Ok <==> parsed_json(text@) is Some,
        r matches Ok(v) ==> parsed_json(text@) == Some(v),
{
    serde_json::from_str::<serde_json::Value>(text)
}

/// One fragment of a tool call, addressed by its stream-assigned index.
#[derive(Debug)]
pub struct ToolCallDelta {
    pub index: u32,
    pub id: Option<String>,
    pub name: Option<String>,
    pub arguments: Option<String>,
}

/// The deltas carried by one event frame of a streamed response.
#[derive(Debug)]
pub struct ChunkDelta {
    /// Text to append to the pending assistant message.
    pub content: Option<String>,
    /// Tool-call fragments, in arrival order.
    pub tool_calls: Vec<ToolCallDelta>,
    /// Present when the frame ends the response.
    pub finish_reason: Option<String>,
}

pub open spec fn opt_chars(o: Option<String>) -> Option<Seq<char>> {
    match o {
        Some(s) => Some(s@),
        None => None,
    }
}

pub open spec fn chars_or_empty(o: Option<Seq<char>>) -> Seq<char> {
    match o {
        Some(s) => s,
        None => Seq::empty(),
    }
}

/// Model of a tool-call fragment.
pub struct ToolDeltaModel {
    pub index: u32,
    pub id: Option<Seq<char>>,
    pub name: Option<Seq<char>>,
    pub arguments: Option<Seq<char>>,
}

impl View for ToolCallDelta {
    type V = ToolDeltaModel;

    open spec fn view(&self) -> ToolDeltaModel {
        ToolDeltaModel {
            index: self.index,
            id: opt_chars(self.id),
            name: opt_chars(self.name),
            arguments: opt_chars(self.arguments),
        }
    }
}

/// Model of the deltas of one frame.
pub struct ChunkModel {
    pub content: Option<Seq<char>>,
    pub tool_calls: Seq<ToolDeltaModel>,
    pub finished: bool,
}

impl View for ChunkDelta {
    type V = ChunkModel;

    open spec fn view(&self) -> ChunkModel {
        ChunkModel {
            content: opt_chars(self.content),
            tool_calls: self.tool_calls@.map_values(|d: ToolCallDelta| d@),
            finished: self.finish_reason is Some,
        }
    }
}

/// Model of an in-flight tool call.
pub struct CallModel {
    pub index: u32,
    pub id: Seq<char>,
    pub name: Seq<char>,
    pub arguments: Seq<char>,
}

/// Model of the aggregator: the pending text and the in-flight tool calls in
/// ascending index order.
pub struct AggregatorModel {
    pub text: Seq<char>,
    pub calls: Seq<CallModel>,
}

/// The aggregator before any frame.
pub open spec fn empty_model() -> AggregatorModel {
    AggregatorModel { text: Seq::empty(), calls: Seq::empty() }
}

/// Applies a fragment to the call it addresses: the first non-empty id and
/// name win, the argument fragment is appended.
pub open spec fn merge_call(c: CallModel, d: ToolDeltaModel) -> CallModel {
    CallModel {
        index: c.index,
        id: if c.id.len() == 0 { chars_or_empty(d.id) } else { c.id },
        name: if c.name.len() == 0 { chars_or_empty(d.name) } else { c.name },
        arguments: c.arguments + chars_or_empty(d.arguments),
    }
}

/// The call that a fragment for a new index opens.
pub open spec fn new_call(d: ToolDeltaModel) -> CallModel {
    merge_call(CallModel { index: d.index, id: Seq::empty(), name: Seq::empty(), arguments: Seq::empty() }, d)
}

/// Applies one fragment to calls kept in ascending index order.
pub open spec fn insert_delta(calls: Seq<CallModel>, d: ToolDeltaModel) -> Seq<CallModel>
    decreases calls.len(),
{
    if calls.len() == 0 {
        seq![new_call(d)]
    } else if calls[0].index == d.index {
        seq![merge_call(calls[0], d)] + calls.drop_first()
    } else if calls[0].index > d.index {
        seq![new_call(d)] + calls
    } else {
        seq![calls[0]] + insert_delta(calls.drop_first(), d)
    }
}

/// Applies fragments in arrival order.
pub open spec fn apply_tool_deltas(calls: Seq<CallModel>, ds: Seq<ToolDeltaModel>) -> Seq<CallModel>
    decreases ds.len(),
{
    if ds.len() == 0 {
        calls
    } else {
        insert_delta(apply_tool_deltas(calls, ds.drop_last()), ds.last())
    }
}

/// The aggregator after one frame's deltas.
pub open spec fn apply_chunk(m: AggregatorModel, c: ChunkModel) -> AggregatorModel {
    AggregatorModel {
        text: m.text + chars_or_empty(c.content),
        calls: apply_tool_deltas(m.calls, c.tool_calls),
    }
}

/// Calls are listed in strictly ascending index order.
pub open spec fn calls_sorted(calls: Seq<CallModel>) -> bool {
    forall|i: int, j: int| 0 <= i < j < calls.len() ==> calls[i].index < calls[j].index
}

/// Every call's arguments parse as JSON.
pub open spec fn all_arguments_parse(calls: Seq<CallModel>) -> bool {
    forall|i: int| 0 <= i < calls.len() ==> (#[trigger] parsed_json(calls[i].arguments)) is Some
}

/// The text block of a finalized response: present when text accumulated.
pub open spec fn text_blocks(text: Seq<char>) -> Seq<BlockModel> {
    if text.len() > 0 {
        seq![BlockModel::Text(text)]
    } else {
        Seq::empty()
    }
}

/// The tool-use block a finalized call becomes.
pub open spec fn tool_block(c: CallModel) -> BlockModel {
    BlockModel::ToolUse { id: c.id, name: c.name, input: parsed_json(c.arguments).unwrap() }
}

/// The blocks of a finalized response: the text block first, then one
/// tool-use block per call in ascending index order.
pub open spec fn finalized_blocks(m: AggregatorModel) -> Seq<BlockModel> {
    text_blocks(m.text) + m.calls.map_values(|c: CallModel| tool_block(c))
}

/// The message of the tool error for a call whose arguments do not parse.
pub open spec fn bad_arguments_message(c: CallModel) -> Seq<char> {
    "invalid JSON in arguments of tool call "@ + c.id + " ("@ + c.name + ")"@
}

/// `e` is the tool error naming the first call whose arguments do not parse.
pub open spec fn names_first_bad_call(calls: Seq<CallModel>, e: Error) -> bool {
    exists|k: int|
        0 <= k < calls.len() && (#[trigger] parsed_json(calls[k].arguments)) is None && (forall|j: int|
            0 <= j < k ==> (#[trigger] parsed_json(calls[j].arguments)) is Some) && (e matches Error::Tool(
            msg,
        ) && msg@ == bad_arguments_message(calls[k]))
}

/// The aggregator after a sequence of frames, applied in arrival order.
pub open spec fn apply_chunks(m: AggregatorModel, cs: Seq<ChunkModel>) -> AggregatorModel
    decreases cs.len(),
{
    if cs.len() == 0 {
        m
    } else {
        apply_chunk(apply_chunks(m, cs.drop_last()), cs.last())
    }
}

/// The text of a sequence of frames, concatenated in arrival order.
pub open spec fn concat_text(cs: Seq<ChunkModel>) -> Seq<char>
    decreases cs.len(),
{
    if cs.len() == 0 {
        Seq::empty()
    } else {
        concat_text(cs.drop_last()) + chars_or_empty(cs.last().content)
    }
}

/// Some call has index `x`.
pub open spec fn has_index(calls: Seq<CallModel>, x: u32) -> bool
    decreases calls.len(),
{
    calls.len() > 0 && (calls[0].index == x || has_index(calls.drop_first(), x))
}

/// The accumulated arguments of the call with index `x`; empty when there is
/// none.
pub open spec fn args_at(calls: Seq<CallModel>, x: u32) -> Seq<char>
    decreases calls.len(),
{
    if calls.len() == 0 {
        Seq::empty()
    } else if calls[0].index == x {
        calls[0].arguments
    } else {
        args_at(calls.drop_first(), x)
    }
}

/// Some fragment addresses index `x`.
pub open spec fn occurs_in(ds: Seq<ToolDeltaModel>, x: u32) -> bool
    decreases ds.len(),
{
    ds.len() > 0 && (ds.last().index == x || occurs_in(ds.drop_last(), x))
}

/// The argument fragments addressed to index `x`, concatenated in arrival
/// order.
pub open spec fn fragments_of(ds: Seq<ToolDeltaModel>, x: u32) -> Seq<char>
    decreases ds.len(),
{
    if ds.len() == 0 {
        Seq::empty()
    } else if ds.last().index == x {
        fragments_of(ds.drop_last(), x) + chars_or_empty(ds.last().arguments)
    } else {
        fragments_of(ds.drop_last(), x)
    }
}

proof fn lemma_text_only(cs: Seq<ChunkModel>)
    requires
        forall|i: int| 0 <= i < cs.len() ==> (#[trigger] cs[i]).tool_calls.len() == 0,
    ensures
        apply_chunks(empty_model(), cs) == (AggregatorModel { text: concat_text(cs), calls: Seq::empty() }),
    decreases cs.len(),
{
    if cs.len() > 0 {
        let init = cs.drop_last();
        assert forall|i: int| 0 <= i < init.len() implies (#[trigger] init[i]).tool_calls.len() == 0 by {
            assert(init[i] == cs[i]);
        }
        lemma_text_only(init);
        assert(cs.last() == cs[cs.len() - 1]);
    } else {
        assert(concat_text(cs) =~= Seq::<char>::empty());
    }
}

/// Text collapses into one block: when frames carry only text, finalization
/// yields exactly one text block holding the text of all frames concatenated
/// in arrival order (provided that text is not empty).
pub proof fn lemma_text_deltas_collapse(cs: Seq<ChunkModel>)
    requires
        forall|i: int| 0 <= i < cs.len() ==> (#[trigger] cs[i]).tool_calls.len() == 0,
        concat_text(cs).len() > 0,
    ensures
        all_arguments_parse(apply_chunks(empty_model(), cs).calls),
        finalized_blocks(apply_chunks(empty_model(), cs)) == seq![BlockModel::Text(concat_text(cs))],
{
    lemma_text_only(cs);
    let m = apply_chunks(empty_model(), cs);
    assert(m.calls.map_values(|c: CallModel| tool_block(c)) =~= Seq::<BlockModel>::empty());
    assert(finalized_blocks(m) =~= seq![BlockModel::Text(concat_text(cs))]);
}

proof fn lemma_args_absent(calls: Seq<CallModel>, x: u32)
    requires
        forall|j: int| 0 <= j < calls.len() ==> (#[trigger] calls[j]).index != x,
    ensures
        args_at(calls, x) == Seq::<char>::empty(),
        !has_index(calls, x),
    decreases calls.len(),
{
    if calls.len() > 0 {
        let rest = calls.drop_first();
        assert forall|j: int| 0 <= j < rest.len() implies (#[trigger] rest[j]).index != x by {
            assert(rest[j] == calls[j + 1]);
        }
        lemma_args_absent(rest, x);
    }
}

proof fn lemma_insert_args(calls: Seq<CallModel>, d: ToolDeltaModel, x: u32)
    requires
        calls_sorted(calls),
    ensures
        args_at(insert_delta(calls, d), x) == args_at(calls, x) + (if x == d.index {
            chars_or_empty(d.arguments)
        } else {
            Seq::<char>::empty()
        }),
        has_index(insert_delta(calls, d), x) == (has_index(calls, x) || x == d.index),
    decreases calls.len(),
{
    let r = insert_delta(calls, d);
    let e = Seq::<char>::empty();
    if calls.len() == 0 {
        assert(r[0] == new_call(d));
        assert(r[0].arguments =~= e + chars_or_empty(d.arguments));
        assert(r.drop_first() =~= Seq::<CallModel>::empty());
        assert(args_at(r.drop_first(), x) == e);
        assert(!has_index(r.drop_first(), x));
        assert(args_at(calls, x) + e =~= e);
        assert(args_at(r, x) =~= args_at(calls, x) + (if x == d.index {
            chars_or_empty(d.arguments)
        } else {
            e
        }));
    } else {
        let rest = calls.drop_first();
        if calls[0].index == d.index {
            assert(r.drop_first() =~= rest);
            assert(args_at(r, x) =~= args_at(calls, x) + (if x == d.index {
                chars_or_empty(d.arguments)
            } else {
                e
            }));
        } else if calls[0].index > d.index {
            assert(r.drop_first() =~= calls);
            if x == d.index {
                assert forall|j: int| 0 <= j < calls.len() implies (#[trigger] calls[j]).index != x by {
                    if j > 0 {
                        assert(calls[0].index < calls[j].index);
                    }
                }
                lemma_args_absent(calls, x);
                assert(r[0].arguments =~= e + chars_or_empty(d.arguments));
            }
            assert(args_at(r, x) =~= args_at(calls, x) + (if x == d.index {
                chars_or_empty(d.arguments)
            } else {
                e
            }));
        } else {
            assert(calls_sorted(rest)) by {
                assert forall|i: int, j: int| 0 <= i < j < rest.len() implies rest[i].index
                    < rest[j].index by {
                    assert(rest[i] == calls[i + 1]);
                    assert(rest[j] == calls[j + 1]);
                }
            }
            lemma_insert_args(rest, d, x);
            assert(r.drop_first() =~= insert_delta(rest, d));
            assert(args_at(r, x) =~= args_at(calls, x) + (if x == d.index {
                chars_or_empty(d.arguments)
            } else {
                e
            }));
        }
    }
}

proof fn lemma_args_at_own_index(calls: Seq<CallModel>, k: int)
    requires
        calls_sorted(calls),
        0 <= k < calls.len(),
    ensures
        args_at(calls, calls[k].index) == calls[k].arguments,
    decreases k,
{
    if k > 0 {
        let rest = calls.drop_first();
        assert(calls_sorted(rest)) by {
            assert forall|i: int, j: int| 0 <= i < j < rest.len() implies rest[i].index
                < rest[j].index by {
                assert(rest[i] == calls[i + 1]);
                assert(rest[j] == calls[j + 1]);
            }
        }
        assert(calls[0].index < calls[k].index);
        assert(rest[k - 1] == calls[k]);
        lemma_args_at_own_index(rest, k - 1);
    }
}

proof fn lemma_fold_tool_deltas(ds: Seq<ToolDeltaModel>)
    ensures
        calls_sorted(apply_tool_deltas(Seq::empty(), ds)),
        forall|x: u32|
            #![trigger args_at(apply_tool_deltas(Seq::empty(), ds), x)]
            args_at(apply_tool_deltas(Seq::empty(), ds), x) == fragments_of(ds, x),
        forall|x: u32|
            #![trigger has_index(apply_tool_deltas(Seq::empty(), ds), x)]
            has_index(apply_tool_deltas(Seq::empty(), ds), x) == occurs_in(ds, x),
    decreases ds.len(),
{
    if ds.len() > 0 {
        let init = ds.drop_last();
        let d = ds.last();
        lemma_fold_tool_deltas(init);
        let prev = apply_tool_deltas(Seq::empty(), init);
        lemma_insert_sorted(prev, d, -1);
        assert forall|x: u32|
            #![trigger args_at(apply_tool_deltas(Seq::empty(), ds), x)]
            args_at(apply_tool_deltas(Seq::empty(), ds), x) == fragments_of(ds, x) by {
            lemma_insert_args(prev, d, x);
            assert(args_at(prev, x) == fragments_of(init, x));
            if x != d.index {
                assert(fragments_of(init, x) + Seq::<char>::empty() =~= fragments_of(init, x));
            }
        }
        assert forall|x: u32|
            #![trigger has_index(apply_tool_deltas(Seq::empty(), ds), x)]
            has_index(apply_tool_deltas(Seq::empty(), ds), x) == occurs_in(ds, x) by {
            lemma_insert_args(prev, d, x);
            assert(has_index(prev, x) == occurs_in(init, x));
        }
    } else {
        assert forall|x: u32|
            #![trigger args_at(apply_tool_deltas(Seq::empty(), ds), x)]
            args_at(apply_tool_deltas(Seq::empty(), ds), x) == fragments_of(ds, x) by {}
        assert forall|x: u32|
            #![trigger has_index(apply_tool_deltas(Seq::empty(), ds), x)]
            has_index(apply_tool_deltas(Seq::empty(), ds), x) == occurs_in(ds, x) by {}
    }
}

/// The tool-call fragments of a sequence of frames, in arrival order.
pub open spec fn tool_deltas_of(cs: Seq<ChunkModel>) -> Seq<ToolDeltaModel>
    decreases cs.len(),
{
    if cs.len() == 0 {
        Seq::empty()
    } else {
        tool_deltas_of(cs.drop_last()) + cs.last().tool_calls
    }
}

proof fn lemma_apply_tool_deltas_concat(calls: Seq<CallModel>, a: Seq<ToolDeltaModel>, b: Seq<ToolDeltaModel>)
    ensures
        apply_tool_deltas(calls, a + b) == apply_tool_deltas(apply_tool_deltas(calls, a), b),
    decreases b.len(),
{
    if b.len() == 0 {
        assert(a + b =~= a);
    } else {
        lemma_apply_tool_deltas_concat(calls, a, b.drop_last());
        assert((a + b).drop_last() =~= a + b.drop_last());
        assert((a + b).last() == b.last());
    }
}

proof fn lemma_chunks_model(cs: Seq<ChunkModel>)
    ensures
        apply_chunks(empty_model(), cs) == (AggregatorModel {
            text: concat_text(cs),
            calls: apply_tool_deltas(Seq::empty(), tool_deltas_of(cs)),
        }),
    decreases cs.len(),
{
    if cs.len() > 0 {
        let init = cs.drop_last();
        lemma_chunks_model(init);
        lemma_apply_tool_deltas_concat(Seq::empty(), tool_deltas_of(init), cs.last().tool_calls);
    } else {
        assert(tool_deltas_of(cs) =~= Seq::<ToolDeltaModel>::empty());
        assert(concat_text(cs) =~= Seq::<char>::empty());
    }
}

/// Interleaved tool-call fragments are reassembled per index: after any
/// sequence of frames the calls stand in strictly ascending index order, one
/// for each index that some fragment addresses, and finalization turns each
/// into one tool-use block, after the text block if there is one, whose
/// input is the JSON parse of that index's fragments concatenated in
/// arrival order.
pub proof fn lemma_tool_fragments_reassembled(cs: Seq<ChunkModel>)
    ensures
        ({
            let ds = tool_deltas_of(cs);
            let m = apply_chunks(empty_model(), cs);
            let t = text_blocks(m.text).len();
            let blocks = finalized_blocks(m);
            &&& calls_sorted(m.calls)
            &&& forall|x: u32| #[trigger] has_index(m.calls, x) == occurs_in(ds, x)
            &&& blocks.len() == t + m.calls.len()
            &&& forall|k: int|
                0 <= k < m.calls.len() ==> #[trigger] blocks[t + k] == (BlockModel::ToolUse {
                    id: m.calls[k].id,
                    name: m.calls[k].name,
                    input: parsed_json(fragments_of(ds, m.calls[k].index)).unwrap(),
                })
        }),
{
    lemma_chunks_model(cs);
    let ds = tool_deltas_of(cs);
    lemma_fold_tool_deltas(ds);
    let m = apply_chunks(empty_model(), cs);
    let calls = m.calls;
    let t = text_blocks(m.text).len();
    let blocks = finalized_blocks(m);
    let tools = calls.map_values(|c: CallModel| tool_block(c));
    assert(blocks == text_blocks(m.text) + tools);
    assert forall|k: int| 0 <= k < calls.len() implies #[trigger] blocks[t + k] == (BlockModel::ToolUse {
        id: calls[k].id,
        name: calls[k].name,
        input: parsed_json(fragments_of(ds, calls[k].index)).unwrap(),
    }) by {
        assert(blocks[t + k] == tools[k]);
        lemma_args_at_own_index(calls, k);
        assert(args_at(calls, calls[k].index) == fragments_of(ds, calls[k].index));
    }
}

/// An in-flight tool call.
struct InFlightToolCall {
    index: u32,
    id: String,
    name: String,
    arguments: String,
}

impl View for InFlightToolCall {
    type V = CallModel;

    closed spec fn view(&self) -> CallModel {
        CallModel { index: self.index, id: self.id@, name: self.name@, arguments: self.arguments@ }
    }
}

/// Accumulates the deltas of one streamed response.
pub struct DeltaAggregator {
    text: String,
    calls: Vec<InFlightToolCall>,
}

fn text_or_empty(o: &Option<String>) -> (r: String)
    ensures
        r@ == chars_or_empty(opt_chars(*o)),
{
    match o {
        Some(s) => s.clone(),
        None => String::new(),
    }
}

proof fn lemma_insert_sorted(calls: Seq<CallModel>, d: ToolDeltaModel, lo: int)
    requires
        calls_sorted(calls),
        forall|j: int| 0 <= j < calls.len() ==> calls[j].index > lo,
        d.index > lo,
    ensures
        calls_sorted(insert_delta(calls, d)),
        forall|k: int| 0 <= k < insert_delta(calls, d).len() ==> insert_delta(calls, d)[k].index > lo,
    decreases calls.len(),
{
    if calls.len() > 0 && calls[0].index < d.index {
        let rest = calls.drop_first();
        lemma_insert_sorted(rest, d, calls[0].index as int);
    }
}

proof fn lemma_insert_split(calls: Seq<CallModel>, d: ToolDeltaModel, p: int)
    requires
        0 <= p <= calls.len(),
        forall|j: int| 0 <= j < p ==> calls[j].index < d.index,
    ensures
        insert_delta(calls, d) == calls.take(p) + insert_delta(calls.skip(p), d),
    decreases p,
{
    if p > 0 {
        let rest = calls.drop_first();
        lemma_insert_split(rest, d, p - 1);
        assert(rest.take(p - 1) == calls.take(p).drop_first());
        assert(rest.skip(p - 1) == calls.skip(p));
        assert(calls.take(p) == seq![calls[0]] + calls.take(p).drop_first());
    } else {
        assert(calls.skip(0) == calls);
    }
}

impl DeltaAggregator {
    pub closed spec fn view(&self) -> AggregatorModel {
        AggregatorModel { text: self.text@, calls: self.calls@.map_values(|c: InFlightToolCall| c@) }
    }

    /// The in-flight calls are kept in ascending index order.
    pub closed spec fn wf(&self) -> bool {
        calls_sorted(self@.calls)
    }

    /// An aggregator with nothing accumulated.
    pub fn new() -> (r: DeltaAggregator)
        ensures
            r.wf(),
            r@ == empty_model(),
    {
        let r = DeltaAggregator { text: String::new(), calls: Vec::new() };
        assert(r@.calls =~= Seq::<CallModel>::empty());
        r
    }

    fn apply_tool_delta(&mut self, d: &ToolCallDelta)
        requires
            old(self).wf(),
        ensures
            final(self).wf(),
            final(self)@ == (AggregatorModel {
                text: old(self)@.text,
                calls: insert_delta(old(self)@.calls, d@),
            }),
    {
        let ghost before = self@.calls;
        let n = self.calls.len();
        let mut p: usize = 0;
        while p < n && self.calls[p].index < d.index
            invariant
                p <= n,
                n == self.calls.len(),
                self@.calls == before,
                forall|j: int| 0 <= j < p ==> before[j].index < d.index,
            decreases n - p,
        {
            p = p + 1;
        }
        proof {
            lemma_insert_split(before, d@, p as int);
            lemma_insert_sorted(before, d@, -1);
        }
        if p < n && self.calls[p].index == d.index {
            let c = &self.calls[p];
            let id = if c.id.as_str().is_empty() { text_or_empty(&d.id) } else { c.id.clone() };
            let name = if c.name.as_str().is_empty() { text_or_empty(&d.name) } else { c.name.clone() };
            let extra = text_or_empty(&d.arguments);
            let arguments = c.arguments.clone().concat(extra.as_str());
            let merged = InFlightToolCall { index: c.index, id, name, arguments };
            assert(merged@ == merge_call(before[p as int], d@));
            self.calls.set(p, merged);
            assert(before.skip(p as int) == seq![before[p as int]] + before.skip(p as int).drop_first());
            assert(self@.calls =~= insert_delta(before, d@));
        } else {
            let id = text_or_empty(&d.id);
            let name = text_or_empty(&d.name);
            let arguments = text_or_empty(&d.arguments);
            let fresh = InFlightToolCall { index: d.index, id, name, arguments };
            assert(fresh@ == new_call(d@));
            self.calls.insert(p, fresh);
            assert(self@.calls =~= insert_delta(before, d@));
        }
    }

    /// Consumes the deltas of one frame: text is appended to the pending
    /// text, each tool-call fragment to the call at its index (opened when
    /// new). Returns whether the frame carries a finish reason.
    pub fn apply(&mut self, chunk: &ChunkDelta) -> (finished: bool)
        requires
            old(self).wf(),
        ensures
            final(self).wf(),
            final(self)@ == apply_chunk(old(self)@, chunk@),
            finished == chunk@.finished,
    {
        match &chunk.content {
            Some(t) => {
                self.text.append(t.as_str());
            },
            None => {},
        }
        let ghost calls0 = self@.calls;
        let ghost ds = chunk@.tool_calls;
        let n = chunk.tool_calls.len();
        let mut i: usize = 0;
        while i < n
            invariant
                n == chunk.tool_calls.len(),
                i <= n,
                self.wf(),
                calls0 == old(self)@.calls,
                ds == chunk@.tool_calls,
                self@.text == old(self)@.text + chars_or_empty(chunk@.content),
                self@.calls == apply_tool_deltas(calls0, ds.take(i as int)),
            decreases n - i,
        {
            self.apply_tool_delta(&chunk.tool_calls[i]);
            assert(ds.take(i + 1).drop_last() =~= ds.take(i as int));
            i = i + 1;
        }
        assert(ds.take(n as int) =~= ds);
        chunk.finish_reason.is_some()
    }

    /// Ends the response: the pending text becomes a text block (when any
    /// text accumulated), followed by one tool-use block per call in
    /// ascending index order, each holding its arguments parsed as JSON.
    /// Fails with a tool error naming the first call whose arguments do
    /// not parse.
    pub fn finalize(self) -> (r: Result<Vec<ContentBlock>, Error>)
        ensures
            r is Ok <==> all_arguments_parse(self@.calls),
            r matches Ok(bs) ==> blocks_view(bs@) == finalized_blocks(self@),
            r matches Err(e) ==> names_first_bad_call(self@.calls, e),
    {
        let ghost m = self@;
        let mut blocks: Vec<ContentBlock> = Vec::new();
        if !self.text.as_str().is_empty() {
            blocks.push(ContentBlock::Text(TextBlock { text: self.text }));
        }
        let calls = self.calls;
        assert(blocks_view(blocks@) =~= text_blocks(m.text) + m.calls.take(0).map_values(
            |c: CallModel| tool_block(c),
        ));
        let n = calls.len();
        let mut i: usize = 0;
        while i < n
            invariant
                n == calls.len(),
                i <= n,
                m == self@,
                m.calls == calls@.map_values(|c: InFlightToolCall| c@),
                blocks_view(blocks@) == text_blocks(m.text) + m.calls.take(i as int).map_values(
                    |c: CallModel| tool_block(c),
                ),
                forall|j: int| 0 <= j < i ==> (#[trigger] parsed_json(m.calls[j].arguments)) is Some,
            decreases n - i,
        {
            let c = &calls[i];
            match parse_json(c.arguments.as_str()) {
                Ok(v) => {
                    let b = ContentBlock::ToolUse(
                        ToolUseBlock { id: c.id.clone(), name: c.name.clone(), input: v },
                    );
                    assert(b@ == tool_block(m.calls[i as int]));
                    let ghost prev = blocks@;
                    blocks.push(b);
                    assert(blocks_view(blocks@) =~= blocks_view(prev).push(b@));
                    assert(m.calls.take(i + 1).map_values(|c: CallModel| tool_block(c)) =~= m.calls.take(
                        i as int,
                    ).map_values(|c: CallModel| tool_block(c)).push(tool_block(m.calls[i as int])));
                },
                Err(_) => {
                    let msg = String::from_str("invalid JSON in arguments of tool call ").concat(
                        c.id.as_str(),
                    ).concat(" (").concat(c.name.as_str()).concat(")");
                    let e = Error::Tool(msg);
                    assert(names_first_bad_call(m.calls, e) && !all_arguments_parse(m.calls)) by {
                        assert(parsed_json(m.calls[i as int].arguments) is None);
                    }
                    return Err(e);
                },
            }
            i = i + 1;
        }
        assert(m.calls.take(n as int) =~= m.calls);
        Ok(blocks)
    }
}

} // verus!
