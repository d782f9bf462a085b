//! The frame decoder: turns the bytes of a server-sent event stream into
//! event frames.
//!
//! Frames end at a blank line (`\n\n`, or `\n\r\n` where lines end in CRLF).
//! Within a frame, `data:` lines carry the payload (several are joined with
//! `\n`), an `event:` line names the event, and other lines (comments,
//! `id:`, `retry:`) are ignored. A frame whose payload is `[DONE]` ends the
//! stream.
use vstd::prelude::*;
use vstd::slice::{slice_subrange, slice_to_vec};
use vstd::utf8::{decode_utf8, valid_utf8};
use crate::error::Error;

verus! {

/// Relies on `std::str::from_utf8`: it accepts exactly the well-formed UTF-8
/// byte sequences and then yields the characters they encode.
#[verifier::external_body]
fn utf8_text(b: &[u8]) -> (r: Option<String>)
    ensures
        r is Some <==> valid_utf8(b@),
        r matches Some(s) ==> s@ == decode_utf8(b@),
{
    match std::str::from_utf8(b) {
        Ok(s) => Some(s.to_owned()),
        Err(_) => None,
    }
}

/// The text `String::from_utf8_lossy` makes of `b`.
pub uninterp spec fn lossy_text(b: Seq<u8>) -> Seq<char>;

/// Relies on `String::from_utf8_lossy`: the text depends on the bytes alone.
#[verifier::external_body]
fn lossy_string(b: &[u8]) -> (r: String)
    ensures
        r@ == lossy_text(b@),
{
    String::from_utf8_lossy(b).into_owned()
}

pub const LF: u8 = 10;

pub const CR: u8 = 13;

pub const SP: u8 = 32;

/// `data:`
pub open spec fn data_tag() -> Seq<u8> {
    seq![100u8, 97u8, 116u8, 97u8, 58u8]
}

/// `event:`
pub open spec fn event_tag() -> Seq<u8> {
    seq![101u8, 118u8, 101u8, 110u8, 116u8, 58u8]
}

/// `[DONE]`, the payload that ends the stream.
pub open spec fn done_marker() -> Seq<u8> {
    seq![91u8, 68u8, 79u8, 78u8, 69u8, 93u8]
}

/// The raw fields of one frame.
pub struct FieldBytes {
    pub event: Option<Seq<u8>>,
    pub data: Option<Seq<u8>>,
}

pub open spec fn no_fields() -> FieldBytes {
    FieldBytes { event: None, data: None }
}

pub open spec fn strip_cr(l: Seq<u8>) -> Seq<u8> {
    if l.len() > 0 && l.last() == CR {
        l.drop_last()
    } else {
        l
    }
}

pub open spec fn has_tag(l: Seq<u8>, t: Seq<u8>) -> bool {
    t.len() <= l.len() && l.take(t.len() as int) == t
}

/// The value of a field line whose name and colon take `k` bytes: the rest
/// of the line, less one leading space.
pub open spec fn field_value(l: Seq<u8>, k: int) -> Seq<u8> {
    if l.len() > k && l[k] == SP {
        l.skip(k + 1)
    } else {
        l.skip(k)
    }
}

/// The fields after one more line of a frame.
pub open spec fn apply_line(f: FieldBytes, line: Seq<u8>) -> FieldBytes {
    let l = strip_cr(line);
    if has_tag(l, data_tag()) {
        let v = field_value(l, 5);
        FieldBytes {
            event: f.event,
            data: Some(
                match f.data {
                    Some(d) => d.push(LF) + v,
                    None => v,
                },
            ),
        }
    } else if has_tag(l, event_tag()) {
        FieldBytes { event: Some(field_value(l, 6)), data: f.data }
    } else {
        f
    }
}

/// Reads the lines of `blk` from the line that starts at `ls`, with `i` the
/// current position in it.
pub open spec fn scan_lines(blk: Seq<u8>, ls: int, i: int, f: FieldBytes) -> FieldBytes
    decreases blk.len() - i,
{
    if i >= blk.len() {
        apply_line(f, blk.subrange(ls, blk.len() as int))
    } else if blk[i] == LF {
        scan_lines(blk, i + 1, i + 1, apply_line(f, blk.subrange(ls, i)))
    } else {
        scan_lines(blk, ls, i + 1, f)
    }
}

/// The fields of a frame's bytes.
pub open spec fn block_fields(blk: Seq<u8>) -> FieldBytes {
    scan_lines(blk, 0, 0, no_fields())
}

/// The length of the blank-line delimiter at `i`, or 0 when none starts there.
pub open spec fn delim_len(b: Seq<u8>, i: int) -> int {
    if b[i] == LF && i + 1 < b.len() && b[i + 1] == LF {
        2
    } else if b[i] == LF && i + 2 < b.len() && b[i + 1] == CR && b[i + 2] == LF {
        3
    } else {
        0
    }
}

pub open spec fn fields_valid(f: FieldBytes) -> bool {
    &&& (f.event matches Some(e) ==> valid_utf8(e))
    &&& (f.data matches Some(d) ==> valid_utf8(d))
}

pub open spec fn has_fields(f: FieldBytes) -> bool {
    f.event is Some || f.data is Some
}

pub open spec fn is_done_marker(f: FieldBytes) -> bool {
    f.data == Some(done_marker())
}

/// Model of an event frame.
pub struct FrameModel {
    pub event: Option<Seq<char>>,
    pub data: Option<Seq<char>>,
}

pub open spec fn decoded_opt(o: Option<Seq<u8>>) -> Option<Seq<char>> {
    match o {
        Some(b) => Some(decode_utf8(b)),
        None => None,
    }
}

pub open spec fn frame_of(f: FieldBytes) -> FrameModel {
    FrameModel { event: decoded_opt(f.event), data: decoded_opt(f.data) }
}

/// How decoding stops.
pub enum DecodeEnd {
    /// All complete frames were read; these bytes await the rest of a frame.
    Pending(Seq<u8>),
    /// The end-of-stream frame was read.
    Finished,
    /// This frame's fields are not UTF-8.
    Malformed(Seq<u8>),
}

pub struct Decoded {
    pub frames: Seq<FrameModel>,
    pub end: DecodeEnd,
}

/// Decodes `b` from the frame that starts at `start`, with `i` the current
/// position in it.
pub open spec fn decode_at(b: Seq<u8>, start: int, i: int) -> Decoded
    decreases b.len() - i,
{
    if i >= b.len() {
        Decoded { frames: Seq::empty(), end: DecodeEnd::Pending(b.subrange(start, b.len() as int)) }
    } else if delim_len(b, i) == 0 {
        decode_at(b, start, i + 1)
    } else {
        let blk = b.subrange(start, i);
        let f = block_fields(blk);
        if is_done_marker(f) {
            Decoded { frames: Seq::empty(), end: DecodeEnd::Finished }
        } else if !fields_valid(f) {
            Decoded { frames: Seq::empty(), end: DecodeEnd::Malformed(blk) }
        } else {
            let next = i + delim_len(b, i);
            let rest = decode_at(b, next, next);
            Decoded {
                frames: (if has_fields(f) {
                    seq![frame_of(f)]
                } else {
                    Seq::empty()
                }) + rest.frames,
                end: rest.end,
            }
        }
    }
}

/// Decodes a byte sequence read from the start of a stream.
pub open spec fn decode(b: Seq<u8>) -> Decoded {
    decode_at(b, 0, 0)
}

proof fn lemma_delim_extends(x: Seq<u8>, y: Seq<u8>, k: int)
    requires
        0 <= k < x.len(),
    ensures
        delim_len(x, k) != 0 ==> delim_len(x + y, k) == delim_len(x, k),
        delim_len(x, k) == 0 && delim_len(x + y, k) != 0 ==> k >= x.len() - 2,
        k == x.len() - 1 ==> delim_len(x, k) == 0,
{
    assert((x + y)[k] == x[k]);
    if k + 1 < x.len() {
        assert((x + y)[k + 1] == x[k + 1]);
    }
    if k + 2 < x.len() {
        assert((x + y)[k + 2] == x[k + 2]);
    }
}

proof fn lemma_decode_shift(b: Seq<u8>, s: int, i: int)
    requires
        0 <= s <= i <= b.len(),
    ensures
        decode_at(b, s, i) == decode_at(b.skip(s), 0, i - s),
    decreases b.len() - i,
{
    let c = b.skip(s);
    if i == b.len() {
        assert(b.subrange(s, b.len() as int) =~= c.subrange(0, c.len() as int));
    } else {
        assert(c[i - s] == b[i]);
        if i + 1 < b.len() {
            assert(c[i - s + 1] == b[i + 1]);
        }
        if i + 2 < b.len() {
            assert(c[i - s + 2] == b[i + 2]);
        }
        assert(delim_len(c, i - s) == delim_len(b, i));
        if delim_len(b, i) == 0 {
            lemma_decode_shift(b, s, i + 1);
        } else {
            assert(b.subrange(s, i) =~= c.subrange(0, i - s));
            let next = i + delim_len(b, i);
            lemma_decode_shift(b, next, next);
            lemma_decode_shift(c, next - s, next - s);
            assert(c.skip(next - s) =~= b.skip(next));
        }
    }
}

proof fn lemma_decode_restart(b: Seq<u8>, s: int, i: int)
    requires
        0 <= s <= i <= b.len(),
        forall|k: int| s <= k < i ==> #[trigger] delim_len(b, k) == 0,
    ensures
        decode_at(b, s, i) == decode_at(b, s, s),
    decreases i - s,
{
    if i > s {
        lemma_decode_restart(b, s, i - 1);
        assert(delim_len(b, i - 1) == 0);
    }
}

proof fn lemma_decode_extend(x: Seq<u8>, y: Seq<u8>, s: int, i: int)
    requires
        0 <= s <= i <= x.len(),
        forall|k: int| s <= k < i ==> #[trigger] delim_len(x + y, k) == 0,
    ensures
        (decode_at(x, s, i).end matches DecodeEnd::Pending(r) ==> decode_at(x + y, s, i) == (Decoded {
            frames: decode_at(x, s, i).frames + decode(r + y).frames,
            end: decode(r + y).end,
        })),
        !(decode_at(x, s, i).end is Pending) ==> decode_at(x + y, s, i) == decode_at(x, s, i),
    decreases x.len() - i,
{
    let b = x + y;
    let r = x.subrange(s, x.len() as int);
    if i == x.len() {
        lemma_decode_restart(b, s, i);
        lemma_decode_shift(b, s, s);
        assert(b.skip(s) =~= r + y);
        assert(Seq::<FrameModel>::empty() + decode(r + y).frames =~= decode(r + y).frames);
    } else {
        lemma_delim_extends(x, y, i);
        if delim_len(x, i) != 0 {
            assert(x.subrange(s, i) =~= b.subrange(s, i));
            let next = i + delim_len(x, i);
            lemma_decode_extend(x, y, next, next);
            let d = decode_at(x, next, next);
            if let DecodeEnd::Pending(r2) = d.end {
                let f = block_fields(x.subrange(s, i));
                let head = if has_fields(f) {
                    seq![frame_of(f)]
                } else {
                    Seq::<FrameModel>::empty()
                };
                assert(head + (d.frames + decode(r2 + y).frames) =~= (head + d.frames) + decode(
                    r2 + y,
                ).frames);
            }
        } else if delim_len(b, i) == 0 {
            lemma_decode_extend(x, y, s, i + 1);
        } else {
            if i + 1 < x.len() {
                lemma_delim_extends(x, y, i + 1);
                assert(decode_at(x, s, i + 1) == decode_at(x, s, i + 2));
            }
            assert(decode_at(x, s, i) == Decoded {
                frames: Seq::<FrameModel>::empty(),
                end: DecodeEnd::Pending(r),
            });
            lemma_decode_restart(b, s, i);
            lemma_decode_shift(b, s, s);
            assert(b.skip(s) =~= r + y);
            assert(Seq::<FrameModel>::empty() + decode(r + y).frames =~= decode(r + y).frames);
        }
    }
}

/// Reads may split the stream anywhere: decoding `x` and then the bytes it
/// left pending followed by `y` gives the frames of decoding `x + y` at
/// once, and ends the same way; once `x` ends the stream, `y` changes
/// nothing.
pub proof fn lemma_split_reads(x: Seq<u8>, y: Seq<u8>)
    ensures
        (decode(x).end matches DecodeEnd::Pending(r) ==> decode(x + y) == (Decoded {
            frames: decode(x).frames + decode(r + y).frames,
            end: decode(r + y).end,
        })),
        !(decode(x).end is Pending) ==> decode(x + y) == decode(x),
{
    lemma_decode_extend(x, y, 0, 0);
}

/// The message of the error for a malformed frame.
pub open spec fn malformed_message(blk: Seq<u8>) -> Seq<char> {
    "malformed event frame: "@ + lossy_text(blk)
}

/// One decoded server event.
#[derive(Debug)]
pub struct Frame {
    pub event: Option<String>,
    pub data: Option<String>,
}

pub open spec fn opt_text(o: Option<String>) -> Option<Seq<char>> {
    match o {
        Some(s) => Some(s@),
        None => None,
    }
}

impl View for Frame {
    type V = FrameModel;

    open spec fn view(&self) -> FrameModel {
        FrameModel { event: opt_text(self.event), data: opt_text(self.data) }
    }
}

pub open spec fn frames_view(fs: Seq<Frame>) -> Seq<FrameModel> {
    fs.map_values(|f: Frame| f@)
}

struct Fields {
    event: Option<Vec<u8>>,
    data: Option<Vec<u8>>,
}

pub open spec fn opt_bytes(o: Option<Vec<u8>>) -> Option<Seq<u8>> {
    match o {
        Some(v) => Some(v@),
        None => None,
    }
}

impl View for Fields {
    type V = FieldBytes;

    closed spec fn view(&self) -> FieldBytes {
        FieldBytes { event: opt_bytes(self.event), data: opt_bytes(self.data) }
    }
}

fn has_tag_at(blk: &[u8], s: usize, e: usize, tag: &Vec<u8>) -> (r: bool)
    requires
        s <= e <= blk@.len(),
    ensures
        r == has_tag(blk@.subrange(s as int, e as int), tag@),
{
    let ghost l = blk@.subrange(s as int, e as int);
    if e - s < tag.len() {
        return false;
    }
    let mut k: usize = 0;
    while k < tag.len()
        invariant
            k <= tag@.len(),
            tag@.len() <= e - s,
            s <= e <= blk@.len(),
            l == blk@.subrange(s as int, e as int),
            forall|j: int| 0 <= j < k ==> l[j] == tag@[j],
        decreases tag@.len() - k,
    {
        if blk[s + k] != tag[k] {
            assert(l.take(tag@.len() as int)[k as int] != tag@[k as int]);
            return false;
        }
        k = k + 1;
    }
    assert(l.take(tag@.len() as int) =~= tag@);
    true
}

/// The fields after the line `blk[ls..le]`.
fn read_line(blk: &[u8], ls: usize, le: usize, f: Fields) -> (r: Fields)
    requires
        ls <= le <= blk@.len(),
    ensures
        r@ == apply_line(f@, blk@.subrange(ls as int, le as int)),
{
    let ghost line = blk@.subrange(ls as int, le as int);
    let mut e = le;
    if e > ls && blk[e - 1] == CR {
        e = e - 1;
    }
    let ghost l = blk@.subrange(ls as int, e as int);
    assert(l =~= strip_cr(line));
    let data_t: Vec<u8> = vec![100u8, 97u8, 116u8, 97u8, 58u8];
    let event_t: Vec<u8> = vec![101u8, 118u8, 101u8, 110u8, 116u8, 58u8];
    assert(data_t@ =~= data_tag());
    assert(event_t@ =~= event_tag());
    if has_tag_at(blk, ls, e, &data_t) {
        let mut vs = ls + 5;
        if vs < e && blk[vs] == SP {
            vs = vs + 1;
        }
        let v = slice_to_vec(slice_subrange(blk, vs, e));
        assert(v@ =~= field_value(l, 5));
        match f.data {
            Some(mut d) => {
                let ghost d0 = d@;
                d.push(LF);
                d.extend_from_slice(v.as_slice());
                assert(d@ =~= d0.push(LF) + v@);
                Fields { event: f.event, data: Some(d) }
            },
            None => Fields { event: f.event, data: Some(v) },
        }
    } else if has_tag_at(blk, ls, e, &event_t) {
        let mut vs = ls + 6;
        if vs < e && blk[vs] == SP {
            vs = vs + 1;
        }
        let v = slice_to_vec(slice_subrange(blk, vs, e));
        assert(v@ =~= field_value(l, 6));
        Fields { event: Some(v), data: f.data }
    } else {
        f
    }
}

/// The fields of the frame `blk`.
fn read_fields(blk: &[u8]) -> (r: Fields)
    ensures
        r@ == block_fields(blk@),
{
    let n = blk.len();
    let mut f = Fields { event: None, data: None };
    let mut ls: usize = 0;
    let mut i: usize = 0;
    while i < n
        invariant
            n == blk@.len(),
            ls <= i <= n,
            block_fields(blk@) == scan_lines(blk@, ls as int, i as int, f@),
        decreases n - i,
    {
        if blk[i] == LF {
            f = read_line(blk, ls, i, f);
            ls = i + 1;
        }
        i = i + 1;
    }
    read_line(blk, ls, n, f)
}

/// The length of the blank-line delimiter at `i` of `b`, or 0.
fn delim_at(b: &Vec<u8>, i: usize) -> (r: usize)
    requires
        i < b@.len(),
    ensures
        r == delim_len(b@, i as int),
{
    let n = b.len();
    if b[i] == LF && i + 1 < n && b[i + 1] == LF {
        2
    } else if b[i] == LF && n - i > 2 && b[i + 1] == CR && b[i + 2] == LF {
        3
    } else {
        0
    }
}

fn is_done_fields(f: &Fields) -> (r: bool)
    ensures
        r == is_done_marker(f@),
{
    match &f.data {
        Some(d) => {
            let marker: Vec<u8> = vec![91u8, 68u8, 79u8, 78u8, 69u8, 93u8];
            assert(marker@ =~= done_marker());
            if d.len() != marker.len() {
                assert(d@.len() != done_marker().len());
                return false;
            }
            assert(f@.data == Some(d@));
            let mut k: usize = 0;
            while k < d.len()
                invariant
                    f@.data == Some(d@),
                    d@.len() == marker@.len(),
                    marker@ == done_marker(),
                    k <= d@.len(),
                    forall|j: int| 0 <= j < k ==> d@[j] == marker@[j],
                decreases d@.len() - k,
            {
                if d[k] != marker[k] {
                    assert(d@[k as int] != done_marker()[k as int]);
                    assert(d@ != done_marker());
                    return false;
                }
                k = k + 1;
            }
            assert(d@ =~= marker@);
            true
        },
        None => false,
    }
}

/// The frame the fields make, or `None` when one of them is not UTF-8.
fn frame_from(f: &Fields) -> (r: Option<Frame>)
    ensures
        r is Some <==> fields_valid(f@),
        r matches Some(fr) ==> fr@ == frame_of(f@),
{
    let event = match &f.event {
        Some(e) => match utf8_text(e.as_slice()) {
            Some(t) => Some(t),
            None => {
                return None;
            },
        },
        None => None,
    };
    let data = match &f.data {
        Some(d) => match utf8_text(d.as_slice()) {
            Some(t) => Some(t),
            None => {
                return None;
            },
        },
        None => None,
    };
    Some(Frame { event, data })
}

/// What feeding `chunk` to the decoder `before` gives: nothing once the
/// stream has ended; otherwise the frames completed by the bytes pending
/// and `chunk`, with the end-of-stream frame or a malformed frame ending the
/// stream.
pub open spec fn feed_outcome(
    before: FrameDecoder,
    chunk: Seq<u8>,
    r: Result<Vec<Frame>, Error>,
    after: FrameDecoder,
) -> bool {
    if before.done() {
        after == before && (r matches Ok(fs) && fs@.len() == 0)
    } else {
        let d = decode(before.pending() + chunk);
        match d.end {
            DecodeEnd::Pending(rest) => {
                &&& r matches Ok(fs) && frames_view(fs@) == d.frames
                &&& after.pending() == rest
                &&& !after.done()
            },
            DecodeEnd::Finished => {
                &&& r matches Ok(fs) && frames_view(fs@) == d.frames
                &&& after.done()
            },
            DecodeEnd::Malformed(blk) => {
                &&& r matches Err(e) && e matches Error::Stream(m) && m@ == malformed_message(blk)
                &&& after.done()
            },
        }
    }
}

/// Decodes the frames of one event stream as its bytes arrive.
pub struct FrameDecoder {
    buffer: Vec<u8>,
    done: bool,
}

impl FrameDecoder {
    /// The bytes of the frame not yet complete.
    pub closed spec fn pending(&self) -> Seq<u8> {
        self.buffer@
    }

    /// The stream has ended (end-of-stream frame or malformed frame).
    pub closed spec fn done(&self) -> bool {
        self.done
    }

    /// A decoder at the start of a stream.
    pub fn new() -> (r: FrameDecoder)
        ensures
            r.pending() == Seq::<u8>::empty(),
            !r.done(),
    {
        FrameDecoder { buffer: Vec::new(), done: false }
    }

    /// Whether the stream has ended.
    pub fn is_finished(&self) -> (r: bool)
        ensures
            r == self.done(),
    {
        self.done
    }

    /// Takes the next bytes of the stream and returns the frames they
    /// complete, in order. The end-of-stream frame ends decoding: bytes after
    /// it are ignored, now and in later calls. A frame whose fields are not
    /// UTF-8 fails the call with a streaming error that quotes the frame, and
    /// ends decoding too.
    pub fn feed(&mut self, chunk: &[u8]) -> (r: Result<Vec<Frame>, Error>)
        ensures
            feed_outcome(*old(self), chunk@, r, *final(self)),
    {
        if self.done {
            return Ok(Vec::new());
        }
        self.buffer.extend_from_slice(chunk);
        let ghost b = self.buffer@;
        assert(b =~= old(self).pending() + chunk@);
        let n = self.buffer.len();
        let mut frames: Vec<Frame> = Vec::new();
        let mut start: usize = 0;
        let mut i: usize = 0;
        while i < n
            invariant
                n == b.len(),
                b == self.buffer@,
                b == old(self).pending() + chunk@,
                !self.done,
                !old(self).done(),
                start <= i <= n,
                decode(b) == (Decoded {
                    frames: frames_view(frames@) + decode_at(b, start as int, i as int).frames,
                    end: decode_at(b, start as int, i as int).end,
                }),
            decreases n - i,
        {
            let dl = delim_at(&self.buffer, i);
            if dl == 0 {
                i = i + 1;
            } else {
                let blk = slice_subrange(self.buffer.as_slice(), start, i);
                let f = read_fields(blk);
                assert(blk@ == b.subrange(start as int, i as int));
                assert(delim_len(b, i as int) != 0);
                if is_done_fields(&f) {
                    assert(decode_at(b, start as int, i as int).end == DecodeEnd::Finished);
                    assert(decode_at(b, start as int, i as int).frames == Seq::<FrameModel>::empty());
                    self.done = true;
                    self.buffer = Vec::new();
                    assert(frames_view(frames@) + Seq::<FrameModel>::empty() =~= frames_view(frames@));
                    return Ok(frames);
                }
                match frame_from(&f) {
                    None => {
                        let msg = String::from_str("malformed event frame: ").concat(
                            lossy_string(blk).as_str(),
                        );
                        self.done = true;
                        self.buffer = Vec::new();
                        assert(decode_at(b, start as int, i as int).end == DecodeEnd::Malformed(blk@));
                        return Err(Error::Stream(msg));
                    },
                    Some(fr) => {
                        let ghost next = (i + dl) as int;
                        let ghost before = frames@;
                        if f.event.is_some() || f.data.is_some() {
                            frames.push(fr);
                            assert(frames_view(frames@) =~= frames_view(before) + seq![frame_of(f@)]);
                        }
                        assert(frames_view(frames@) + decode_at(b, next, next).frames =~= frames_view(
                            before,
                        ) + decode_at(b, start as int, i as int).frames);
                        start = i + dl;
                        i = i + dl;
                    },
                }
            }
        }
        let rest = slice_to_vec(slice_subrange(self.buffer.as_slice(), start, n));
        self.buffer = rest;
        assert(frames_view(frames@) + Seq::<FrameModel>::empty() =~= frames_view(frames@));
        Ok(frames)
    }
}

} // verus!
