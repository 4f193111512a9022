//! The pkt-line frame codec: length-prefixed data frames, the `0000` flush
//! marker, and the one-way switch into raw pack-stream passthrough once the
//! `PACK` magic is seen at a frame boundary.

use crate::hex;
use vstd::prelude::*;

verus! {

/// Framing faults: a length prefix whose bytes are not hexadecimal digits,
/// and a declared length below the 4-byte minimum.
#[derive(Clone, Copy, Debug, PartialEq, Eq)]
pub enum FrameError {
    ParseLengthBytes,
    InvalidChunkLength,
}

/// The codec's mode: parsing frames, or passing a pack stream through
/// untouched. The transition from `Frame` to `Raw` is one-way.
#[derive(Clone, Copy, Debug)]
pub enum CodecMode {
    Frame,
    Raw,
}

/// One decoded protocol unit.
#[derive(Clone, Debug, PartialEq, Eq)]
pub enum GitMessage {
    /// A sized frame's payload.
    Data(Vec<u8>),
    /// The zero-length boundary marker.
    Flush,
    /// Raw pack-stream bytes, no longer framed.
    PackData(Vec<u8>),
}

/// The mathematical shape of a message.
pub enum MessageView {
    Data(Seq<u8>),
    Flush,
    PackData(Seq<u8>),
}

impl View for GitMessage {
    type V = MessageView;

    open spec fn view(&self) -> MessageView {
        match self {
            GitMessage::Data(p) => MessageView::Data(p@),
            GitMessage::Flush => MessageView::Flush,
            GitMessage::PackData(p) => MessageView::PackData(p@),
        }
    }
}

/// What one decode attempt does to a buffer: wait for more input, report a
/// framing fault, or produce a message, consuming `consumed` bytes and
/// leaving the codec in `mode`.
pub enum StepResult {
    Incomplete,
    Fail(FrameError),
    Msg { msg: MessageView, consumed: int, mode: CodecMode },
}

/// The four magic bytes `PACK` that open a pack stream.
pub open spec fn pack_magic() -> Seq<u8> {
    seq![80u8, 65u8, 67u8, 75u8]
}

/// One decode attempt on `b` in mode `mode`.
///
/// With fewer than 4 bytes nothing can be decided. In raw mode, or when the
/// buffer opens with the pack magic, the whole buffer is passed through and
/// the codec stays raw forever. Otherwise the first four bytes must be
/// hexadecimal digits giving the total frame length: 0 is a flush, 1-3 are
/// malformed, and a longer buffer than declared is needed before the
/// payload (bytes 4 to the declared length) can be produced.
pub open spec fn step_spec(mode: CodecMode, b: Seq<u8>) -> StepResult {
    if b.len() < 4 {
        StepResult::Incomplete
    } else if mode is Raw || b.take(4) == pack_magic() {
        StepResult::Msg { msg: MessageView::PackData(b), consumed: b.len() as int, mode: CodecMode::Raw }
    } else if !hex::is_hex4(b.take(4)) {
        StepResult::Fail(FrameError::ParseLengthBytes)
    } else {
        let n = hex::hex4_value(b.take(4)) as int;
        if n == 0 {
            StepResult::Msg { msg: MessageView::Flush, consumed: 4, mode: CodecMode::Frame }
        } else if n < 4 {
            StepResult::Fail(FrameError::InvalidChunkLength)
        } else if b.len() < n {
            StepResult::Incomplete
        } else {
            StepResult::Msg {
                msg: MessageView::Data(b.subrange(4, n)),
                consumed: n,
                mode: CodecMode::Frame,
            }
        }
    }
}

/// The wire bytes of a message. A zero-length payload is encoded as the
/// flush marker `0000`; pack bytes go out verbatim.
pub open spec fn encode_spec(m: MessageView) -> Seq<u8> {
    match m {
        MessageView::Flush => hex::hex4_of(0),
        MessageView::Data(p) => if p.len() == 0 {
            hex::hex4_of(0)
        } else {
            hex::hex4_of(p.len() + 4) + p
        },
        MessageView::PackData(d) => d,
    }
}

/// What repeated decoding does to a buffer: the messages produced, the
/// undecoded leftover bytes, the mode reached, and the fault that stopped
/// the run, if one did.
pub struct DrainResult {
    pub msgs: Seq<MessageView>,
    pub rest: Seq<u8>,
    pub mode: CodecMode,
    pub err: Option<FrameError>,
}

/// Decodes messages from the front of `b` until the remainder is incomplete
/// or malformed.
pub open spec fn drain_spec(mode: CodecMode, b: Seq<u8>) -> DrainResult
    decreases b.len(),
{
    match step_spec(mode, b) {
        StepResult::Incomplete => DrainResult { msgs: seq![], rest: b, mode, err: None },
        StepResult::Fail(e) => DrainResult { msgs: seq![], rest: b, mode, err: Some(e) },
        StepResult::Msg { msg, consumed, mode: m2 } => {
            let tail = drain_spec(m2, b.skip(consumed));
            DrainResult { msgs: seq![msg] + tail.msgs, rest: tail.rest, mode: tail.mode, err: tail.err }
        },
    }
}

/// Law: decoding the encoding of a sized data frame yields exactly that
/// frame back, consuming its whole wire form and staying in frame mode.
pub proof fn lemma_data_round_trip(p: Seq<u8>)
    requires
        1 <= p.len() <= 0xFFFF - 4,
    ensures
        step_spec(CodecMode::Frame, encode_spec(MessageView::Data(p))) == (StepResult::Msg {
            msg: MessageView::Data(p),
            consumed: p.len() + 4int,
            mode: CodecMode::Frame,
        }),
{
    let n = (p.len() + 4) as nat;
    hex::lemma_hex4_round_trip(n);
    let b = encode_spec(MessageView::Data(p));
    assert(b == hex::hex4_of(n) + p);
    assert(b.take(4) =~= hex::hex4_of(n));
    assert(b.take(4) != pack_magic()) by {
        if b.take(4) == pack_magic() {
            assert(b.take(4)[0] == 80);
        }
    }
    assert(b.subrange(4, n as int) =~= p);
}

/// Law: decoding the encoding of a flush yields a flush, consuming its four
/// bytes and staying in frame mode.
pub proof fn lemma_flush_round_trip()
    ensures
        step_spec(CodecMode::Frame, encode_spec(MessageView::Flush)) == (StepResult::Msg {
            msg: MessageView::Flush,
            consumed: 4,
            mode: CodecMode::Frame,
        }),
{
    hex::lemma_hex4_round_trip(0);
    let b = encode_spec(MessageView::Flush);
    assert(b.take(4) =~= b);
    assert(b.take(4) != pack_magic()) by {
        if b.take(4) == pack_magic() {
            assert(b.take(4)[0] == 80);
        }
    }
}

/// Law: a zero-length payload and a flush have the same wire form, the
/// four bytes `0000`.
pub proof fn lemma_empty_data_encodes_as_flush()
    ensures
        encode_spec(MessageView::Data(Seq::empty())) == encode_spec(MessageView::Flush),
{
}

/// Law: raw mode is sticky. Whatever bytes arrive once the codec is raw,
/// every decoded message is passthrough pack data, no fault is ever
/// reported, and the codec never returns to frame mode.
pub proof fn lemma_raw_mode_sticky(b: Seq<u8>)
    ensures
        drain_spec(CodecMode::Raw, b).mode is Raw,
        drain_spec(CodecMode::Raw, b).err is None,
        forall|i: int|
            0 <= i < drain_spec(CodecMode::Raw, b).msgs.len()
                ==> drain_spec(CodecMode::Raw, b).msgs[i] is PackData,
    decreases b.len(),
{
    if b.len() < 4 {
    } else {
        let rest = b.skip(b.len() as int);
        assert(rest.len() == 0);
        lemma_raw_mode_sticky(rest);
    }
}

/// The wire bytes of a sequence of messages, in order.
pub open spec fn encode_all_spec(msgs: Seq<MessageView>) -> Seq<u8>
    decreases msgs.len(),
{
    if msgs.len() == 0 {
        seq![]
    } else {
        encode_spec(msgs[0]) + encode_all_spec(msgs.skip(1))
    }
}

/// Law: a whole encoded stream of flushes and non-empty, well-sized data
/// frames decodes back to exactly those messages, with nothing left over,
/// no fault, and the codec still in frame mode.
#[verifier::rlimit(50)]
pub proof fn lemma_stream_round_trip(msgs: Seq<MessageView>)
    requires
        forall|i: int|
            0 <= i < msgs.len() ==> (msgs[i] is Flush || (msgs[i] matches MessageView::Data(p)
                && 1 <= p.len() <= 0xFFFF - 4)),
    ensures
        ({
            let d = drain_spec(CodecMode::Frame, encode_all_spec(msgs));
            &&& d.msgs == msgs
            &&& d.rest == Seq::<u8>::empty()
            &&& d.mode is Frame
            &&& d.err is None
        }),
    decreases msgs.len(),
{
    if msgs.len() == 0 {
        assert(encode_all_spec(msgs) == Seq::<u8>::empty());
        assert(drain_spec(CodecMode::Frame, encode_all_spec(msgs)).msgs =~= msgs);
    } else {
        let m = msgs[0];
        let rest_msgs = msgs.skip(1);
        let b1 = encode_spec(m);
        let b2 = encode_all_spec(rest_msgs);
        let consumed: int = match m {
            MessageView::Flush => 4,
            MessageView::Data(p) => p.len() + 4int,
            MessageView::PackData(_) => 0,
        };
        match m {
            MessageView::Flush => lemma_flush_round_trip(),
            MessageView::Data(p) => lemma_data_round_trip(p),
            MessageView::PackData(_) => assert(false),
        }
        assert(step_spec(CodecMode::Frame, b1) == (StepResult::Msg {
            msg: m,
            consumed,
            mode: CodecMode::Frame,
        }));
        lemma_step_stable_frame(b1, b2);
        assert(consumed == b1.len());
        assert((b1 + b2).skip(consumed) =~= b2);
        lemma_stream_round_trip(rest_msgs);
        assert(drain_spec(CodecMode::Frame, b1 + b2).msgs =~= msgs);
    }
}

/// A decode step that stays in frame mode does not look past the bytes it
/// consumes: appending more input leaves the step unchanged.
proof fn lemma_step_stable_frame(b: Seq<u8>, ext: Seq<u8>)
    requires
        step_spec(CodecMode::Frame, b) matches StepResult::Msg { msg, consumed, mode } && mode
            is Frame,
    ensures
        step_spec(CodecMode::Frame, b + ext) == step_spec(CodecMode::Frame, b),
{
    let c = b + ext;
    assert(c.take(4) =~= b.take(4));
    if b.take(4) == pack_magic() {
        assert(false);
    }
    let n = hex::hex4_value(b.take(4)) as int;
    if n == 0 {
    } else {
        assert(4 <= n <= b.len());
        assert(c.subrange(4, n) =~= b.subrange(4, n));
    }
}

/// Law: incremental feeding is faithful. If a decoder drains `b1` without a
/// fault and without entering pack mode, then draining `b1 + b2` in one go
/// produces exactly the messages of `b1` followed by the messages of the
/// leftover of `b1` with `b2` appended — so feeding a stream in pieces, one
/// byte at a time or in any other split, yields the same messages as
/// feeding it whole.
pub proof fn lemma_incremental_decode(b1: Seq<u8>, b2: Seq<u8>)
    requires
        drain_spec(CodecMode::Frame, b1).err is None,
        drain_spec(CodecMode::Frame, b1).mode is Frame,
    ensures
        ({
            let d1 = drain_spec(CodecMode::Frame, b1);
            let d2 = drain_spec(CodecMode::Frame, d1.rest + b2);
            let d = drain_spec(CodecMode::Frame, b1 + b2);
            &&& d.msgs == d1.msgs + d2.msgs
            &&& d.rest == d2.rest
            &&& d.mode == d2.mode
            &&& d.err == d2.err
        }),
    decreases b1.len(),
{
    let d1 = drain_spec(CodecMode::Frame, b1);
    let d2 = drain_spec(CodecMode::Frame, d1.rest + b2);
    let d = drain_spec(CodecMode::Frame, b1 + b2);
    match step_spec(CodecMode::Frame, b1) {
        StepResult::Incomplete => {
            assert(d1.rest + b2 == b1 + b2);
            assert(d.msgs =~= d1.msgs + d2.msgs);
        },
        StepResult::Fail(e) => {
            assert(false);
        },
        StepResult::Msg { msg, consumed, mode: m2 } => {
            let tail = drain_spec(m2, b1.skip(consumed));
            if m2 is Raw {
                lemma_raw_mode_sticky(b1.skip(consumed));
                assert(false);
            } else {
                lemma_step_stable_frame(b1, b2);
                assert((b1 + b2).skip(consumed) =~= b1.skip(consumed) + b2);
                lemma_incremental_decode(b1.skip(consumed), b2);
                assert(tail.rest + b2 == d1.rest + b2);
                assert(d.msgs =~= d1.msgs + d2.msgs);
            }
        },
    }
}

/// Removes and returns the first `n` bytes of `buffer`.
pub fn take_front(buffer: &mut Vec<u8>, n: usize) -> (front: Vec<u8>)
    requires
        n <= old(buffer)@.len(),
    ensures
        front@ == old(buffer)@.take(n as int),
        final(buffer)@ == old(buffer)@.skip(n as int),
{
    let mut front: Vec<u8> = Vec::new();
    let mut i: usize = 0;
    while i < n
        invariant
            i <= n <= buffer@.len(),
            buffer@ == old(buffer)@,
            front@ == old(buffer)@.take(i as int),
        decreases n - i,
    {
        front.push(buffer[i]);
        assert(front@ =~= old(buffer)@.take(i + 1));
        i = i + 1;
    }
    let mut rest: Vec<u8> = Vec::new();
    let mut j: usize = n;
    while j < buffer.len()
        invariant
            n <= j <= buffer@.len(),
            buffer@ == old(buffer)@,
            rest@ == old(buffer)@.subrange(n as int, j as int),
        decreases buffer@.len() - j,
    {
        rest.push(buffer[j]);
        assert(rest@ =~= old(buffer)@.subrange(n as int, j + 1));
        j = j + 1;
    }
    *buffer = rest;
    assert(buffer@ =~= old(buffer)@.skip(n as int));
    front
}

/// The frame codec of one connection. It starts out parsing frames and
/// switches permanently to raw passthrough when the pack magic is seen.
#[derive(Clone, Debug)]
pub struct GitCodec {
    pub mode: CodecMode,
}

impl GitCodec {
    /// A fresh codec in frame mode.
    pub fn new() -> (r: GitCodec)
        ensures
            r.mode is Frame,
    {
        GitCodec { mode: CodecMode::Frame }
    }

    /// Decodes one message from the front of `buffer`, consuming exactly the
    /// decoded bytes; `Ok(None)` asks the caller to wait for more input and
    /// consumes nothing, and a framing fault also consumes nothing.
    pub fn decode(&mut self, buffer: &mut Vec<u8>) -> (r: Result<Option<GitMessage>, FrameError>)
        ensures
            step_spec(old(self).mode, old(buffer)@) is Incomplete ==> {
                &&& r == Ok::<Option<GitMessage>, FrameError>(None)
                &&& final(buffer)@ == old(buffer)@
                &&& final(self).mode == old(self).mode
            },
            step_spec(old(self).mode, old(buffer)@) matches StepResult::Fail(e) ==> {
                &&& r == Err::<Option<GitMessage>, FrameError>(e)
                &&& final(buffer)@ == old(buffer)@
                &&& final(self).mode == old(self).mode
            },
            step_spec(old(self).mode, old(buffer)@) matches StepResult::Msg { msg, consumed, mode }
                ==> {
                &&& r matches Ok(Some(gm)) && gm@ == msg
                &&& final(buffer)@ == old(buffer)@.skip(consumed)
                &&& final(self).mode == mode
            },
    {
        if buffer.len() < 4 {
            return Ok(None);
        }
        let raw_already = match self.mode {
            CodecMode::Raw => true,
            CodecMode::Frame => false,
        };
        let magic = buffer[0] == 80 && buffer[1] == 65 && buffer[2] == 67 && buffer[3] == 75;
        proof {
            if magic {
                assert(buffer@.take(4) =~= pack_magic());
            } else {
                assert(buffer@.take(4) != pack_magic()) by {
                    if buffer@.take(4) == pack_magic() {
                        assert(buffer@.take(4)[0] == 80 && buffer@.take(4)[1] == 65
                            && buffer@.take(4)[2] == 67 && buffer@.take(4)[3] == 75);
                    }
                }
            }
        }
        if raw_already || magic {
            self.mode = CodecMode::Raw;
            let len = buffer.len();
            let data = take_front(buffer, len);
            assert(data@ =~= old(buffer)@);
            assert(buffer@ =~= old(buffer)@.skip(old(buffer)@.len() as int));
            return Ok(Some(GitMessage::PackData(data)));
        }
        let n16 = match hex::parse_hex4(buffer.as_slice()) {
            Some(n) => n,
            None => {
                return Err(FrameError::ParseLengthBytes);
            },
        };
        let n = n16 as usize;
        if n == 0 {
            let _header = take_front(buffer, 4);
            return Ok(Some(GitMessage::Flush));
        }
        if n < 4 {
            return Err(FrameError::InvalidChunkLength);
        }
        if buffer.len() < n {
            return Ok(None);
        }
        let _header = take_front(buffer, 4);
        let payload = take_front(buffer, n - 4);
        assert(payload@ =~= old(buffer)@.subrange(4, n as int));
        assert(buffer@ =~= old(buffer)@.skip(n as int));
        Ok(Some(GitMessage::Data(payload)))
    }

    /// Appends the wire form of `item` to `buf`. A sized frame's declared
    /// length must fit the four-digit prefix, so the payload is bounded.
    pub fn encode(&self, item: &GitMessage, buf: &mut Vec<u8>)
        requires
            item@ matches MessageView::Data(p) ==> p.len() + 4 <= 0xFFFF,
        ensures
            final(buf)@ == old(buf)@ + encode_spec(item@),
    {
        match item {
            GitMessage::Flush => {
                hex::push_hex4(buf, 0);
            },
            GitMessage::Data(data) => {
                if data.len() == 0 {
                    hex::push_hex4(buf, 0);
                } else {
                    let n: u16 = (data.len() + 4) as u16;
                    hex::push_hex4(buf, n);
                    buf.extend_from_slice(data.as_slice());
                    assert(buf@ =~= old(buf)@ + encode_spec(item@));
                }
            },
            GitMessage::PackData(data) => {
                buf.extend_from_slice(data.as_slice());
            },
        }
    }
}

} // verus!
