//! Streams as they are written, and what decoding them gives back.
use vstd::prelude::*;

use crate::error::{IpcError, StreamError};
use crate::message::{MessageHeader, MessageView};
use crate::model::{
    after_header, deliver, gather, le_u32, DecoderView, StateView, CONTINUATION_MARKER,
};
use crate::run::{decode_run, drain, exchange, settled, Codec, Drained, Event};

verus! {

/// Four bytes that hold `n`, the least significant byte first.
pub open spec fn le_bytes(n: u32) -> Seq<u8> {
    seq![
        (n % 0x100) as u8,
        (n / 0x100 % 0x100) as u8,
        (n / 0x1_0000 % 0x100) as u8,
        (n / 0x100_0000) as u8,
    ]
}

/// The bytes before metadata of length `size`.
pub open spec fn header_bytes(marker: bool, size: u32) -> Seq<u8> {
    if marker {
        CONTINUATION_MARKER@ + le_bytes(size)
    } else {
        le_bytes(size)
    }
}

/// A message as it is written.
pub struct Frame {
    /// Whether the continuation marker comes first.
    pub marker: bool,
    /// The metadata.
    pub metadata: Seq<u8>,
    /// The body.
    pub body: Seq<u8>,
}

impl Frame {
    /// The bytes of the message.
    pub open spec fn bytes(self) -> Seq<u8> {
        header_bytes(self.marker, self.metadata.len() as u32) + self.metadata + self.body
    }

    /// Whether the metadata has a length that can be written, and `c` reads the length of the
    /// body out of it.
    pub open spec fn valid<A, B>(self, c: Codec<A, B>) -> bool {
        &&& 0 < self.metadata.len() <= u32::MAX
        &&& !self.marker ==> self.metadata.len() < u32::MAX
        &&& (c.message)(self.metadata) matches Ok(info) && info.body_len() == self.body.len()
    }

    /// The message that `c` reads.
    pub open spec fn message<A, B>(self, c: Codec<A, B>) -> MessageView {
        MessageView { bytes: self.metadata, info: (c.message)(self.metadata)->Ok_0 }
    }
}

/// The bytes of messages, one after the other.
pub open spec fn stream_bytes(frames: Seq<Frame>) -> Seq<u8>
    decreases frames.len(),
{
    if frames.len() == 0 {
        Seq::empty()
    } else {
        frames.first().bytes() + stream_bytes(frames.drop_first())
    }
}

/// The end-of-stream marker.
pub open spec fn eos_bytes(marker: bool) -> Seq<u8> {
    header_bytes(marker, 0)
}

/// What a decoder and `c` make of a message.
pub open spec fn handled<A, B>(
    c: Codec<A, B>,
    v: DecoderView<A>,
    message: MessageView,
    body: Seq<u8>,
) -> (DecoderView<A>, Event<B>) {
    let (after, step) = deliver(v, message, body);
    let (last, _, event) = settled(c, after, Seq::empty(), step);
    (last, event)
}

/// What a decoder and `c` make of messages, one after the other, up to the first failure.
pub open spec fn handled_all<A, B>(
    c: Codec<A, B>,
    v: DecoderView<A>,
    frames: Seq<Frame>,
) -> Drained<A, B>
    decreases frames.len(),
{
    if frames.len() == 0 {
        Drained { decoder: v, batches: Seq::empty(), error: None }
    } else {
        let first = frames.first();
        let (after, event) = handled(c, v, first.message(c), first.body);
        match event {
            Event::Continue => handled_all(c, after, frames.drop_first()),
            Event::Batch(batch) => handled_all(c, after, frames.drop_first()).after(seq![batch]),
            Event::Failed(error) => Drained {
                decoder: after,
                batches: Seq::empty(),
                error: Some(error),
            },
        }
    }
}

/// A number is read back as it was written.
pub proof fn law_le_round_trip(n: u32)
    ensures
        le_bytes(n).len() == 4,
        le_u32(le_bytes(n)) == n,
        le_bytes(n) == CONTINUATION_MARKER@ <==> n == u32::MAX,
{
    let b = le_bytes(n);
    assert(n == n % 0x100 + 0x100 * (n / 0x100 % 0x100) + 0x1_0000 * (n / 0x1_0000 % 0x100)
        + 0x100_0000 * (n / 0x100_0000));
    if n == u32::MAX {
        assert(le_bytes(n) =~= CONTINUATION_MARKER@);
    }
    if b == CONTINUATION_MARKER@ {
        assert(b[0] == 0xff && b[1] == 0xff && b[2] == 0xff && b[3] == 0xff);
    }
}

/// Four bytes are written back as they were read.
#[verifier::rlimit(50)]
pub proof fn law_le_bytes_round_trip(bytes: Seq<u8>)
    requires
        bytes.len() == 4,
    ensures
        le_bytes(le_u32(bytes)) == bytes,
{
    let (b0, b1, b2, b3) = (bytes[0] as int, bytes[1] as int, bytes[2] as int, bytes[3] as int);
    let n = b0 + 0x100 * b1 + 0x1_0000 * b2 + 0x100_0000 * b3;
    assert(n <= u32::MAX);
    assert(n % 0x100 == b0);
    assert(n / 0x100 % 0x100 == b1);
    assert(n / 0x1_0000 % 0x100 == b2);
    assert(n / 0x100_0000 == b3);
    assert(le_bytes(le_u32(bytes)) =~= bytes);
}

/// Draining takes a step that goes on, and so does decoding up to the next record batch.
proof fn lemma_drain_step<A, B>(c: Codec<A, B>, v: DecoderView<A>, input: Seq<u8>)
    requires
        v.can_step(input),
        exchange(c, v, input).2 is Continue,
    ensures
        drain(c, v, input) == drain(c, exchange(c, v, input).0, exchange(c, v, input).1),
        decode_run(c, v, input) == decode_run(
            c,
            exchange(c, v, input).0,
            exchange(c, v, input).1,
        ),
{
}

/// Four bytes of a header are read at once where they are there.
proof fn lemma_drain_four<A, B>(
    c: Codec<A, B>,
    v: DecoderView<A>,
    continuation: bool,
    four: Seq<u8>,
    rest: Seq<u8>,
)
    requires
        v.state == (StateView::Header { read: Seq::empty(), continuation }),
        four.len() == 4,
    ensures
        drain(c, v, four + rest) == drain(
            c,
            DecoderView { state: after_header(four, continuation), ..v },
            rest,
        ),
        decode_run(c, v, four + rest) == decode_run(
            c,
            DecoderView { state: after_header(four, continuation), ..v },
            rest,
        ),
{
    assert(gather(Seq::empty(), 4, four + rest).0 =~= four);
    assert(gather(Seq::empty(), 4, four + rest).1 =~= rest);
    lemma_drain_step(c, v, four + rest);
}

/// A header leads to its metadata, or to the end of the stream.
pub proof fn lemma_drain_header<A, B>(
    c: Codec<A, B>,
    v: DecoderView<A>,
    marker: bool,
    size: u32,
    rest: Seq<u8>,
)
    requires
        v.state == StateView::start(),
        !marker ==> size < u32::MAX,
    ensures
        ({
            let after = DecoderView {
                state: if size == 0 {
                    StateView::Finished
                } else {
                    StateView::Message { size, read: Seq::empty() }
                },
                ..v
            };
            &&& drain(c, v, header_bytes(marker, size) + rest) == drain(c, after, rest)
            &&& decode_run(c, v, header_bytes(marker, size) + rest) == decode_run(c, after, rest)
        }),
{
    law_le_round_trip(size);
    if marker {
        let four = CONTINUATION_MARKER@;
        assert(header_bytes(marker, size) + rest =~= four + (le_bytes(size) + rest));
        lemma_drain_four(c, v, false, four, le_bytes(size) + rest);
        let next = DecoderView {
            state: StateView::Header { read: Seq::empty(), continuation: true },
            ..v
        };
        lemma_drain_four(c, next, true, le_bytes(size), rest);
    } else {
        lemma_drain_four(c, v, false, le_bytes(size), rest);
    }
}

/// Metadata leads to its body.
proof fn lemma_drain_metadata<A, B>(
    c: Codec<A, B>,
    v: DecoderView<A>,
    metadata: Seq<u8>,
    rest: Seq<u8>,
)
    requires
        0 < metadata.len() <= u32::MAX,
        v.state == (StateView::Message { size: metadata.len() as u32, read: Seq::empty() }),
        (c.message)(metadata) is Ok,
    ensures
        ({
            let after = DecoderView {
                state: StateView::Body {
                    message: MessageView { bytes: metadata, info: (c.message)(metadata)->Ok_0 },
                    read: Seq::empty(),
                    refused: false,
                },
                ..v
            };
            &&& drain(c, v, metadata + rest) == drain(c, after, rest)
            &&& decode_run(c, v, metadata + rest) == decode_run(c, after, rest)
        }),
{
    let input = metadata + rest;
    let size = metadata.len() as int;
    assert(input.take(size) =~= metadata);
    assert(input.skip(size) =~= rest);
    assert(gather(Seq::empty(), metadata.len(), input).0 =~= metadata);
    lemma_drain_step(c, v, input);
}

/// A decoder that is done with a message is between messages.
proof fn lemma_handled<A, B>(
    c: Codec<A, B>,
    v: DecoderView<A>,
    message: MessageView,
    body: Seq<u8>,
)
    ensures
        ({
            let (after, event) = handled(c, v, message, body);
            !(event is Failed) ==> after.state == StateView::start()
        }),
{
}

/// A body is handed over whole.
proof fn lemma_drain_body<A, B>(
    c: Codec<A, B>,
    v: DecoderView<A>,
    message: MessageView,
    body: Seq<u8>,
    rest: Seq<u8>,
)
    requires
        v.state == (StateView::Body { message, read: Seq::empty(), refused: false }),
        body.len() == message.info.body_len(),
    ensures
        ({
            let (after, event) = handled(c, v, message, body);
            &&& drain(c, v, body + rest) == match event {
                Event::Continue => drain(c, after, rest),
                Event::Batch(batch) => drain(c, after, rest).after(seq![batch]),
                Event::Failed(error) => Drained {
                    decoder: after,
                    batches: Seq::empty(),
                    error: Some(error),
                },
            }
            &&& decode_run(c, v, body + rest) == match event {
                Event::Continue => decode_run(c, after, rest),
                Event::Batch(batch) => (after, rest, Ok(Some(batch))),
                Event::Failed(error) => (after, rest, Err(error)),
            }
        }),
{
    let input = body + rest;
    assert(gather(Seq::empty(), body.len(), input).0 =~= body);
    assert(gather(Seq::empty(), body.len(), input).1 =~= rest);
    assert(exchange(c, v, input) == (
        handled(c, v, message, body).0,
        rest,
        handled(c, v, message, body).1,
    ));
}

/// A message is read back as it was written, whatever comes behind it. Decoding that ends with
/// the message stops right behind its body.
pub proof fn law_frame<A, B>(c: Codec<A, B>, v: DecoderView<A>, frame: Frame, rest: Seq<u8>)
    requires
        v.state == StateView::start(),
        frame.valid(c),
    ensures
        ({
            let (after, event) = handled(c, v, frame.message(c), frame.body);
            &&& drain(c, v, frame.bytes() + rest) == match event {
                Event::Continue => drain(c, after, rest),
                Event::Batch(batch) => drain(c, after, rest).after(seq![batch]),
                Event::Failed(error) => Drained {
                    decoder: after,
                    batches: Seq::empty(),
                    error: Some(error),
                },
            }
            &&& decode_run(c, v, frame.bytes() + rest) == match event {
                Event::Continue => decode_run(c, after, rest),
                Event::Batch(batch) => (after, rest, Ok(Some(batch))),
                Event::Failed(error) => (after, rest, Err(error)),
            }
        }),
{
    let size = frame.metadata.len() as u32;
    let behind = frame.body + rest;
    assert(frame.bytes() + rest =~= header_bytes(frame.marker, size) + (frame.metadata + behind));
    lemma_drain_header(c, v, frame.marker, size, frame.metadata + behind);
    let in_message = DecoderView {
        state: StateView::Message { size, read: Seq::empty() },
        ..v
    };
    lemma_drain_metadata(c, in_message, frame.metadata, behind);
    let in_body = DecoderView {
        state: StateView::Body {
            message: frame.message(c),
            read: Seq::empty(),
            refused: false,
        },
        ..v
    };
    lemma_drain_body(c, in_body, frame.message(c), frame.body, rest);
    assert(handled(c, in_body, frame.message(c), frame.body) == handled(
        c,
        v,
        frame.message(c),
        frame.body,
    ));
}

/// Messages are read back as they were written, in order, whatever comes behind them.
pub proof fn law_frames<A, B>(c: Codec<A, B>, v: DecoderView<A>, frames: Seq<Frame>, rest: Seq<u8>)
    requires
        v.state == StateView::start(),
        forall|i: int| 0 <= i < frames.len() ==> (#[trigger] frames[i]).valid(c),
    ensures
        ({
            let all = handled_all(c, v, frames);
            &&& all.error is None ==> all.decoder.state == StateView::start()
            &&& drain(c, v, stream_bytes(frames) + rest) == if all.error is Some {
                all
            } else {
                drain(c, all.decoder, rest).after(all.batches)
            }
        }),
    decreases frames.len(),
{
    let all = handled_all(c, v, frames);
    if frames.len() == 0 {
        assert(stream_bytes(frames) + rest =~= rest);
        assert(drain(c, v, rest).after(Seq::empty()) =~= drain(c, v, rest));
    } else {
        let first = frames.first();
        let tail = frames.drop_first();
        let behind = stream_bytes(tail) + rest;
        assert(frames[0].valid(c));
        assert(stream_bytes(frames) + rest =~= first.bytes() + behind);
        law_frame(c, v, first, behind);
        let (after, event) = handled(c, v, first.message(c), first.body);
        lemma_handled(c, v, first.message(c), first.body);
        assert forall|i: int| 0 <= i < tail.len() implies (#[trigger] tail[i]).valid(c) by {
            assert(tail[i] == frames[i + 1]);
        }
        if !(event is Failed) {
            law_frames(c, after, tail, rest);
            let more = handled_all(c, after, tail);
            if let Event::Batch(batch) = event {
                if more.error is None {
                    assert(drain(c, more.decoder, rest).after(more.batches).after(seq![batch])
                        =~= drain(c, more.decoder, rest).after(seq![batch] + more.batches));
                }
            }
        }
    }
}

/// Messages that are all there leave the decoder between messages, so that
/// [`finish`](crate::decoder::StreamDecoder::finish) succeeds.
pub proof fn law_whole_frames<A, B>(c: Codec<A, B>, v: DecoderView<A>, frames: Seq<Frame>)
    requires
        v.state == StateView::start(),
        forall|i: int| 0 <= i < frames.len() ==> (#[trigger] frames[i]).valid(c),
    ensures
        drain(c, v, stream_bytes(frames)) == handled_all(c, v, frames),
        handled_all(c, v, frames).error is None ==> drain(
            c,
            v,
            stream_bytes(frames),
        ).decoder.state.at_boundary(),
{
    let all = handled_all(c, v, frames);
    law_frames(c, v, frames, Seq::empty());
    assert(stream_bytes(frames) + Seq::<u8>::empty() =~= stream_bytes(frames));
    if all.error is None {
        assert(drain(c, all.decoder, Seq::empty()).after(all.batches) =~= all);
    }
}

/// A stream that is written message by message and closed by the end-of-stream marker gives back
/// its messages in order, and ends.
pub proof fn law_stream<A, B>(c: Codec<A, B>, v: DecoderView<A>, frames: Seq<Frame>, marker: bool)
    requires
        v.state == StateView::start(),
        forall|i: int| 0 <= i < frames.len() ==> (#[trigger] frames[i]).valid(c),
    ensures
        ({
            let all = handled_all(c, v, frames);
            drain(c, v, stream_bytes(frames) + eos_bytes(marker)) == if all.error is Some {
                all
            } else {
                Drained {
                    decoder: DecoderView { state: StateView::Finished, ..all.decoder },
                    ..all
                }
            }
        }),
{
    let all = handled_all(c, v, frames);
    law_le_round_trip(0);
    law_frames(c, v, frames, eos_bytes(marker));
    if all.error is None {
        lemma_drain_header(c, all.decoder, marker, 0, Seq::empty());
        assert(eos_bytes(marker) + Seq::<u8>::empty() =~= eos_bytes(marker));
        assert(drain(c, all.decoder, eos_bytes(marker)).after(all.batches).batches
            =~= all.batches);
    }
}

/// A schema behind the first one is refused, and the first one stays. A record batch or a
/// dictionary before the schema is refused too.
pub proof fn law_misplaced_frame<A, B>(
    c: Codec<A, B>,
    v: DecoderView<A>,
    frame: Frame,
    rest: Seq<u8>,
)
    requires
        v.state == StateView::start(),
        frame.valid(c),
    ensures
        ({
            let kind = frame.message(c).info.header_type;
            let (after, _, result) = decode_run(c, v, frame.bytes() + rest);
            &&& v.schema is Some && kind == MessageHeader::Schema ==> after.schema == v.schema
                && result == Err::<Option<B>, StreamError>(
                StreamError::Ipc(IpcError::UnexpectedSchema),
            )
            &&& v.schema is None && (kind == MessageHeader::RecordBatch || kind
                == MessageHeader::DictionaryBatch) ==> after.schema is None && result == Err::<
                Option<B>,
                StreamError,
            >(StreamError::Ipc(IpcError::MissingSchema))
        }),
{
    law_frame(c, v, frame, rest);
}

/// A message that carries nothing has no effect among other messages.
pub proof fn law_none_has_no_effect<A, B>(
    c: Codec<A, B>,
    v: DecoderView<A>,
    a: Seq<Frame>,
    none: Frame,
    b: Seq<Frame>,
)
    requires
        v.state == StateView::start(),
        none.message(c).info.header_type == MessageHeader::NONE,
    ensures
        handled_all(c, v, a + seq![none] + b) == handled_all(c, v, a + b),
    decreases a.len(),
{
    let with_none = a + seq![none] + b;
    if a.len() == 0 {
        assert(with_none.first() == none);
        assert(with_none.drop_first() =~= a + b);
    } else {
        let first = a.first();
        assert(with_none.first() == first && (a + b).first() == first);
        assert(with_none.drop_first() =~= a.drop_first() + seq![none] + b);
        assert((a + b).drop_first() =~= a.drop_first() + b);
        let (after, event) = handled(c, v, first.message(c), first.body);
        lemma_handled(c, v, first.message(c), first.body);
        if !(event is Failed) {
            law_none_has_no_effect(c, after, a.drop_first(), none, b);
        }
    }
}

/// The messages that carry something.
pub open spec fn without_none<A, B>(c: Codec<A, B>, frames: Seq<Frame>) -> Seq<Frame>
    decreases frames.len(),
{
    if frames.len() == 0 {
        Seq::empty()
    } else {
        let rest = without_none(c, frames.drop_first());
        if frames.first().message(c).info.header_type == MessageHeader::NONE {
            rest
        } else {
            seq![frames.first()] + rest
        }
    }
}

/// A message that carries nothing can be inserted anywhere, and the messages that carry something
/// stay the same.
pub proof fn law_inserted_none<A, B>(
    c: Codec<A, B>,
    a: Seq<Frame>,
    none: Frame,
    b: Seq<Frame>,
)
    requires
        none.message(c).info.header_type == MessageHeader::NONE,
    ensures
        without_none(c, a + seq![none] + b) == without_none(c, a + b),
    decreases a.len(),
{
    let with_none = a + seq![none] + b;
    if a.len() == 0 {
        assert(with_none.first() == none);
        assert(with_none.drop_first() =~= a + b);
    } else {
        assert(with_none.first() == a.first() && (a + b).first() == a.first());
        assert(with_none.drop_first() =~= a.drop_first() + seq![none] + b);
        assert((a + b).drop_first() =~= a.drop_first() + b);
        law_inserted_none(c, a.drop_first(), none, b);
    }
}

/// Messages that carry nothing have no effect, however many there are and wherever they stand.
pub proof fn law_nones_have_no_effect<A, B>(c: Codec<A, B>, v: DecoderView<A>, frames: Seq<Frame>)
    requires
        v.state == StateView::start(),
    ensures
        handled_all(c, v, frames) == handled_all(c, v, without_none(c, frames)),
    decreases frames.len(),
{
    if frames.len() > 0 {
        let first = frames.first();
        let tail = frames.drop_first();
        let (after, event) = handled(c, v, first.message(c), first.body);
        lemma_handled(c, v, first.message(c), first.body);
        if first.message(c).info.header_type != MessageHeader::NONE {
            let kept = without_none(c, frames);
            assert(kept.first() == first);
            assert(kept.drop_first() =~= without_none(c, tail));
        }
        if !(event is Failed) {
            law_nones_have_no_effect(c, after, tail);
        }
    }
}

/// Messages that carry nothing have no effect in a stream. Two streams that differ in such
/// messages only, any number of them at any place, give the same record batches, the same failure
/// if there is one, and the same decoder.
pub proof fn law_none_in_stream<A, B>(
    c: Codec<A, B>,
    v: DecoderView<A>,
    a: Seq<Frame>,
    b: Seq<Frame>,
    marker: bool,
)
    requires
        v.state == StateView::start(),
        forall|i: int| 0 <= i < a.len() ==> (#[trigger] a[i]).valid(c),
        forall|i: int| 0 <= i < b.len() ==> (#[trigger] b[i]).valid(c),
        without_none(c, a) == without_none(c, b),
    ensures
        drain(c, v, stream_bytes(a) + eos_bytes(marker)) == drain(
            c,
            v,
            stream_bytes(b) + eos_bytes(marker),
        ),
{
    law_nones_have_no_effect(c, v, a);
    law_nones_have_no_effect(c, v, b);
    law_stream(c, v, a, marker);
    law_stream(c, v, b, marker);
}

/// Whether `input` starts with messages that are all decoded, and with an end-of-stream marker
/// behind them.
pub open spec fn is_closed_by<A, B>(
    c: Codec<A, B>,
    v: DecoderView<A>,
    input: Seq<u8>,
    frames: Seq<Frame>,
    marker: bool,
) -> bool {
    &&& forall|i: int| 0 <= i < frames.len() ==> (#[trigger] frames[i]).valid(c)
    &&& handled_all(c, v, frames).error is None
    &&& (stream_bytes(frames) + eos_bytes(marker)).is_prefix_of(input)
}

/// A decoder that started between messages is finished if and only if a whole end-of-stream
/// marker stood in place of a header.
pub proof fn law_finished_by_marker<A, B>(c: Codec<A, B>, v: DecoderView<A>, input: Seq<u8>)
    requires
        v.state == StateView::start(),
    ensures
        drain(c, v, input).decoder.state is Finished <==> exists|frames: Seq<Frame>, marker: bool|
            is_closed_by(c, v, input, frames, marker),
{
    if drain(c, v, input).decoder.state is Finished {
        let (frames, marker) = lemma_finished_is_closed(c, v, input);
        assert(is_closed_by(c, v, input, frames, marker));
    }
    if exists|frames: Seq<Frame>, marker: bool| is_closed_by(c, v, input, frames, marker) {
        let (frames, marker) = choose|frames: Seq<Frame>, marker: bool|
            is_closed_by(c, v, input, frames, marker);
        let closed = stream_bytes(frames) + eos_bytes(marker);
        let rest = input.skip(closed.len() as int);
        let all = handled_all(c, v, frames);
        assert(closed =~= input.take(closed.len() as int));
        assert(input =~= closed + rest);
        assert(closed + rest =~= stream_bytes(frames) + (eos_bytes(marker) + rest));
        law_frames(c, v, frames, eos_bytes(marker) + rest);
        lemma_drain_header(c, all.decoder, marker, 0, rest);
    }
}

/// A decoder that is finished met an end-of-stream marker: the messages before it, and whether it
/// holds the continuation marker.
proof fn lemma_finished_is_closed<A, B>(c: Codec<A, B>, v: DecoderView<A>, input: Seq<u8>) -> (
    closed: (Seq<Frame>, bool)
)
    requires
        v.state == StateView::start(),
        drain(c, v, input).decoder.state is Finished,
    ensures
        is_closed_by(c, v, input, closed.0, closed.1),
    decreases input.len(), 1int,
{
    if input.len() < 4 {
        if input.len() > 0 {
            lemma_some_of_four(c, v, false, input);
        }
        assert(false);
    }
    let four = input.take(4);
    assert(input =~= four + input.skip(4));
    lemma_drain_four(c, v, false, four, input.skip(4));
    law_le_bytes_round_trip(four);
    if four == CONTINUATION_MARKER@ {
        let behind = input.skip(4);
        let next = DecoderView {
            state: StateView::Header { read: Seq::empty(), continuation: true },
            ..v
        };
        if behind.len() < 4 {
            lemma_some_of_four(c, next, true, behind);
            assert(false);
        }
        let size = le_u32(behind.take(4));
        assert(behind =~= behind.take(4) + behind.skip(4));
        lemma_drain_four(c, next, true, behind.take(4), behind.skip(4));
        law_le_bytes_round_trip(behind.take(4));
        assert(input =~= header_bytes(true, size) + behind.skip(4));
        lemma_closed_behind_header(c, v, true, size, behind.skip(4), input)
    } else {
        law_le_round_trip(le_u32(four));
        lemma_closed_behind_header(c, v, false, le_u32(four), input.skip(4), input)
    }
}

/// The same behind the header of the first message.
proof fn lemma_closed_behind_header<A, B>(
    c: Codec<A, B>,
    v: DecoderView<A>,
    marker: bool,
    size: u32,
    rest: Seq<u8>,
    input: Seq<u8>,
) -> (closed: (Seq<Frame>, bool))
    requires
        v.state == StateView::start(),
        input == header_bytes(marker, size) + rest,
        !marker ==> size < u32::MAX,
        drain(c, v, input).decoder.state is Finished,
    ensures
        is_closed_by(c, v, input, closed.0, closed.1),
    decreases input.len(), 0int,
{
    law_le_round_trip(size);
    lemma_drain_header(c, v, marker, size, rest);
    if size == 0 {
        let none = Seq::<Frame>::empty();
        assert(stream_bytes(none) + eos_bytes(marker) =~= input.take(
            eos_bytes(marker).len() as int,
        ));
        (none, marker)
    } else {
        let in_message = DecoderView {
            state: StateView::Message { size, read: Seq::empty() },
            ..v
        };
        let (metadata, body, tail) = lemma_finished_behind_message(c, in_message, size, rest);
        let first = Frame { marker, metadata, body };
        assert(input =~= first.bytes() + tail);
        law_frame(c, v, first, tail);
        let (after, event) = handled(c, v, first.message(c), body);
        lemma_handled(c, v, first.message(c), body);
        assert(!(event is Failed)) by {
            lemma_refusal(c, v, first.message(c), body);
        }
        let (more, last) = lemma_finished_is_closed(c, after, tail);
        lemma_closed_by_more(c, v, first, tail, more, last);
        (seq![first] + more, last)
    }
}

/// A decoder that refuses a message is not finished.
proof fn lemma_refusal<A, B>(
    c: Codec<A, B>,
    v: DecoderView<A>,
    message: MessageView,
    body: Seq<u8>,
)
    ensures
        handled(c, v, message, body).1 is Failed ==> !(handled(
            c,
            v,
            message,
            body,
        ).0.state is Finished),
{
}

/// A decoder that is finished had all of the message that it was in: the metadata, the body and
/// what comes behind.
proof fn lemma_finished_behind_message<A, B>(
    c: Codec<A, B>,
    v: DecoderView<A>,
    size: u32,
    input: Seq<u8>,
) -> (parts: (Seq<u8>, Seq<u8>, Seq<u8>))
    requires
        v.state == (StateView::Message { size, read: Seq::empty() }),
        size > 0,
        drain(c, v, input).decoder.state is Finished,
    ensures
        input == parts.0 + (parts.1 + parts.2),
        parts.0.len() == size,
        (c.message)(parts.0) matches Ok(info) && info.body_len() == parts.1.len(),
{
    if input.len() < size {
        lemma_some_is_unfinished(c, v, input);
        assert(false);
    }
    let metadata = input.take(size as int);
    let behind = input.skip(size as int);
    assert(input =~= metadata + behind);
    if (c.message)(metadata) is Err {
        assert(gather(Seq::empty(), size as nat, input).0 =~= metadata);
        assert(false);
    }
    lemma_drain_metadata(c, v, metadata, behind);
    let info = (c.message)(metadata)->Ok_0;
    let message = MessageView { bytes: metadata, info };
    let in_body = DecoderView {
        state: StateView::Body { message, read: Seq::empty(), refused: false },
        ..v
    };
    if behind.len() < info.body_len() {
        lemma_some_is_unfinished(c, in_body, behind);
        assert(false);
    }
    let body = behind.take(info.body_len() as int);
    let tail = behind.skip(info.body_len() as int);
    assert(behind =~= body + tail);
    (metadata, body, tail)
}

/// A message before what is closed.
proof fn lemma_closed_by_more<A, B>(
    c: Codec<A, B>,
    v: DecoderView<A>,
    first: Frame,
    tail: Seq<u8>,
    more: Seq<Frame>,
    marker: bool,
)
    requires
        first.valid(c),
        !(handled(c, v, first.message(c), first.body).1 is Failed),
        is_closed_by(c, handled(c, v, first.message(c), first.body).0, tail, more, marker),
    ensures
        is_closed_by(c, v, first.bytes() + tail, seq![first] + more, marker),
{
    let input = first.bytes() + tail;
    let frames = seq![first] + more;
    assert(frames.first() == first);
    assert(frames.drop_first() =~= more);
    assert forall|i: int| 0 <= i < frames.len() implies (#[trigger] frames[i]).valid(c) by {
        if i > 0 {
            assert(frames[i] == more[i - 1]);
        }
    }
    let closed = stream_bytes(more) + eos_bytes(marker);
    let longer = first.bytes() + closed;
    assert(stream_bytes(frames) + eos_bytes(marker) =~= longer);
    assert(closed =~= tail.take(closed.len() as int));
    assert(longer =~= input.take(longer.len() as int));
}

/// Whether a decoder got through an input without a failure or a record batch, and is not between
/// messages: [`finish`](crate::decoder::StreamDecoder::finish) then fails.
pub open spec fn unfinished<A, B>(all: Drained<A, B>) -> bool {
    &&& all.error is None
    &&& all.batches.len() == 0
    &&& !all.decoder.state.at_boundary()
}

/// Some of the four bytes of a header.
proof fn lemma_some_of_four<A, B>(
    c: Codec<A, B>,
    v: DecoderView<A>,
    continuation: bool,
    some: Seq<u8>,
)
    requires
        v.state == (StateView::Header { read: Seq::empty(), continuation }),
        some.len() < 4,
        some.len() > 0 || continuation,
    ensures
        unfinished(drain(c, v, some)),
{
    if some.len() > 0 {
        assert(gather(Seq::empty(), 4, some).0 =~= some);
        lemma_drain_step(c, v, some);
    }
}

/// Some of a header.
proof fn lemma_some_of_header<A, B>(
    c: Codec<A, B>,
    v: DecoderView<A>,
    marker: bool,
    size: u32,
    k: int,
)
    requires
        v.state == StateView::start(),
        0 < k < header_bytes(marker, size).len(),
    ensures
        unfinished(drain(c, v, header_bytes(marker, size).take(k))),
{
    law_le_round_trip(size);
    let some = header_bytes(marker, size).take(k);
    if marker && k >= 4 {
        let four = CONTINUATION_MARKER@;
        assert(some =~= four + le_bytes(size).take(k - 4));
        lemma_drain_four(c, v, false, four, le_bytes(size).take(k - 4));
        let next = DecoderView {
            state: StateView::Header { read: Seq::empty(), continuation: true },
            ..v
        };
        lemma_some_of_four(c, next, true, le_bytes(size).take(k - 4));
    } else {
        lemma_some_of_four(c, v, false, some);
    }
}

/// Some of what a decoder in metadata or in a body still needs.
proof fn lemma_some_is_unfinished<A, B>(c: Codec<A, B>, v: DecoderView<A>, some: Seq<u8>)
    requires
        v.wf(),
        v.state matches StateView::Message { size, read } ==> read.len() == 0 && some.len() < size,
        v.state matches StateView::Body { message, read, .. } ==> read.len() == 0 && some.len()
            < message.info.body_len(),
        v.state is Message || v.state is Body,
    ensures
        unfinished(drain(c, v, some)),
{
    if some.len() > 0 {
        lemma_drain_step(c, v, some);
    }
}

/// A message that is cut short leaves the decoder inside it.
#[verifier::rlimit(50)]
pub proof fn law_cut_frame<A, B>(c: Codec<A, B>, v: DecoderView<A>, frame: Frame, k: int)
    requires
        v.state == StateView::start(),
        frame.valid(c),
        0 < k < frame.bytes().len(),
    ensures
        unfinished(drain(c, v, frame.bytes().take(k))),
{
    let size = frame.metadata.len() as u32;
    law_le_round_trip(size);
    let header = header_bytes(frame.marker, size);
    let some = frame.bytes().take(k);
    let in_message = DecoderView {
        state: StateView::Message { size, read: Seq::empty() },
        ..v
    };
    if k < header.len() {
        assert(some =~= header.take(k));
        lemma_some_of_header(c, v, frame.marker, size, k);
    } else if k < header.len() + size {
        let part = frame.metadata.take(k - header.len());
        assert(some =~= header + part);
        lemma_drain_header(c, v, frame.marker, size, part);
        lemma_some_is_unfinished(c, in_message, part);
    } else {
        let part = frame.body.take(k - header.len() - size);
        assert(some =~= header + (frame.metadata + part));
        lemma_drain_header(c, v, frame.marker, size, frame.metadata + part);
        lemma_drain_metadata(c, in_message, frame.metadata, part);
        let in_body = DecoderView {
            state: StateView::Body {
            message: frame.message(c),
            read: Seq::empty(),
            refused: false,
        },
            ..v
        };
        lemma_some_is_unfinished(c, in_body, part);
    }
}

/// An end-of-stream marker that is cut short leaves the decoder inside it.
pub proof fn law_cut_eos<A, B>(c: Codec<A, B>, v: DecoderView<A>, marker: bool, k: int)
    requires
        v.state == StateView::start(),
        0 < k < eos_bytes(marker).len(),
    ensures
        unfinished(drain(c, v, eos_bytes(marker).take(k))),
{
    lemma_some_of_header(c, v, marker, 0, k);
}

/// A stream that is cut in or before a message or its end-of-stream marker gives back the messages
/// before. [`finish`](crate::decoder::StreamDecoder::finish) then succeeds if and only if the cut
/// is between messages.
pub proof fn law_cut_stream<A, B>(
    c: Codec<A, B>,
    v: DecoderView<A>,
    frames: Seq<Frame>,
    next: Option<Frame>,
    marker: bool,
    k: int,
)
    requires
        v.state == StateView::start(),
        forall|i: int| 0 <= i < frames.len() ==> (#[trigger] frames[i]).valid(c),
        handled_all(c, v, frames).error is None,
        next matches Some(frame) ==> frame.valid(c) && 0 <= k < frame.bytes().len(),
        next is None ==> 0 <= k < eos_bytes(marker).len(),
    ensures
        ({
            let behind = match next {
                Some(frame) => frame.bytes(),
                None => eos_bytes(marker),
            };
            let all = drain(c, v, stream_bytes(frames) + behind.take(k));
            &&& all.error is None
            &&& all.batches == handled_all(c, v, frames).batches
            &&& all.decoder.state.at_boundary() <==> k == 0
        }),
{
    let all = handled_all(c, v, frames);
    let behind = match next {
        Some(frame) => frame.bytes(),
        None => eos_bytes(marker),
    };
    law_frames(c, v, frames, behind.take(k));
    if k > 0 {
        match next {
            Some(frame) => law_cut_frame(c, all.decoder, frame, k),
            None => law_cut_eos(c, all.decoder, marker, k),
        }
    }
    assert(drain(c, all.decoder, behind.take(k)).after(all.batches).batches =~= all.batches);
}

} // verus!
