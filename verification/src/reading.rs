//! What holds of every run of a reader.
use std::sync::Arc;

use vstd::prelude::*;

use crate::error::{IpcError, StreamError};
use crate::framing::{
    eos_bytes, handled, handled_all, header_bytes, law_le_round_trip, law_stream, law_whole_frames,
    le_bytes, stream_bytes, Frame,
};
use crate::laws::{
    law_decode_loop, law_decode_run_keeps, law_drain_is_decode_run, law_drain_keeps, lemma_exchange,
};
use crate::message::{MessageHeader, MessageView};
use crate::model::{
    after_header, gather, law_decoded_keeps, law_reply_accepted, le_u32, lemma_stepped, rank,
    resumed, stepped, DecoderView, StateView, CONTINUATION_MARKER,
};
use crate::reader::{
    in_none_first, opened, read_next, reopened, OpenedView, OpeningView, ProgressView, ReaderView,
    ResumedView,
};
use crate::run::{decode_run, drain, exchange, Codec, Drained};

verus! {

/// Whether the metadata of a message that carries nothing is read before the schema.
pub open spec fn reads_none_first<A, B>(c: Codec<A, B>, v: DecoderView<A>, input: Seq<u8>) -> bool
    decreases input.len(), rank(v.state),
{
    if !v.can_step(input) {
        false
    } else {
        let (after, rest, event) = exchange(c, v, input);
        in_none_first(after) || (event is Continue && reads_none_first(c, after, rest))
    }
}

/// Opens a stream: the reader, or the failure. The stream is decoded up to its first record batch
/// or its end. One that ends before its schema is empty, and one in which a message that carries
/// nothing came before the schema is refused.
pub open spec fn open_run<A, B>(c: Codec<A, B>, o: OpeningView<A>) -> Result<
    ReaderView<A, B>,
    StreamError,
> {
    let (decoder, input, result) = decode_run(c, o.decoder, o.input);
    match result {
        Err(error) => Err(error),
        Ok(pending) => match decoder.schema {
            Some(schema) => if o.none_first || reads_none_first(c, o.decoder, o.input) {
                Err(StreamError::Ipc(IpcError::SchemaNotFirst))
            } else {
                Ok(ReaderView { decoder, input, schema, pending })
            },
            None => Err(
                StreamError::Ipc(
                    if pending is Some {
                        IpcError::SchemaExpected
                    } else {
                        IpcError::EmptyStream
                    },
                ),
            ),
        },
    }
}

/// What holds of every opening: it knows of a message that carries nothing which it is in.
pub open spec fn aware<A>(o: OpeningView<A>) -> bool {
    &&& o.decoder.wf()
    &&& in_none_first(o.decoder) ==> o.none_first
}

/// Opening a stream is to decode until a reply is due, to do the work, to hand over the reply,
/// and to go on so.
pub proof fn law_open_loop<A, B>(c: Codec<A, B>, o: OpeningView<A>)
    requires
        aware(o),
        !o.decoder.state.awaiting(),
    ensures
        open_run(c, o) == match opened::<A, B>(o) {
            Err(error) => Err(StreamError::Ipc(error)),
            Ok(OpenedView::Ready(reader)) => Ok(reader),
            Ok(OpenedView::Waiting(opening, work)) => match reopened(
                opening,
                c.reply(work, opening.decoder.dictionaries),
            ) {
                Err(error) => Err(error),
                Ok(ResumedView::Ready(reader)) => Ok(reader),
                Ok(ResumedView::Opening(next)) => open_run(c, next),
            },
        },
        opened::<A, B>(o) matches Ok(OpenedView::Waiting(opening, work)) ==> (reopened(
            opening,
            c.reply(work, opening.decoder.dictionaries),
        ) matches Ok(ResumedView::Opening(next)) ==> aware(next)
            && !next.decoder.state.awaiting()),
    decreases o.input.len(), rank(o.decoder.state),
{
    if o.decoder.can_step(o.input) {
        lemma_stepped(o.decoder, o.input);
        lemma_exchange(c, o.decoder, o.input);
        let (decoder, input, step) = stepped(o.decoder, o.input);
        if step is Continue {
            law_open_loop(c, OpeningView { decoder, input, ..o });
        }
    }
}

/// Reads the next record batch: the reader afterwards, and the batch, `None` at the end of the
/// stream, or the failure.
pub open spec fn read_run<A, B>(c: Codec<A, B>, r: ReaderView<A, B>) -> (
    ReaderView<A, B>,
    Option<Result<B, StreamError>>,
) {
    if let Some(batch) = r.pending {
        (ReaderView { pending: None, ..r }, Some(Ok(batch)))
    } else if r.decoder.state is Finished {
        (r, None)
    } else {
        let (decoder, input, result) = decode_run(c, r.decoder, r.input);
        (
            ReaderView { decoder, input, ..r },
            match result {
                Ok(Some(batch)) => Some(Ok(batch)),
                Ok(None) => None,
                Err(error) => Some(Err(error)),
            },
        )
    }
}

/// Reading the next record batch is to ask for it, to do the work that comes instead, to hand
/// over the reply, and to go on so.
pub proof fn law_read_loop<A, B>(c: Codec<A, B>, r: ReaderView<A, B>)
    requires
        r.decoder.wf(),
        !r.decoder.state.awaiting(),
    ensures
        ({
            let (after, next) = read_next(r);
            read_run(c, r) == match next {
                None => (after, None),
                Some(Err(error)) => (after, Some(Err(StreamError::Ipc(error)))),
                Some(Ok(ProgressView::Batch(batch))) => (after, Some(Ok(batch))),
                Some(Ok(ProgressView::Work(work))) => {
                    let (decoder, input, result) = resumed(
                        after.decoder,
                        after.input,
                        c.reply(work, after.decoder.dictionaries),
                    );
                    let last = ReaderView { decoder, input, ..after };
                    match result {
                        Ok(None) => read_run(c, last),
                        Ok(Some(batch)) => (last, Some(Ok(batch))),
                        Err(error) => (last, Some(Err(StreamError::Arrow(error)))),
                    }
                },
            }
        }),
{
    law_decoded_keeps(r.decoder, r.input);
    law_decode_loop(c, r.decoder, r.input);
    let (after, next) = read_next(r);
    if let Some(Ok(ProgressView::Work(work))) = next {
        law_reply_accepted(
            r.decoder,
            r.input,
            work,
            c.reply(work, after.decoder.dictionaries),
        );
    }
}

/// What holds of every reader that has not failed: it knows the schema of its decoder, and
/// nothing is left behind the end-of-stream marker.
pub open spec fn sound<A, B>(r: ReaderView<A, B>) -> bool {
    &&& r.decoder.wf()
    &&& !r.decoder.state.awaiting()
    &&& r.decoder.schema == Some(r.schema)
    &&& r.decoder.state is Finished ==> r.input.len() == 0
}

/// What a reader still has to give.
pub open spec fn remaining<A, B>(c: Codec<A, B>, r: ReaderView<A, B>) -> Drained<A, B> {
    drain(c, r.decoder, r.input).after(
        match r.pending {
            Some(batch) => seq![batch],
            None => Seq::empty(),
        },
    )
}

/// The metadata of the first message, where it is there in full.
pub open spec fn first_metadata(input: Seq<u8>) -> Option<Seq<u8>> {
    let start: int = if input.len() >= 4 && input.take(4) == CONTINUATION_MARKER@ {
        8
    } else {
        4
    };
    if input.len() < start {
        None
    } else {
        let size = le_u32(input.subrange(start - 4, start));
        if size == 0 || input.len() < start + size {
            None
        } else {
            Some(input.subrange(start, start + size))
        }
    }
}

/// Whether a stream starts with metadata, in full, of a message of the given kind.
pub open spec fn starts_with<A, B>(
    c: Codec<A, B>,
    input: Seq<u8>,
    header_type: MessageHeader,
) -> bool {
    &&& first_metadata(input) matches Some(metadata)
    &&& (c.message)(metadata) matches Ok(info)
    &&& info.header_type == header_type
}

/// Behind the schema nothing comes before the schema.
proof fn lemma_behind_schema<A, B>(c: Codec<A, B>, v: DecoderView<A>, input: Seq<u8>)
    requires
        v.wf(),
        !v.state.awaiting(),
        v.schema is Some,
    ensures
        !reads_none_first(c, v, input),
        decode_run(c, v, input).0.schema == v.schema,
    decreases input.len(), rank(v.state),
{
    if v.can_step(input) {
        lemma_exchange(c, v, input);
        let (after, rest, event) = exchange(c, v, input);
        if event is Continue {
            lemma_behind_schema(c, after, rest);
        }
    }
}

/// In the first message, past its metadata.
proof fn lemma_first_body<A, B>(
    c: Codec<A, B>,
    v: DecoderView<A>,
    message: MessageView,
    input: Seq<u8>,
)
    requires
        v.state == (StateView::Body { message, read: Seq::empty(), refused: false }),
        v.schema is None,
        message.info.header_type != MessageHeader::NONE,
    ensures
        !reads_none_first(c, v, input),
        decode_run(c, v, input).0.schema matches Some(schema) ==> message.info.header_type
            == MessageHeader::Schema && schema == Arc::new((c.schema)(message)),
{
    if v.can_step(input) {
        let (after, rest, event) = exchange(c, v, input);
        if event is Continue {
            if after.schema is Some {
                lemma_behind_schema(c, after, rest);
            } else {
                assert(!after.can_step(rest));
                assert(!reads_none_first(c, after, rest));
                assert(decode_run(c, after, rest).0 == after);
            }
        }
    }
}

/// In the first message, before its metadata.
proof fn lemma_first_message<A, B>(
    c: Codec<A, B>,
    v: DecoderView<A>,
    size: u32,
    input: Seq<u8>,
)
    requires
        v.state == (StateView::Message { size, read: Seq::empty() }),
        v.schema is None,
        size > 0,
    ensures
        ({
            let metadata = input.take(size as int);
            &&& reads_none_first(c, v, input) <==> input.len() >= size && (
            (c.message)(metadata) matches Ok(info) && info.header_type == MessageHeader::NONE)
            &&& !reads_none_first(c, v, input) ==> (decode_run(
                c,
                v,
                input,
            ).0.schema matches Some(schema) ==> input.len() >= size && (
            (c.message)(metadata) matches Ok(info) && info.header_type == MessageHeader::Schema
                && schema == Arc::new((c.schema)(MessageView { bytes: metadata, info }))))
        }),
{
    if v.can_step(input) {
        let (after, rest, event) = exchange(c, v, input);
        assert(gather(Seq::empty(), size as nat, input).0 =~= if input.len() < size {
            input
        } else {
            input.take(size as int)
        });
        if event is Continue {
            match after.state {
                StateView::Body { message, .. } => {
                    if message.info.header_type != MessageHeader::NONE {
                        lemma_first_body(c, after, message, rest);
                    }
                },
                _ => {
                    assert(!after.can_step(rest));
                    assert(!reads_none_first(c, after, rest));
                    assert(decode_run(c, after, rest).0 == after);
                },
            }
        }
    }
}

/// Four bytes of a header are read at once where they are there.
proof fn lemma_first_four<A, B>(
    c: Codec<A, B>,
    v: DecoderView<A>,
    continuation: bool,
    input: Seq<u8>,
)
    requires
        v.state == (StateView::Header { read: Seq::empty(), continuation }),
        v.schema is None,
    ensures
        input.len() < 4 ==> !reads_none_first(c, v, input) && decode_run(
            c,
            v,
            input,
        ).0.schema is None,
        input.len() >= 4 ==> {
            let next = DecoderView { state: after_header(input.take(4), continuation), ..v };
            &&& reads_none_first(c, v, input) == reads_none_first(c, next, input.skip(4))
            &&& decode_run(c, v, input) == decode_run(c, next, input.skip(4))
        },
{
    if v.can_step(input) {
        let (after, rest, event) = exchange(c, v, input);
        if input.len() < 4 {
            assert(!after.can_step(rest));
            assert(!reads_none_first(c, after, rest));
            assert(decode_run(c, after, rest).0 == after);
        } else {
            assert(gather(Seq::empty(), 4, input).0 =~= input.take(4));
            assert(rest =~= input.skip(4));
        }
    }
}

/// A message that carries nothing comes before the schema if and only if the stream starts with
/// one. Otherwise a schema that is decoded is that of the first message.
pub proof fn law_first_message<A, B>(c: Codec<A, B>, input: Seq<u8>)
    ensures
        ({
            let v = DecoderView::<A>::initial();
            &&& reads_none_first(c, v, input) <==> starts_with(c, input, MessageHeader::NONE)
            &&& !reads_none_first(c, v, input) ==> (decode_run(
                c,
                v,
                input,
            ).0.schema matches Some(schema) ==> (first_metadata(input) matches Some(metadata) && (
            (c.message)(metadata) matches Ok(info) && info.header_type == MessageHeader::Schema
                && schema == Arc::new((c.schema)(MessageView { bytes: metadata, info })))))
        }),
{
    let v = DecoderView::<A>::initial();
    lemma_first_four(c, v, false, input);
    if input.len() >= 4 {
        let four = input.take(4);
        let behind = input.skip(4);
        if four == CONTINUATION_MARKER@ {
            let next = DecoderView {
                state: StateView::Header { read: Seq::empty(), continuation: true },
                ..v
            };
            lemma_first_four(c, next, true, behind);
            if behind.len() >= 4 {
                let size = le_u32(behind.take(4));
                assert(input.subrange(4, 8) =~= behind.take(4));
                if size > 0 {
                    let in_message = DecoderView {
                        state: StateView::Message { size, read: Seq::empty() },
                        ..v
                    };
                    lemma_first_message(c, in_message, size, behind.skip(4));
                    if behind.skip(4).len() >= size {
                        assert(behind.skip(4).take(size as int) =~= input.subrange(8, 8 + size));
                    }
                }
            }
        } else {
            let size = le_u32(four);
            assert(input.subrange(0, 4) =~= four);
            if size > 0 {
                let in_message = DecoderView {
                    state: StateView::Message { size, read: Seq::empty() },
                    ..v
                };
                lemma_first_message(c, in_message, size, behind);
                if behind.len() >= size {
                    assert(behind.take(size as int) =~= input.subrange(4, 4 + size));
                }
            }
        }
    }
}

/// The metadata of a message that comes first is the first metadata.
pub proof fn law_first_metadata<A, B>(c: Codec<A, B>, frame: Frame, rest: Seq<u8>)
    requires
        frame.valid(c),
    ensures
        first_metadata(frame.bytes() + rest) == Some(frame.metadata),
{
    let size = frame.metadata.len() as u32;
    let input = frame.bytes() + rest;
    law_le_round_trip(size);
    let header = header_bytes(frame.marker, size);
    let start = header.len() as int;
    if frame.marker {
        assert(input.take(4) =~= CONTINUATION_MARKER@);
    } else {
        assert(input.take(4) =~= le_bytes(size));
    }
    assert(input.subrange(start - 4, start) =~= le_bytes(size));
    assert(input.subrange(start, start + size) =~= frame.metadata);
}

/// Opening a stream is to decode it up to its first record batch or its end. Where that fails,
/// opening fails with that failure. Where it leaves no schema, the stream is empty. Where a schema
/// is there but the stream starts with a message that carries nothing, opening is refused.
/// Otherwise it succeeds.
pub proof fn law_open_is_decode_run<A, B>(c: Codec<A, B>, input: Seq<u8>)
    ensures
        aware(OpeningView::<A>::start(input)),
        ({
            let (decoder, rest, result) = decode_run(c, DecoderView::initial(), input);
            open_run(c, OpeningView::start(input)) == match result {
                Err(error) => Err(error),
                Ok(pending) => match decoder.schema {
                    None => Err(StreamError::Ipc(IpcError::EmptyStream)),
                    Some(schema) => if starts_with(c, input, MessageHeader::NONE) {
                        Err(StreamError::Ipc(IpcError::SchemaNotFirst))
                    } else {
                        Ok(ReaderView { decoder, input: rest, schema, pending })
                    },
                },
            }
        }),
{
    law_first_message(c, input);
    law_decode_run_keeps(c, DecoderView::<A>::initial(), input);
}

/// A stream opens only if it starts with the metadata of a schema message, and the reader then
/// has that schema.
pub proof fn law_opens_with_schema<A, B>(c: Codec<A, B>, input: Seq<u8>)
    ensures
        open_run(c, OpeningView::start(input)) matches Ok(reader) ==> {
            &&& first_metadata(input) matches Some(metadata)
            &&& (c.message)(metadata) matches Ok(info)
            &&& info.header_type == MessageHeader::Schema
            &&& reader.schema == Arc::new((c.schema)(MessageView { bytes: metadata, info }))
        },
{
    law_first_message(c, input);
    law_open_is_decode_run(c, input);
}

/// A stream that starts with a message that carries nothing does not open, whatever comes behind
/// that message.
pub proof fn law_opening_refuses_none<A, B>(c: Codec<A, B>, frame: Frame, rest: Seq<u8>)
    requires
        frame.valid(c),
        frame.message(c).info.header_type == MessageHeader::NONE,
    ensures
        open_run(c, OpeningView::start(frame.bytes() + rest)) is Err,
{
    law_first_metadata(c, frame, rest);
    law_open_is_decode_run(c, frame.bytes() + rest);
}

/// Opening a stream succeeds if and only if nothing fails up to the first record batch, the schema
/// is there by then, and the stream does not start with a message that carries nothing. The reader
/// then has all record batches of the stream to give, and the schema.
pub proof fn law_open_run<A, B>(c: Codec<A, B>, input: Seq<u8>)
    ensures
        ({
            let first = decode_run(c, DecoderView::initial(), input);
            let all = drain(c, DecoderView::initial(), input);
            let opening = open_run(c, OpeningView::start(input));
            &&& opening is Ok <==> first.2 is Ok && first.0.schema is Some && !starts_with(
                c,
                input,
                MessageHeader::NONE,
            )
            &&& opening matches Ok(reader) ==> {
                &&& first == (
                    reader.decoder,
                    reader.input,
                    Ok::<Option<B>, StreamError>(reader.pending),
                )
                &&& sound(reader)
                &&& remaining(c, reader) == all
                &&& all.decoder.schema == Some(reader.schema)
            }
        }),
{
    let v = DecoderView::<A>::initial();
    law_open_is_decode_run(c, input);
    law_decode_run_keeps(c, v, input);
    law_drain_is_decode_run(c, v, input);
    law_drain_keeps(c, v, input);
    let (decoder, rest, result) = decode_run(c, v, input);
    law_drain_keeps(c, decoder, rest);
    if let Ok(None) = result {
        assert(drain(c, decoder, rest).after(Seq::empty()) =~= drain(c, v, input));
    }
}

/// A stream that is decoded without a failure, holds a schema and does not start with a message
/// that carries nothing opens.
proof fn lemma_opens<A, B>(c: Codec<A, B>, input: Seq<u8>)
    requires
        drain(c, DecoderView::initial(), input).error is None,
        drain(c, DecoderView::initial(), input).decoder.schema is Some,
        !starts_with(c, input, MessageHeader::NONE),
    ensures
        open_run(c, OpeningView::start(input)) is Ok,
{
    let v = DecoderView::<A>::initial();
    law_open_run(c, input);
    law_drain_is_decode_run(c, v, input);
    law_decode_run_keeps(c, v, input);
}

/// Reading gives what there is, one record batch after the other, then the failure if there is
/// one, then nothing. The schema stays.
pub proof fn law_read_run<A, B>(c: Codec<A, B>, r: ReaderView<A, B>)
    requires
        sound(r),
    ensures
        ({
            let (after, next) = read_run(c, r);
            &&& after.schema == r.schema
            &&& match next {
                Some(Ok(batch)) => {
                    &&& sound(after)
                    &&& remaining(c, r) == remaining(c, after).after(seq![batch])
                },
                Some(Err(error)) => {
                    &&& remaining(c, r).batches.len() == 0
                    &&& remaining(c, r).error == Some(error)
                },
                None => {
                    &&& sound(after)
                    &&& remaining(c, r) == Drained::<A, B> {
                        decoder: after.decoder,
                        batches: Seq::<B>::empty(),
                        error: None,
                    }
                },
            }
        }),
{
    let (after, next) = read_run(c, r);
    law_decode_run_keeps(c, r.decoder, r.input);
    law_drain_is_decode_run(c, r.decoder, r.input);
    match next {
        Some(Ok(batch)) => {
            assert(remaining(c, after).after(seq![batch]) =~= remaining(c, r));
        },
        Some(Err(error)) => {},
        None => {
            assert(remaining(c, r).batches =~= Seq::empty());
        },
    }
}

/// Once there is no further record batch, there never is one, and the reader stays as it is.
pub proof fn law_end_is_final<A, B>(c: Codec<A, B>, r: ReaderView<A, B>)
    requires
        r.decoder.wf(),
        !r.decoder.state.awaiting(),
        read_run(c, r).1 is None,
    ensures
        read_run(c, read_run(c, r).0) == (read_run(c, r).0, None::<Result<B, StreamError>>),
{
    law_decode_run_keeps(c, r.decoder, r.input);
}

/// A finished reader produces no further batches, and asks for no work.
pub proof fn law_finished_reader_is_done<A, B>(c: Codec<A, B>, r: ReaderView<A, B>)
    requires
        r.decoder.state is Finished,
        r.pending is None,
    ensures
        read_next(r) == (r, None::<Result<ProgressView<A, B>, IpcError>>),
        read_run(c, r) == (r, None::<Result<B, StreamError>>),
{
}

/// A stream that starts with its schema and is closed by the end-of-stream marker opens, if its
/// messages can be decoded. The reader has the schema and the record batches of the stream to
/// give: the first read gives the first one. It is finished behind them.
pub proof fn law_read_stream<A, B>(c: Codec<A, B>, frames: Seq<Frame>, marker: bool)
    requires
        frames.len() > 0,
        frames.first().message(c).info.header_type == MessageHeader::Schema,
        forall|i: int| 0 <= i < frames.len() ==> (#[trigger] frames[i]).valid(c),
        handled_all(c, DecoderView::initial(), frames).error is None,
    ensures
        ({
            let input = stream_bytes(frames) + eos_bytes(marker);
            let all = handled_all(c, DecoderView::initial(), frames);
            &&& open_run(c, OpeningView::start(input)) matches Ok(reader)
            &&& reader.schema == Arc::new((c.schema)(frames.first().message(c)))
            &&& Some(reader.schema) == all.decoder.schema
            &&& remaining(c, reader).batches == all.batches
            &&& remaining(c, reader).error is None
            &&& remaining(c, reader).decoder.state is Finished
            &&& read_run(c, reader).1 == if all.batches.len() > 0 {
                Some(Ok::<B, StreamError>(all.batches.first()))
            } else {
                None
            }
        }),
{
    let input = stream_bytes(frames) + eos_bytes(marker);
    let first = frames.first();
    let behind = stream_bytes(frames.drop_first()) + eos_bytes(marker);
    assert(frames[0].valid(c));
    assert(input =~= first.bytes() + behind);
    law_stream(c, DecoderView::initial(), frames, marker);
    law_first_metadata(c, first, behind);
    lemma_schema_comes_first(c, frames);
    lemma_opens(c, input);
    law_open_run(c, input);
    law_opens_with_schema(c, input);
    lemma_first_read(c, open_run(c, OpeningView::start(input))->Ok_0);
}

/// The first read gives the first record batch.
proof fn lemma_first_read<A, B>(c: Codec<A, B>, r: ReaderView<A, B>)
    requires
        sound(r),
        remaining(c, r).error is None,
    ensures
        read_run(c, r).1 == if remaining(c, r).batches.len() > 0 {
            Some(Ok::<B, StreamError>(remaining(c, r).batches.first()))
        } else {
            None
        },
{
    law_read_run(c, r);
    if let Some(Ok(batch)) = read_run(c, r).1 {
        assert(remaining(c, r).batches.first() == batch);
    }
}

/// Messages of which the first is a schema leave a decoder with a schema.
proof fn lemma_schema_comes_first<A, B>(c: Codec<A, B>, frames: Seq<Frame>)
    requires
        frames.len() > 0,
        frames.first().message(c).info.header_type == MessageHeader::Schema,
        forall|i: int| 0 <= i < frames.len() ==> (#[trigger] frames[i]).valid(c),
    ensures
        handled_all(c, DecoderView::initial(), frames).decoder.schema is Some,
{
    let v = DecoderView::<A>::initial();
    let first = frames.first();
    let tail = frames.drop_first();
    let (after, event) = handled(c, v, first.message(c), first.body);
    assert forall|i: int| 0 <= i < tail.len() implies (#[trigger] tail[i]).valid(c) by {
        assert(tail[i] == frames[i + 1]);
    }
    law_whole_frames(c, after, tail);
    law_drain_keeps(c, after, stream_bytes(tail));
}

} // verus!
