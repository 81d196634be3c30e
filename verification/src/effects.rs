//! What each kind of message does to a decoder, and what a whole stream gives.
//!
//! The bytes of a message are those of a [`Frame`], and a [`Codec`] reads metadata and builds
//! arrays. Every result is given in terms of these two and of the decoder before the message.
use std::sync::Arc;

use arrow_schema::{ArrowError, Schema, SchemaRef};
use vstd::prelude::*;

use crate::error::{IpcError, StreamError};
use crate::framing::{
    eos_bytes, law_frame, law_frames, law_le_round_trip, law_stream, law_whole_frames, le_bytes,
    lemma_drain_header, stream_bytes, Frame,
};
use crate::laws::{law_decode_run_keeps, law_drain_keeps, law_split};
use crate::message::{MessageHeader, MessageInfo, MessageView};
use crate::model::{
    decoded, fits_memory, gather, le_u32, lemma_fits_in_header, resumed, stepped, DecoderView,
    StateView, Step, CONTINUATION_MARKER,
};
use crate::reader::{read_next, OpeningView, ProgressView, ReaderView};
use crate::reading::{
    law_first_metadata, law_open_is_decode_run, law_read_stream, open_run, read_run, remaining,
};
use crate::run::{decode_run, drain, ArrayInput, Codec};
use crate::work::{ReplyView, WorkView};

verus! {

// ---------------------------------------------------------------
// Bytes
// ---------------------------------------------------------------
/// Four bytes hold a number with the least significant byte first, and the continuation marker is
/// four bytes of ones.
pub proof fn law_little_endian(bytes: Seq<u8>)
    requires
        bytes.len() == 4,
    ensures
        le_u32(bytes) == bytes[0] + 256 * bytes[1] + 65536 * bytes[2] + 16777216 * bytes[3],
        bytes == CONTINUATION_MARKER@ <==> forall|i: int|
            0 <= i < 4 ==> #[trigger] bytes[i] == 255u8,
{
    if forall|i: int| 0 <= i < 4 ==> #[trigger] bytes[i] == 255u8 {
        assert(bytes =~= CONTINUATION_MARKER@);
    }
}

/// The bytes of a message are the continuation marker where there is one, the length of the
/// metadata in four bytes, the metadata, and the body, with nothing in between.
pub proof fn law_frame_bytes(frame: Frame)
    requires
        frame.metadata.len() <= u32::MAX,
    ensures
        ({
            let bytes = frame.bytes();
            let start: int = if frame.marker {
                8
            } else {
                4
            };
            let end = start + frame.metadata.len();
            &&& bytes.len() == end + frame.body.len()
            &&& frame.marker ==> forall|i: int| 0 <= i < 4 ==> #[trigger] bytes[i] == 255u8
            &&& bytes[start - 4] + 256 * bytes[start - 3] + 65536 * bytes[start - 2] + 16777216
                * bytes[start - 1] == frame.metadata.len()
            &&& bytes.subrange(start, end) == frame.metadata
            &&& bytes.skip(end) == frame.body
        }),
{
    let size = frame.metadata.len() as u32;
    law_le_round_trip(size);
    let bytes = frame.bytes();
    let start: int = if frame.marker {
        8
    } else {
        4
    };
    let four = bytes.subrange(start - 4, start);
    assert(four =~= le_bytes(size));
    law_little_endian(four);
    assert(bytes.subrange(start, start + frame.metadata.len()) =~= frame.metadata);
    assert(bytes.skip(start + frame.metadata.len()) =~= frame.body);
}

/// A message is valid if the length of its metadata can be written and is not taken for the
/// continuation marker, and its metadata gives the length of its body.
pub proof fn law_frame_valid<A, B>(c: Codec<A, B>, frame: Frame, info: MessageInfo)
    requires
        0 < frame.metadata.len() < u32::MAX || (frame.marker && frame.metadata.len() == u32::MAX),
        (c.message)(frame.metadata) == Ok::<MessageInfo, ArrowError>(info),
        info.body_length == frame.body.len(),
        frame.body.len() <= usize::MAX,
    ensures
        frame.valid(c),
        frame.message(c) == (MessageView { bytes: frame.metadata, info }),
{
    law_body_length(info);
}

/// A body is as long as its message says.
pub proof fn law_body_length(info: MessageInfo)
    ensures
        info.body_len() == info.body_length as usize,
        0 <= info.body_length <= usize::MAX ==> info.body_len() == info.body_length,
{
}

/// The bytes of a stream are those of its messages, one after the other, and the end-of-stream
/// marker is a length of zero.
pub proof fn law_stream_bytes(frames: Seq<Frame>, frame: Frame, marker: bool)
    ensures
        stream_bytes(Seq::empty()) == Seq::<u8>::empty(),
        stream_bytes(frames.push(frame)) == stream_bytes(frames) + frame.bytes(),
        eos_bytes(marker) == if marker {
            seq![255u8, 255u8, 255u8, 255u8, 0u8, 0u8, 0u8, 0u8]
        } else {
            seq![0u8, 0u8, 0u8, 0u8]
        },
    decreases frames.len(),
{
    law_le_round_trip(0);
    assert(eos_bytes(marker) =~= if marker {
        seq![255u8, 255u8, 255u8, 255u8, 0u8, 0u8, 0u8, 0u8]
    } else {
        seq![0u8, 0u8, 0u8, 0u8]
    });
    let all = frames.push(frame);
    if frames.len() == 0 {
        assert(all.drop_first() =~= Seq::empty());
        assert(stream_bytes(all.drop_first()) =~= Seq::empty());
        assert(stream_bytes(all) =~= stream_bytes(frames) + frame.bytes());
    } else {
        assert(all.drop_first() =~= frames.drop_first().push(frame));
        law_stream_bytes(frames.drop_first(), frame, marker);
        assert(stream_bytes(all) =~= stream_bytes(frames) + frame.bytes());
    }
}

// ---------------------------------------------------------------
// One message
// ---------------------------------------------------------------
/// A schema message gives the decoder its schema, and decoding goes on behind its body.
pub proof fn law_schema_frame<A, B>(
    c: Codec<A, B>,
    v: DecoderView<A>,
    frame: Frame,
    rest: Seq<u8>,
)
    requires
        v.state == (StateView::Header { read: Seq::empty(), continuation: false }),
        frame.valid(c),
        frame.message(c).info.header_type == MessageHeader::Schema,
        v.schema is None,
    ensures
        decode_run(c, v, frame.bytes() + rest) == decode_run(
            c,
            DecoderView { schema: Some(Arc::new((c.schema)(frame.message(c)))), ..v },
            rest,
        ),
{
    law_frame(c, v, frame, rest);
}

/// A record batch message behind the schema gives exactly the record batch that is built out of
/// its metadata and its body as they stand in the stream, with the schema, the dictionaries and
/// the options of the decoder. The decoder is as before the message, and has read up to the end
/// of its body. It fails only where building the batch does.
pub proof fn law_batch_frame<A, B>(
    c: Codec<A, B>,
    v: DecoderView<A>,
    frame: Frame,
    schema: SchemaRef,
    rest: Seq<u8>,
)
    requires
        v.state == (StateView::Header { read: Seq::empty(), continuation: false }),
        frame.valid(c),
        frame.message(c).info.header_type == MessageHeader::RecordBatch,
        v.schema == Some(schema),
    ensures
        ({
            let message = frame.message(c);
            let array = ArrayInput {
                message,
                body: frame.body,
                schema,
                dictionaries: v.dictionaries,
                options: v.options,
            };
            decode_run(c, v, frame.bytes() + rest) == match (c.record_batch)(array) {
                Ok(batch) => (v, rest, Ok(Some(batch))),
                Err(error) => (
                    DecoderView {
                        state: StateView::Body { message, read: Seq::empty(), refused: true },
                        ..v
                    },
                    rest,
                    Err(StreamError::Arrow(error)),
                ),
            }
        }),
{
    law_frame(c, v, frame, rest);
}

/// A dictionary batch message behind the schema leaves the decoder with exactly the dictionaries
/// that its metadata and its body, as they stand in the stream, make of those before. Decoding
/// goes on behind its body. It fails only where bringing the dictionaries up to date does.
pub proof fn law_dictionary_frame<A, B>(
    c: Codec<A, B>,
    v: DecoderView<A>,
    frame: Frame,
    schema: SchemaRef,
    rest: Seq<u8>,
)
    requires
        v.state == (StateView::Header { read: Seq::empty(), continuation: false }),
        frame.valid(c),
        frame.message(c).info.header_type == MessageHeader::DictionaryBatch,
        v.schema == Some(schema),
    ensures
        ({
            let message = frame.message(c);
            let (dictionaries, result) = (c.dictionary_batch)(
                ArrayInput {
                    message,
                    body: frame.body,
                    schema,
                    dictionaries: v.dictionaries,
                    options: v.options,
                },
            );
            decode_run(c, v, frame.bytes() + rest) == match result {
                Ok(_) => decode_run(c, DecoderView { dictionaries, ..v }, rest),
                Err(error) => (
                    DecoderView {
                        state: StateView::Body { message, read: Seq::empty(), refused: true },
                        dictionaries,
                        ..v
                    },
                    rest,
                    Err(StreamError::Arrow(error)),
                ),
            }
        }),
{
    law_frame(c, v, frame, rest);
}

/// A message that carries nothing is passed over with its body.
pub proof fn law_none_frame<A, B>(c: Codec<A, B>, v: DecoderView<A>, frame: Frame, rest: Seq<u8>)
    requires
        v.state == (StateView::Header { read: Seq::empty(), continuation: false }),
        frame.valid(c),
        frame.message(c).info.header_type == MessageHeader::NONE,
    ensures
        decode_run(c, v, frame.bytes() + rest) == decode_run(c, v, rest),
{
    law_frame(c, v, frame, rest);
}

/// The decoder itself refuses a message in three cases only: a schema behind the first one, a
/// record batch or a dictionary batch before the schema, and a message of another kind. Its body
/// is used up, everything else stays as it is, and the decoder is still in that message, so that
/// the stream cannot end there.
pub proof fn law_refused_frame<A, B>(
    c: Codec<A, B>,
    v: DecoderView<A>,
    frame: Frame,
    rest: Seq<u8>,
)
    requires
        v.state == (StateView::Header { read: Seq::empty(), continuation: false }),
        frame.valid(c),
    ensures
        ({
            let message = frame.message(c);
            let kind = message.info.header_type;
            let run = decode_run(c, v, frame.bytes() + rest);
            let refused = DecoderView {
                state: StateView::Body { message, read: Seq::empty(), refused: true },
                ..v
            };
            let arrays = kind == MessageHeader::RecordBatch || kind
                == MessageHeader::DictionaryBatch;
            &&& !refused.state.at_boundary()
            &&& kind == MessageHeader::Schema && v.schema is Some ==> run == (
                refused,
                rest,
                Err::<Option<B>, StreamError>(StreamError::Ipc(IpcError::UnexpectedSchema)),
            )
            &&& arrays && v.schema is None ==> run == (
                refused,
                rest,
                Err::<Option<B>, StreamError>(StreamError::Ipc(IpcError::MissingSchema)),
            )
            &&& !arrays && kind != MessageHeader::Schema && kind != MessageHeader::NONE ==> run
                == (
                refused,
                rest,
                Err::<Option<B>, StreamError>(
                    StreamError::Ipc(IpcError::UnsupportedMessage(kind)),
                ),
            )
        }),
{
    law_frame(c, v, frame, rest);
}

/// Metadata that cannot be read fails with the failure of reading it, and the decoder still waits
/// for that metadata. It stays in the input where more comes behind it.
pub proof fn law_unreadable_metadata<A, B>(
    c: Codec<A, B>,
    v: DecoderView<A>,
    metadata: Seq<u8>,
    rest: Seq<u8>,
    error: ArrowError,
)
    requires
        0 < metadata.len() <= u32::MAX,
        v.state == (StateView::Message { size: metadata.len() as u32, read: Seq::empty() }),
        (c.message)(metadata) == Err::<MessageInfo, ArrowError>(error),
    ensures
        decode_run(c, v, metadata + rest) == (
            v,
            if rest.len() > 0 {
                metadata + rest
            } else {
                Seq::empty()
            },
            Err::<Option<B>, StreamError>(StreamError::Arrow(error)),
        ),
        !v.state.at_boundary(),
{
    let input = metadata + rest;
    assert(input.take(metadata.len() as int) =~= metadata);
    assert(gather(Seq::empty(), metadata.len(), input).0 =~= metadata);
    if rest.len() == 0 {
        assert(gather(Seq::empty(), metadata.len(), input).1 =~= Seq::empty());
    }
}

/// The end-of-stream marker finishes the decoder and changes nothing else. The stream can end
/// there.
pub proof fn law_eos<A, B>(c: Codec<A, B>, v: DecoderView<A>, marker: bool, rest: Seq<u8>)
    requires
        v.state == (StateView::Header { read: Seq::empty(), continuation: false }),
    ensures
        decode_run(c, v, eos_bytes(marker) + rest) == (
            DecoderView { state: StateView::Finished, ..v },
            rest,
            if rest.len() == 0 {
                Ok::<Option<B>, StreamError>(None)
            } else {
                Err(StreamError::Ipc(IpcError::UnexpectedEos))
            },
        ),
        decode_run(c, v, eos_bytes(marker) + rest).0.state.at_boundary(),
{
    lemma_drain_header(c, v, marker, 0, rest);
}

// ---------------------------------------------------------------
// The exchange
// ---------------------------------------------------------------
/// Metadata that is there in full is asked for byte for byte: what was set aside of it, and what
/// comes next in the input.
pub proof fn law_metadata_is_asked_for<A>(
    v: DecoderView<A>,
    size: u32,
    read: Seq<u8>,
    input: Seq<u8>,
)
    requires
        v.state == (StateView::Message { size, read }),
        read.len() < size <= read.len() + input.len(),
    ensures
        ({
            let bytes = (read + input).take(size as int);
            let in_place = read.len() == 0 && input.len() > size;
            decoded(v, input) == (
                DecoderView { state: StateView::Parsing { size, bytes, in_place }, ..v },
                if in_place {
                    input
                } else {
                    input.skip(size - read.len())
                },
                Step::<A>::Work(WorkView::Message { bytes }),
            )
        }),
{
    let bytes = (read + input).take(size as int);
    if read.len() == 0 && input.len() > size {
        assert(bytes =~= input.take(size as int));
    } else {
        assert(gather(read, size as nat, input).0 =~= bytes);
        assert(gather(read, size as nat, input).1 =~= input.skip(size - read.len()));
    }
}

/// A message whose body is there in full is asked for with its metadata, and with its body byte
/// for byte: what was set aside of it, and what comes next in the input. The schema, the
/// dictionaries and the options are those of the decoder. A message that is not for the decoder is
/// refused instead. It does not matter whether the message was refused before.
pub proof fn law_content_is_asked_for<A>(
    v: DecoderView<A>,
    message: MessageView,
    read: Seq<u8>,
    refused: bool,
    input: Seq<u8>,
    n: nat,
)
    requires
        v.state == (StateView::Body { message, read, refused }),
        n == message.info.body_length as usize,
        read.len() == 0 || read.len() < n,
        n <= read.len() + input.len(),
        input.len() > 0 || (n == 0 && !refused),
    ensures
        ({
            let kind = message.info.header_type;
            let body = (read + input).take(n as int);
            let rest = input.skip(n - read.len());
            let asking = DecoderView { state: StateView::Decoding { message }, ..v };
            let refusing = DecoderView {
                state: StateView::Body { message, read: Seq::empty(), refused: true },
                ..v
            };
            let arrays = kind == MessageHeader::RecordBatch || kind
                == MessageHeader::DictionaryBatch;
            &&& kind == MessageHeader::Schema && v.schema is None ==> decoded(v, input) == (
                asking,
                rest,
                Step::<A>::Work(WorkView::Schema { message }),
            )
            &&& kind == MessageHeader::RecordBatch ==> (v.schema matches Some(schema) ==> decoded(
                v,
                input,
            ) == (
                asking,
                rest,
                Step::<A>::Work(
                    WorkView::RecordBatch { message, body, schema, options: v.options },
                ),
            ))
            &&& kind == MessageHeader::DictionaryBatch ==> (v.schema matches Some(schema)
                ==> decoded(v, input) == (
                DecoderView { dictionaries: Map::<i64, A>::empty(), ..asking },
                rest,
                Step::<A>::Work(
                    WorkView::DictionaryBatch {
                        message,
                        body,
                        schema,
                        dictionaries: v.dictionaries,
                        options: v.options,
                    },
                ),
            ))
            &&& kind == MessageHeader::NONE ==> decoded(v, input) == decoded(
                DecoderView {
                    state: StateView::Header { read: Seq::empty(), continuation: false },
                    ..v
                },
                rest,
            )
            &&& kind == MessageHeader::Schema && v.schema is Some ==> decoded(v, input) == (
                refusing,
                rest,
                Step::<A>::Failed(IpcError::UnexpectedSchema),
            )
            &&& arrays && v.schema is None ==> decoded(v, input) == (
                refusing,
                rest,
                Step::<A>::Failed(IpcError::MissingSchema),
            )
            &&& !arrays && kind != MessageHeader::Schema && kind != MessageHeader::NONE
                ==> decoded(v, input) == (
                refusing,
                rest,
                Step::<A>::Failed(IpcError::UnsupportedMessage(kind)),
            )
        }),
{
    assert(gather(read, n, input).0 =~= (read + input).take(n as int));
    assert(gather(read, n, input).1 =~= input.skip(n - read.len()));
    if v.can_step(input) {
        let (after, rest, step) = stepped(v, input);
        assert(step is Continue ==> decoded(v, input) == decoded(after, rest));
    }
}

/// What the metadata says is kept with the metadata, and the decoder goes on with the body. It
/// skips metadata that is still in the input. Where reading the metadata failed, that is given.
pub proof fn law_metadata_is_taken<A, B>(
    v: DecoderView<A>,
    size: u32,
    bytes: Seq<u8>,
    in_place: bool,
    input: Seq<u8>,
    result: Result<MessageInfo, ArrowError>,
)
    requires
        v.state == (StateView::Parsing { size, bytes, in_place }),
    ensures
        resumed::<A, B>(v, input, ReplyView::Message(result)) == match result {
            Ok(info) => (
                DecoderView {
                    state: StateView::Body {
                        message: MessageView { bytes, info },
                        read: Seq::empty(),
                        refused: false,
                    },
                    ..v
                },
                if in_place {
                    input.skip(size as int)
                } else {
                    input
                },
                Ok(None::<B>),
            ),
            Err(error) => (
                DecoderView {
                    state: StateView::Message { size, read: Seq::empty() },
                    ..v
                },
                input,
                Err(error),
            ),
        },
        in_place ==> size <= input.len() ==> v.accepts(input, ReplyView::<A, B>::Message(result)),
        !in_place ==> v.accepts(input, ReplyView::<A, B>::Message(result)),
{
}

/// The schema that comes back is the schema of the decoder, which is between messages then.
pub proof fn law_schema_is_taken<A, B>(
    v: DecoderView<A>,
    message: MessageView,
    input: Seq<u8>,
    schema: Schema,
)
    requires
        v.state == (StateView::Decoding { message }),
    ensures
        resumed::<A, B>(v, input, ReplyView::Schema(schema)) == (
            DecoderView {
                state: StateView::Header { read: Seq::empty(), continuation: false },
                schema: Some(Arc::new(schema)),
                ..v
            },
            input,
            Ok::<Option<B>, ArrowError>(None),
        ),
        message.info.header_type == MessageHeader::Schema ==> v.accepts(
            input,
            ReplyView::<A, B>::Schema(schema),
        ),
{
}

/// A record batch that comes back is given as it is, and the decoder is between messages. Where
/// building it failed, that is given, and the decoder is still in the message.
pub proof fn law_batch_is_given<A, B>(
    v: DecoderView<A>,
    message: MessageView,
    input: Seq<u8>,
    result: Result<B, ArrowError>,
)
    requires
        v.state == (StateView::Decoding { message }),
    ensures
        resumed::<A, B>(v, input, ReplyView::RecordBatch(result)) == match result {
            Ok(batch) => (
                DecoderView {
                    state: StateView::Header { read: Seq::empty(), continuation: false },
                    ..v
                },
                input,
                Ok(Some(batch)),
            ),
            Err(error) => (
                DecoderView {
                    state: StateView::Body { message, read: Seq::empty(), refused: true },
                    ..v
                },
                input,
                Err(error),
            ),
        },
        message.info.header_type == MessageHeader::RecordBatch ==> v.accepts(
            input,
            ReplyView::<A, B>::RecordBatch(result),
        ),
{
}

/// The dictionaries that come back are the dictionaries of the decoder, whether or not they could
/// be brought up to date. Where they could, the decoder is between messages. Otherwise that is
/// given, and the decoder is still in the message.
pub proof fn law_dictionaries_are_taken<A, B>(
    v: DecoderView<A>,
    message: MessageView,
    input: Seq<u8>,
    dictionaries: Map<i64, A>,
    result: Result<(), ArrowError>,
)
    requires
        v.state == (StateView::Decoding { message }),
    ensures
        resumed::<A, B>(v, input, ReplyView::DictionaryBatch(dictionaries, result))
            == match result {
            Ok(_) => (
                DecoderView {
                    state: StateView::Header { read: Seq::empty(), continuation: false },
                    dictionaries,
                    ..v
                },
                input,
                Ok(None::<B>),
            ),
            Err(error) => (
                DecoderView {
                    state: StateView::Body { message, read: Seq::empty(), refused: true },
                    dictionaries,
                    ..v
                },
                input,
                Err(error),
            ),
        },
        message.info.header_type == MessageHeader::DictionaryBatch ==> v.accepts(
            input,
            ReplyView::<A, B>::DictionaryBatch(dictionaries, result),
        ),
{
}

// ---------------------------------------------------------------
// Whole streams
// ---------------------------------------------------------------
/// Messages without a failure leave the decoder between messages, and what comes behind them is
/// decoded from there.
proof fn lemma_behind_frames<A, B>(
    c: Codec<A, B>,
    v: DecoderView<A>,
    frames: Seq<Frame>,
    rest: Seq<u8>,
)
    requires
        v.state == StateView::start(),
        forall|i: int| 0 <= i < frames.len() ==> (#[trigger] frames[i]).valid(c),
        drain(c, v, stream_bytes(frames)).error is None,
    ensures
        ({
            let before = drain(c, v, stream_bytes(frames));
            &&& before.decoder.state == StateView::start()
            &&& before.decoder.options == v.options
            &&& v.schema is Some ==> before.decoder.schema == v.schema
            &&& drain(c, v, stream_bytes(frames) + rest) == drain(c, before.decoder, rest).after(
                before.batches,
            )
        }),
{
    law_whole_frames(c, v, frames);
    law_frames(c, v, frames, rest);
    law_split(c, v, stream_bytes(frames), rest);
    law_drain_keeps(c, v, stream_bytes(frames));
}

/// Wherever a record batch message stands behind the schema, its batch comes right behind those of
/// the messages before it. It is built out of that message's own metadata and body, with the
/// schema and the dictionaries that the messages before it left.
pub proof fn law_batch_in_stream<A, B>(
    c: Codec<A, B>,
    v: DecoderView<A>,
    frames: Seq<Frame>,
    frame: Frame,
    schema: SchemaRef,
    rest: Seq<u8>,
)
    requires
        v.state == (StateView::Header { read: Seq::empty(), continuation: false }),
        forall|i: int| 0 <= i < frames.len() ==> (#[trigger] frames[i]).valid(c),
        drain(c, v, stream_bytes(frames)).error is None,
        drain(c, v, stream_bytes(frames)).decoder.schema == Some(schema),
        frame.valid(c),
        frame.message(c).info.header_type == MessageHeader::RecordBatch,
    ensures
        ({
            let before = drain(c, v, stream_bytes(frames));
            let array = ArrayInput {
                message: frame.message(c),
                body: frame.body,
                schema,
                dictionaries: before.decoder.dictionaries,
                options: v.options,
            };
            let all = drain(c, v, stream_bytes(frames) + (frame.bytes() + rest));
            match (c.record_batch)(array) {
                Ok(batch) => all == drain(c, before.decoder, rest).after(
                    before.batches.push(batch),
                ),
                Err(error) => all.batches == before.batches && all.error == Some(
                    StreamError::Arrow(error),
                ),
            }
        }),
{
    let before = drain(c, v, stream_bytes(frames));
    lemma_behind_frames(c, v, frames, frame.bytes() + rest);
    law_frame(c, before.decoder, frame, rest);
    let array = ArrayInput {
        message: frame.message(c),
        body: frame.body,
        schema,
        dictionaries: before.decoder.dictionaries,
        options: v.options,
    };
    if let Ok(batch) = (c.record_batch)(array) {
        let more = drain(c, before.decoder, rest);
        assert(more.after(seq![batch]).after(before.batches) =~= more.after(
            before.batches.push(batch),
        ));
    } else {
        assert(drain(c, v, stream_bytes(frames) + (frame.bytes() + rest)).batches
            =~= before.batches);
    }
}

/// Wherever a dictionary batch message stands behind the schema, what comes behind it is decoded
/// with exactly the dictionaries that the message makes of those before it.
pub proof fn law_dictionary_in_stream<A, B>(
    c: Codec<A, B>,
    v: DecoderView<A>,
    frames: Seq<Frame>,
    frame: Frame,
    schema: SchemaRef,
    rest: Seq<u8>,
)
    requires
        v.state == (StateView::Header { read: Seq::empty(), continuation: false }),
        forall|i: int| 0 <= i < frames.len() ==> (#[trigger] frames[i]).valid(c),
        drain(c, v, stream_bytes(frames)).error is None,
        drain(c, v, stream_bytes(frames)).decoder.schema == Some(schema),
        frame.valid(c),
        frame.message(c).info.header_type == MessageHeader::DictionaryBatch,
    ensures
        ({
            let before = drain(c, v, stream_bytes(frames));
            let (dictionaries, result) = (c.dictionary_batch)(
                ArrayInput {
                    message: frame.message(c),
                    body: frame.body,
                    schema,
                    dictionaries: before.decoder.dictionaries,
                    options: v.options,
                },
            );
            let all = drain(c, v, stream_bytes(frames) + (frame.bytes() + rest));
            match result {
                Ok(_) => all == drain(
                    c,
                    DecoderView { dictionaries, ..before.decoder },
                    rest,
                ).after(before.batches),
                Err(error) => all.batches == before.batches && all.error == Some(
                    StreamError::Arrow(error),
                ) && all.decoder.dictionaries == dictionaries,
            }
        }),
{
    let before = drain(c, v, stream_bytes(frames));
    lemma_behind_frames(c, v, frames, frame.bytes() + rest);
    law_frame(c, before.decoder, frame, rest);
    let all = drain(c, v, stream_bytes(frames) + (frame.bytes() + rest));
    if all.error is Some {
        assert(before.batches + Seq::<B>::empty() =~= before.batches);
    }
}

/// A stream that is decoded without a failure gives as many record batches as it has record batch
/// messages.
pub proof fn law_as_many_batches<A, B>(c: Codec<A, B>, v: DecoderView<A>, frames: Seq<Frame>)
    requires
        v.state == (StateView::Header { read: Seq::empty(), continuation: false }),
        forall|i: int| 0 <= i < frames.len() ==> (#[trigger] frames[i]).valid(c),
        drain(c, v, stream_bytes(frames)).error is None,
    ensures
        drain(c, v, stream_bytes(frames)).batches.len() == frames.filter(
            |f: Frame| f.message(c).info.header_type == MessageHeader::RecordBatch,
        ).len(),
    decreases frames.len(),
{
    let is_batch = |f: Frame| f.message(c).info.header_type == MessageHeader::RecordBatch;
    reveal(Seq::filter);
    if frames.len() > 0 {
        let init = frames.drop_last();
        let last = frames.last();
        assert(frames =~= init.push(last));
        law_stream_bytes(init, last, false);
        assert(frames[frames.len() - 1].valid(c));
        assert forall|i: int| 0 <= i < init.len() implies (#[trigger] init[i]).valid(c) by {
            assert(init[i] == frames[i]);
        }
        law_split(c, v, stream_bytes(init), last.bytes());
        law_as_many_batches(c, v, init);
        lemma_behind_frames(c, v, init, last.bytes());
        let before = drain(c, v, stream_bytes(init));
        law_frame(c, before.decoder, last, Seq::empty());
        assert(last.bytes() + Seq::<u8>::empty() =~= last.bytes());
    }
}

/// A stream whose first message is its schema, and whose others are record batches and
/// dictionaries that can be built, or carry nothing, is decoded without a failure as far as it
/// goes.
proof fn lemma_good_prefix<A, B>(c: Codec<A, B>, frames: Seq<Frame>, k: int)
    requires
        1 <= k <= frames.len(),
        forall|i: int| 0 <= i < frames.len() ==> (#[trigger] frames[i]).valid(c),
        frames[0].message(c).info.header_type == MessageHeader::Schema,
        forall|i: int|
            1 <= i < frames.len() ==> (#[trigger] frames[i]).message(c).info.header_type
                == MessageHeader::RecordBatch || frames[i].message(c).info.header_type
                == MessageHeader::DictionaryBatch || frames[i].message(c).info.header_type
                == MessageHeader::NONE,
        forall|i: int, array: ArrayInput<A>|
            #![trigger frames[i], (c.record_batch)(array)]
            1 <= i < frames.len() && frames[i].message(c).info.header_type
                == MessageHeader::RecordBatch && array.message == frames[i].message(c)
                && array.body == frames[i].body && array.schema == Arc::new(
                (c.schema)(frames[0].message(c)),
            ) ==> (c.record_batch)(array) is Ok,
        forall|i: int, array: ArrayInput<A>|
            #![trigger frames[i], (c.dictionary_batch)(array)]
            1 <= i < frames.len() && frames[i].message(c).info.header_type
                == MessageHeader::DictionaryBatch && array.message == frames[i].message(c)
                && array.body == frames[i].body && array.schema == Arc::new(
                (c.schema)(frames[0].message(c)),
            ) ==> (c.dictionary_batch)(array).1 is Ok,
    ensures
        ({
            let all = drain(c, DecoderView::initial(), stream_bytes(frames.take(k)));
            &&& all.error is None
            &&& all.decoder.state == StateView::start()
            &&& all.decoder.schema == Some(Arc::new((c.schema)(frames[0].message(c))))
        }),
    decreases k,
{
    let v = DecoderView::<A>::initial();
    let init = frames.take(k - 1);
    let last = frames[k - 1];
    assert(frames.take(k) =~= init.push(last));
    law_stream_bytes(init, last, false);
    assert forall|i: int| 0 <= i < init.len() implies (#[trigger] init[i]).valid(c) by {
        assert(init[i] == frames[i]);
    }
    let before = drain(c, v, stream_bytes(init));
    if k == 1 {
        assert(init =~= Seq::empty());
    } else {
        lemma_good_prefix(c, frames, k - 1);
    }
    lemma_behind_frames(c, v, init, last.bytes());
    law_frame(c, before.decoder, last, Seq::empty());
    assert(last.bytes() + Seq::<u8>::empty() =~= last.bytes());
    if k > 1 {
        let array = ArrayInput {
            message: last.message(c),
            body: last.body,
            schema: before.decoder.schema->Some_0,
            dictionaries: before.decoder.dictionaries,
            options: before.decoder.options,
        };
        assert((c.record_batch)(array) is Ok || last.message(c).info.header_type
            != MessageHeader::RecordBatch);
        assert((c.dictionary_batch)(array).1 is Ok || last.message(c).info.header_type
            != MessageHeader::DictionaryBatch);
    }
}

/// A stream whose first message is its schema, and whose others are record batches and
/// dictionaries that can be built, or carry nothing, is decoded without a failure: it gives a
/// record batch for every record batch message, has the schema of its first message, and ends
/// with its end-of-stream marker. A reader opens it with that schema, has all of its batches to
/// give, and gives the first one first.
pub proof fn law_good_stream<A, B>(c: Codec<A, B>, frames: Seq<Frame>, marker: bool)
    requires
        frames.len() > 0,
        forall|i: int| 0 <= i < frames.len() ==> (#[trigger] frames[i]).valid(c),
        frames[0].message(c).info.header_type == MessageHeader::Schema,
        forall|i: int|
            1 <= i < frames.len() ==> (#[trigger] frames[i]).message(c).info.header_type
                == MessageHeader::RecordBatch || frames[i].message(c).info.header_type
                == MessageHeader::DictionaryBatch || frames[i].message(c).info.header_type
                == MessageHeader::NONE,
        forall|i: int, array: ArrayInput<A>|
            #![trigger frames[i], (c.record_batch)(array)]
            1 <= i < frames.len() && frames[i].message(c).info.header_type
                == MessageHeader::RecordBatch && array.message == frames[i].message(c)
                && array.body == frames[i].body && array.schema == Arc::new(
                (c.schema)(frames[0].message(c)),
            ) ==> (c.record_batch)(array) is Ok,
        forall|i: int, array: ArrayInput<A>|
            #![trigger frames[i], (c.dictionary_batch)(array)]
            1 <= i < frames.len() && frames[i].message(c).info.header_type
                == MessageHeader::DictionaryBatch && array.message == frames[i].message(c)
                && array.body == frames[i].body && array.schema == Arc::new(
                (c.schema)(frames[0].message(c)),
            ) ==> (c.dictionary_batch)(array).1 is Ok,
    ensures
        ({
            let input = stream_bytes(frames) + eos_bytes(marker);
            let schema = Arc::new((c.schema)(frames[0].message(c)));
            let all = drain(c, DecoderView::initial(), input);
            &&& all.error is None
            &&& all.batches.len() == frames.filter(
                |f: Frame| f.message(c).info.header_type == MessageHeader::RecordBatch,
            ).len()
            &&& all.decoder.schema == Some(schema)
            &&& all.decoder.state is Finished
            &&& open_run(c, OpeningView::start(input)) matches Ok(reader)
            &&& reader.schema == schema
            &&& remaining(c, reader).batches == all.batches
            &&& remaining(c, reader).error is None
            &&& read_run(c, reader).1 == if all.batches.len() > 0 {
                Some(Ok::<B, StreamError>(all.batches.first()))
            } else {
                None
            }
        }),
{
    let v = DecoderView::<A>::initial();
    assert(frames.take(frames.len() as int) =~= frames);
    lemma_good_prefix(c, frames, frames.len() as int);
    law_as_many_batches(c, v, frames);
    law_whole_frames(c, v, frames);
    law_stream(c, v, frames, marker);
    law_read_stream(c, frames, marker);
}

/// A stream that starts with a schema message opens if and only if nothing fails up to its first
/// record batch, and the reader then goes on where decoding stopped.
pub proof fn law_opens_behind_schema<A, B>(c: Codec<A, B>, frame: Frame, rest: Seq<u8>)
    requires
        frame.valid(c),
        frame.message(c).info.header_type == MessageHeader::Schema,
    ensures
        ({
            let schema = Arc::new((c.schema)(frame.message(c)));
            let (decoder, input, result) = decode_run(
                c,
                DecoderView { schema: Some(schema), ..DecoderView::initial() },
                rest,
            );
            open_run(c, OpeningView::start(frame.bytes() + rest)) == match result {
                Ok(pending) => Ok(ReaderView { decoder, input, schema, pending }),
                Err(error) => Err(error),
            }
        }),
{
    let v = DecoderView::<A>::initial();
    let schema = Arc::new((c.schema)(frame.message(c)));
    law_schema_frame(c, v, frame, rest);
    law_first_metadata(c, frame, rest);
    law_open_is_decode_run(c, frame.bytes() + rest);
    law_decode_run_keeps(c, DecoderView { schema: Some(schema), ..v }, rest);
}

// ---------------------------------------------------------------
// Parts of messages, and memory
// ---------------------------------------------------------------
/// A decoder starts between messages, without a schema and without dictionaries. Array data need
/// not be aligned, and is validated.
pub proof fn law_new_decoder<A>()
    ensures
        ({
            let v = DecoderView::<A>::initial();
            &&& v.state == (StateView::Header { read: Seq::empty(), continuation: false })
            &&& v.state.at_boundary()
            &&& v.schema is None
            &&& v.dictionaries == Map::<i64, A>::empty()
            &&& !v.options.require_alignment
            &&& !v.options.skip_validation
        }),
{
}

/// Of a part of a header, of metadata or of a body, every byte is kept behind those that were
/// there before, and the stream cannot end there.
pub proof fn law_parts_are_kept<A>(v: DecoderView<A>, input: Seq<u8>)
    requires
        input.len() > 0,
    ensures
        v.state matches StateView::Header { read, continuation } ==> read.len() + input.len() < 4
            ==> decoded(v, input) == (
            DecoderView {
                state: StateView::Header { read: read + input, continuation },
                ..v
            },
            Seq::<u8>::empty(),
            Step::<A>::Continue,
        ) && !decoded(v, input).0.state.at_boundary(),
        v.state matches StateView::Message { size, read } ==> read.len() + input.len() < size
            ==> decoded(v, input) == (
            DecoderView { state: StateView::Message { size, read: read + input }, ..v },
            Seq::<u8>::empty(),
            Step::<A>::Continue,
        ) && !decoded(v, input).0.state.at_boundary(),
        v.state matches StateView::Body { message, read, refused } ==> read.len() + input.len() < (
        message.info.body_length as usize) ==> decoded(v, input) == (
            DecoderView {
                state: StateView::Body { message, read: read + input, refused },
                ..v
            },
            Seq::<u8>::empty(),
            Step::<A>::Continue,
        ) && !decoded(v, input).0.state.at_boundary(),
{
    let (after, rest, step) = stepped(v, input);
    match v.state {
        StateView::Header { read, .. } => {
            if read.len() + input.len() < 4 {
                assert(gather(read, 4, input).0 =~= read + input);
                assert(rest =~= Seq::empty());
                assert(decoded(after, rest) == (after, rest, Step::<A>::Continue));
            }
        },
        StateView::Message { size, read } => {
            if read.len() + input.len() < size {
                assert(gather(read, size as nat, input).0 =~= read + input);
                assert(rest =~= Seq::empty());
                assert(decoded(after, rest) == (after, rest, Step::<A>::Continue));
            }
        },
        StateView::Body { message, read, .. } => {
            let n = message.info.body_len();
            if read.len() + input.len() < n {
                assert(gather(read, n, input).0 =~= read + input);
                assert(rest =~= Seq::empty());
                assert(decoded(after, rest) == (after, rest, Step::<A>::Continue));
            }
        },
        _ => {},
    }
}

/// Metadata and bodies that are read in place need no memory, however long they are.
pub proof fn law_in_place_fits<A>(v: DecoderView<A>, input: Seq<u8>)
    ensures
        v.state matches StateView::Message { size, read } ==> read.len() == 0 && input.len() > size
            ==> fits_memory(v, input),
        v.state matches StateView::Body { message, read, .. } ==> read.len() == 0 && input.len()
            >= (message.info.body_length as usize) && message.info.header_type
            != MessageHeader::NONE ==> fits_memory(v, input),
{
}

/// A message and a byte behind it need no memory up to its metadata, however long it is.
pub proof fn law_frame_fits<A, B>(
    c: Codec<A, B>,
    v: DecoderView<A>,
    frame: Frame,
    rest: Seq<u8>,
)
    requires
        v.state == (StateView::Header { read: Seq::empty(), continuation: false }),
        frame.valid(c),
        (frame.body + rest).len() > 0,
    ensures
        fits_memory(v, frame.bytes() + rest),
{
    let size = frame.metadata.len() as u32;
    let input = frame.bytes() + rest;
    law_le_round_trip(size);
    lemma_fits_in_header(v, input);
    let in_message = DecoderView {
        state: StateView::Message { size, read: Seq::empty() },
        ..v
    };
    if frame.marker {
        let behind = input.skip(4);
        assert(gather(Seq::empty(), 4, input).0 =~= CONTINUATION_MARKER@);
        assert(gather(Seq::empty(), 4, input).1 =~= behind);
        let next = DecoderView {
            state: StateView::Header { read: Seq::empty(), continuation: true },
            ..v
        };
        lemma_fits_in_header(next, behind);
        assert(gather(Seq::empty(), 4, behind).0 =~= le_bytes(size));
        law_in_place_fits(in_message, gather(Seq::empty(), 4, behind).1);
    } else {
        assert(gather(Seq::empty(), 4, input).0 =~= le_bytes(size));
        law_in_place_fits(in_message, gather(Seq::empty(), 4, input).1);
    }
}

// ---------------------------------------------------------------
// Reading
// ---------------------------------------------------------------
/// A read gives the batch that came with the schema first. Then it is decoding up to the next
/// record batch, where the one before stopped. Behind the end-of-stream marker there is none.
pub proof fn law_read_is_decode_run<A, B>(c: Codec<A, B>, r: ReaderView<A, B>)
    ensures
        ({
            let (decoder, input, result) = decode_run(c, r.decoder, r.input);
            &&& r.pending matches Some(batch) ==> read_run(c, r) == (
                ReaderView { pending: None, ..r },
                Some(Ok::<B, StreamError>(batch)),
            )
            &&& r.pending is None && r.decoder.state is Finished ==> read_run(c, r) == (
                r,
                None::<Result<B, StreamError>>,
            )
            &&& r.pending is None && !(r.decoder.state is Finished) ==> read_run(c, r) == (
                ReaderView { decoder, input, ..r },
                match result {
                    Ok(Some(batch)) => Some(Ok::<B, StreamError>(batch)),
                    Ok(None) => None,
                    Err(error) => Some(Err(error)),
                },
            )
        }),
{
}

/// Asking a reader gives the batch that came with the schema first. Then it is decoding until a
/// reply is due. Behind the end-of-stream marker there is nothing to ask for.
pub proof fn law_next_is_decoded<A, B>(r: ReaderView<A, B>)
    ensures
        ({
            let (decoder, input, step) = decoded(r.decoder, r.input);
            let (after, next) = read_next(r);
            &&& r.pending matches Some(batch) ==> after == ReaderView { pending: None, ..r }
                && next == Some(Ok::<ProgressView<A, B>, IpcError>(ProgressView::Batch(batch)))
            &&& r.pending is None && r.decoder.state is Finished ==> after == r && next is None
            &&& r.pending is None && !(r.decoder.state is Finished) ==> after == (ReaderView {
                decoder,
                input,
                ..r
            }) && next == match step {
                Step::Continue => None,
                Step::Work(work) => Some(
                    Ok::<ProgressView<A, B>, IpcError>(ProgressView::Work(work)),
                ),
                Step::Failed(error) => Some(Err(error)),
            }
        }),
{
}

} // verus!
