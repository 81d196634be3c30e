//! What holds of every run of a decoder.
use arrow_schema::ArrowError;
use vstd::prelude::*;

use crate::error::{IpcError, StreamError};
use crate::message::{MessageHeader, MessageView};
use crate::model::{
    decoded, gather, lemma_stepped, rank, resumed, stepped, DecoderView, StateView, Step,
};
use crate::run::{decode_run, drain, exchange, ArrayInput, Codec, Drained, Event};

verus! {

/// One step with its work keeps a decoder well-formed and waiting for nothing. It drops bytes
/// from the front of the input only. It keeps a schema that is there, and gives no record batch
/// without one. Only where it can go on is a message left to do that is complete.
pub proof fn lemma_exchange<A, B>(c: Codec<A, B>, v: DecoderView<A>, input: Seq<u8>)
    requires
        v.can_step(input),
    ensures
        ({
            let (after, rest, event) = exchange(c, v, input);
            &&& after.wf()
            &&& !after.state.awaiting()
            &&& after.options == v.options
            &&& v.schema is Some ==> after.schema == v.schema
            &&& event is Batch ==> after.schema is Some
            &&& event is Batch || event is Failed ==> !after.state.due()
            &&& rest.len() <= input.len()
            &&& rest == input.skip(input.len() - rest.len())
            &&& !(event is Failed) ==> rest.len() < input.len() || rank(after.state) < rank(
                v.state,
            )
        }),
{
    lemma_stepped(v, input);
    let (after, rest, event) = exchange(c, v, input);
    assert(rest =~= input.skip(input.len() - rest.len()));
}

/// Whether two steps come to the same, up to the input that a failure leaves.
spec fn same_outcome<A, B>(
    x: (DecoderView<A>, Seq<u8>, Event<B>),
    y: (DecoderView<A>, Seq<u8>, Event<B>),
) -> bool {
    x.0 == y.0 && x.2 == y.2 && (x.2 is Failed || x.1 == y.1)
}

/// Whether a step on `a + b` is a step on `a`, or goes on where a step on `a` used up `a`.
spec fn splits<A, B>(
    c: Codec<A, B>,
    v: DecoderView<A>,
    a: Seq<u8>,
    b: Seq<u8>,
) -> bool {
    let (after, rest, event) = exchange(c, v, a);
    ||| same_outcome((after, rest + b, event), exchange(c, v, a + b))
    ||| event is Continue && rest.len() == 0 && !after.state.due() && same_outcome(
        exchange(c, after, b),
        exchange(c, v, a + b),
    )
}

/// Gathering from `a + b` is gathering from `a` where that is enough, and otherwise gathering
/// from `b` what `a` left open.
proof fn lemma_gather_split(read: Seq<u8>, need: nat, a: Seq<u8>, b: Seq<u8>)
    requires
        read.len() <= need,
    ensures
        read.len() + a.len() >= need ==> gather(read, need, a + b) == (
            gather(read, need, a).0,
            gather(read, need, a).1 + b,
        ),
        read.len() + a.len() < need ==> gather(read, need, a).1.len() == 0 && gather(
            gather(read, need, a).0,
            need,
            b,
        ) == gather(read, need, a + b),
{
    if read.len() + a.len() >= need {
        assert((a + b).take(need - read.len()) =~= a.take(need - read.len()));
        assert((a + b).skip(need - read.len()) =~= a.skip(need - read.len()) + b);
    } else {
        let more = gather(read, need, a).0;
        assert(gather(more, need, b).0 =~= gather(read, need, a + b).0);
        assert(gather(more, need, b).1 =~= gather(read, need, a + b).1);
    }
}

/// In a header, steps split.
proof fn lemma_split_header<A, B>(c: Codec<A, B>, v: DecoderView<A>, a: Seq<u8>, b: Seq<u8>)
    requires
        v.wf(),
        v.state is Header,
        a.len() > 0,
        b.len() > 0,
    ensures
        splits(c, v, a, b),
{
    let read = v.state->Header_read;
    lemma_gather_split(read, 4, a, b);
}

/// In a body, steps split.
proof fn lemma_split_body<A, B>(c: Codec<A, B>, v: DecoderView<A>, a: Seq<u8>, b: Seq<u8>)
    requires
        v.can_step(a),
        v.state is Body,
        b.len() > 0,
    ensures
        splits(c, v, a, b),
{
    let read = v.state->Body_read;
    lemma_gather_split(read, v.state->Body_message.info.body_len(), a, b);
}

/// Reading metadata in place comes to the same as gathering it.
proof fn lemma_in_place<A, B>(c: Codec<A, B>, v: DecoderView<A>, input: Seq<u8>)
    requires
        v.wf(),
        v.state is Message,
        input.len() > 0,
    ensures
        same_outcome(exchange(c, v, input), exchange_gathered(c, v, input)),
{
    let read = v.state->Message_read;
    let size = v.state->Message_size;
    if read.len() == 0 && input.len() > size {
        assert(gather(read, size as nat, input).0 =~= input.take(size as int));
    }
}

/// A step in metadata that is always gathered.
spec fn exchange_gathered<A, B>(c: Codec<A, B>, v: DecoderView<A>, input: Seq<u8>) -> (
    DecoderView<A>,
    Seq<u8>,
    Event<B>,
) {
    let size = v.state->Message_size;
    let (got, rest) = gather(v.state->Message_read, size as nat, input);
    if got.len() < size {
        let state = StateView::Message { size, read: got };
        (DecoderView { state, ..v }, rest, Event::Continue)
    } else {
        match (c.message)(got) {
            Ok(info) => {
                let message = MessageView { bytes: got, info };
                let state = StateView::Body { message, read: Seq::empty(), refused: false };
                (DecoderView { state, ..v }, rest, Event::Continue)
            },
            Err(error) => {
                let state = StateView::Message { size, read: Seq::empty() };
                (DecoderView { state, ..v }, rest, Event::Failed(StreamError::Arrow(error)))
            },
        }
    }
}

/// In metadata, steps split.
proof fn lemma_split_message<A, B>(c: Codec<A, B>, v: DecoderView<A>, a: Seq<u8>, b: Seq<u8>)
    requires
        v.wf(),
        v.state is Message,
        a.len() > 0,
        b.len() > 0,
    ensures
        splits(c, v, a, b),
{
    let read = v.state->Message_read;
    let size = v.state->Message_size as nat;
    lemma_gather_split(read, size, a, b);
    lemma_in_place(c, v, a);
    lemma_in_place(c, v, a + b);
    let (after, rest, event) = exchange(c, v, a);
    if read.len() + a.len() < size {
        lemma_in_place(c, after, b);
    }
}

/// Steps split.
proof fn lemma_exchange_split<A, B>(c: Codec<A, B>, v: DecoderView<A>, a: Seq<u8>, b: Seq<u8>)
    requires
        v.can_step(a),
        b.len() > 0,
    ensures
        splits(c, v, a, b),
{
    match v.state {
        StateView::Header { .. } => lemma_split_header(c, v, a, b),
        StateView::Message { .. } => lemma_split_message(c, v, a, b),
        StateView::Body { .. } => lemma_split_body(c, v, a, b),
        _ => {},
    }
}

/// Decoding a stream in two pieces comes to the same as decoding it at once: the same record
/// batches in the same order, the same failure if there is one, and the same decoder.
pub proof fn law_split<A, B>(c: Codec<A, B>, v: DecoderView<A>, a: Seq<u8>, b: Seq<u8>)
    requires
        v.wf(),
        !v.state.awaiting(),
    ensures
        ({
            let first = drain(c, v, a);
            drain(c, v, a + b) == if first.error is Some {
                first
            } else {
                drain(c, first.decoder, b).after(first.batches)
            }
        }),
    decreases a.len(), rank(v.state),
{
    let first = drain(c, v, a);
    if !v.can_step(a) {
        assert(a + b =~= b);
        assert(drain(c, v, b).after(Seq::empty()) =~= drain(c, v, b));
    } else if b.len() == 0 {
        assert(a + b =~= a);
        law_drain_keeps(c, v, a);
        if first.error is None {
            assert(drain(c, first.decoder, b).after(first.batches) =~= first);
        }
    } else {
        lemma_exchange(c, v, a);
        lemma_exchange_split(c, v, a, b);
        let (after, rest, event) = exchange(c, v, a);
        if same_outcome((after, rest + b, event), exchange(c, v, a + b)) {
            match event {
                Event::Failed(_) => {},
                Event::Continue => {
                    law_split(c, after, rest, b);
                },
                Event::Batch(batch) => {
                    law_split(c, after, rest, b);
                    let tail = drain(c, after, rest);
                    if tail.error is None {
                        let more = drain(c, tail.decoder, b);
                        assert(more.after(tail.batches).after(seq![batch]) =~= more.after(
                            seq![batch] + tail.batches,
                        ));
                    }
                },
            }
        } else {
            assert(drain(c, after, rest) == Drained::<A, B> {
                decoder: after,
                batches: Seq::empty(),
                error: None,
            });
            assert(drain(c, after, b).after(Seq::empty()) =~= drain(c, after, b));
        }
    }
}

/// Decodes one piece after the other, up to the first failure.
pub open spec fn drain_pieces<A, B>(
    c: Codec<A, B>,
    v: DecoderView<A>,
    pieces: Seq<Seq<u8>>,
) -> Drained<A, B>
    decreases pieces.len(),
{
    if pieces.len() == 0 {
        Drained { decoder: v, batches: Seq::empty(), error: None }
    } else {
        let first = drain(c, v, pieces.first());
        if first.error is Some {
            first
        } else {
            drain_pieces(c, first.decoder, pieces.drop_first()).after(first.batches)
        }
    }
}

/// Decoding all of an input keeps a decoder well-formed and waiting for nothing. It keeps the
/// options, and a schema that is there. It gives no record batch without a schema. No message is
/// left to do that is complete and was not refused.
pub proof fn law_drain_keeps<A, B>(c: Codec<A, B>, v: DecoderView<A>, input: Seq<u8>)
    requires
        v.wf(),
        !v.state.awaiting(),
    ensures
        ({
            let all = drain(c, v, input);
            &&& all.decoder.wf()
            &&& !all.decoder.state.awaiting()
            &&& all.decoder.options == v.options
            &&& v.schema is Some ==> all.decoder.schema == v.schema
            &&& all.batches.len() > 0 ==> all.decoder.schema is Some
            &&& !all.decoder.state.due()
        }),
    decreases input.len(), rank(v.state),
{
    if v.can_step(input) {
        lemma_exchange(c, v, input);
        let (after, rest, event) = exchange(c, v, input);
        if !(event is Failed) {
            law_drain_keeps(c, after, rest);
        }
    }
}

/// How a stream is cut into pieces does not matter, as long as there is one or nothing is left to
/// do.
pub proof fn law_pieces<A, B>(c: Codec<A, B>, v: DecoderView<A>, pieces: Seq<Seq<u8>>)
    requires
        v.wf(),
        !v.state.awaiting(),
        pieces.len() > 0 || !v.state.due(),
    ensures
        drain_pieces(c, v, pieces) == drain(c, v, pieces.flatten()),
    decreases pieces.len(),
{
    if pieces.len() > 0 {
        let first = drain(c, v, pieces.first());
        law_split(c, v, pieces.first(), pieces.drop_first().flatten());
        law_drain_keeps(c, v, pieces.first());
        if first.error is None {
            law_pieces(c, first.decoder, pieces.drop_first());
        }
    }
}

/// Decoding up to the next record batch keeps a decoder well-formed and waiting for nothing. It
/// keeps the options, and a schema that is there. It drops bytes from the front of the input
/// only. A record batch comes with a schema, and where there is neither a batch nor a failure,
/// the input was used up. No message is left to do that is complete and was not refused.
pub proof fn law_decode_run_keeps<A, B>(c: Codec<A, B>, v: DecoderView<A>, input: Seq<u8>)
    requires
        v.wf(),
        !v.state.awaiting(),
    ensures
        ({
            let (after, rest, result) = decode_run(c, v, input);
            &&& after.wf()
            &&& !after.state.awaiting()
            &&& after.options == v.options
            &&& v.schema is Some ==> after.schema == v.schema
            &&& rest.len() <= input.len()
            &&& rest == input.skip(input.len() - rest.len())
            &&& result matches Ok(Some(_)) ==> after.schema is Some && after.state
                == StateView::start()
            &&& result matches Ok(None) ==> rest.len() == 0
            &&& !after.state.due()
        }),
    decreases input.len(), rank(v.state),
{
    if !v.can_step(input) {
        assert(input =~= input.skip(0));
    } else {
        lemma_exchange(c, v, input);
        let (after, rest, event) = exchange(c, v, input);
        if event is Continue {
            law_decode_run_keeps(c, after, rest);
            let (_, left, _) = decode_run(c, after, rest);
            assert(left =~= input.skip(input.len() - left.len()));
        }
    }
}

/// Decoding all of an input is decoding up to the next record batch, again and again.
pub proof fn law_drain_is_decode_run<A, B>(c: Codec<A, B>, v: DecoderView<A>, input: Seq<u8>)
    requires
        v.wf(),
        !v.state.awaiting(),
    ensures
        ({
            let (after, rest, result) = decode_run(c, v, input);
            drain(c, v, input) == match result {
                Ok(Some(batch)) => drain(c, after, rest).after(seq![batch]),
                Ok(None) => Drained { decoder: after, batches: Seq::empty(), error: None },
                Err(error) => Drained {
                    decoder: after,
                    batches: Seq::empty(),
                    error: Some(error),
                },
            }
        }),
    decreases input.len(), rank(v.state),
{
    if v.can_step(input) {
        lemma_exchange(c, v, input);
        let (after, rest, event) = exchange(c, v, input);
        if event is Continue {
            law_drain_is_decode_run(c, after, rest);
        }
    }
}

/// Decoding up to the next record batch is to decode until a reply is due, to do the work, to
/// hand over the reply, and to go on so.
pub proof fn law_decode_loop<A, B>(c: Codec<A, B>, v: DecoderView<A>, input: Seq<u8>)
    requires
        v.wf(),
        !v.state.awaiting(),
    ensures
        ({
            let (after, rest, step) = decoded(v, input);
            decode_run(c, v, input) == match step {
                Step::Continue => (after, rest, Ok(None)),
                Step::Failed(error) => (after, rest, Err(StreamError::Ipc(error))),
                Step::Work(work) => {
                    let (last, left, result) = resumed(
                        after,
                        rest,
                        c.reply(work, after.dictionaries),
                    );
                    match result {
                        Ok(None) => decode_run(c, last, left),
                        Ok(Some(batch)) => (last, left, Ok(Some(batch))),
                        Err(error) => (last, left, Err(StreamError::Arrow(error))),
                    }
                },
            }
        }),
    decreases input.len(), rank(v.state),
{
    if v.can_step(input) {
        lemma_stepped(v, input);
        let (after, rest, step) = stepped(v, input);
        if step is Continue {
            law_decode_loop(c, after, rest);
        }
    }
}

/// A record batch is built out of a message with the schema and the dictionaries of the decoder,
/// and with its options. Its body is the bytes right before the rest of the input, with those that
/// were set aside in front.
pub proof fn law_batch_has_the_schema<A, B>(c: Codec<A, B>, v: DecoderView<A>, input: Seq<u8>)
    requires
        v.wf(),
        !v.state.awaiting(),
    ensures
        decode_run(c, v, input).2 matches Ok(Some(batch)) ==> exists|array: ArrayInput<A>| #[trigger]
            (c.record_batch)(array) == Ok::<B, ArrowError>(batch) && Some(array.schema)
                == decode_run(c, v, input).0.schema && array.dictionaries
                == decode_run(c, v, input).0.dictionaries && array.options == v.options
                && array.message.info.header_type == MessageHeader::RecordBatch
                && array.body.len() == array.message.info.body_len() && {
                let bytes = v.state.set_aside() + input;
                let end = bytes.len() - decode_run(c, v, input).1.len();
                &&& array.body.len() <= end
                &&& array.body == bytes.subrange(end - array.body.len(), end)
            },
    decreases input.len(), rank(v.state),
{
    if v.can_step(input) {
        lemma_exchange(c, v, input);
        let (after, rest, event) = exchange(c, v, input);
        match event {
            Event::Continue => law_batch_has_the_schema(c, after, rest),
            Event::Failed(_) => {},
            Event::Batch(batch) => {
                let message = v.state->Body_message;
                let body = gather(v.state->Body_read, message.info.body_len(), input).0;
                let array = ArrayInput {
                    message,
                    body,
                    schema: v.schema->Some_0,
                    dictionaries: v.dictionaries,
                    options: v.options,
                };
                assert((c.record_batch)(array) == Ok::<B, ArrowError>(batch));
            },
        }
    }
}

/// An empty input changes nothing, whatever was decoded before.
pub proof fn law_empty_changes_nothing<A, B>(
    c: Codec<A, B>,
    v: DecoderView<A>,
    input: Seq<u8>,
)
    requires
        v.wf(),
        !v.state.awaiting(),
    ensures
        ({
            let after = decode_run(c, v, input).0;
            &&& decoded(after, Seq::empty()) == (after, Seq::<u8>::empty(), Step::<A>::Continue)
            &&& decode_run(c, after, Seq::empty()) == (
                after,
                Seq::<u8>::empty(),
                Ok::<Option<B>, StreamError>(None),
            )
        }),
{
    law_decode_run_keeps(c, v, input);
}

/// Behind the end-of-stream marker a decoder stays as it is. Every further byte is a failure.
pub proof fn law_finished_is_final<A, B>(c: Codec<A, B>, v: DecoderView<A>, input: Seq<u8>)
    requires
        v.state is Finished,
    ensures
        decoded(v, input).0 == v,
        drain(c, v, input).decoder == v,
        decode_run(c, v, input) == (
            v,
            input,
            if input.len() == 0 {
                Ok::<Option<B>, StreamError>(None)
            } else {
                Err(StreamError::Ipc(IpcError::UnexpectedEos))
            },
        ),
{
}

/// A message of a kind that needs a schema fails before the schema is there, and a schema fails
/// behind the first one. The body is used up, and the decoder is still in the same message.
pub proof fn law_schema_first_and_once<A, B>(
    c: Codec<A, B>,
    v: DecoderView<A>,
    message: MessageView,
    body: Seq<u8>,
    rest: Seq<u8>,
)
    requires
        v.state == (StateView::Body { message, read: Seq::empty(), refused: false }),
        body.len() == message.info.body_len(),
    ensures
        ({
            let refused = DecoderView {
                state: StateView::Body { message, read: Seq::empty(), refused: true },
                ..v
            };
            &&& v.schema is None && (message.info.header_type == MessageHeader::RecordBatch
                || message.info.header_type == MessageHeader::DictionaryBatch) ==> decode_run(
                c,
                v,
                body + rest,
            ) == (
                refused,
                rest,
                Err::<Option<B>, StreamError>(StreamError::Ipc(IpcError::MissingSchema)),
            )
            &&& v.schema is Some && message.info.header_type == MessageHeader::Schema
                ==> decode_run(c, v, body + rest) == (
                refused,
                rest,
                Err::<Option<B>, StreamError>(StreamError::Ipc(IpcError::UnexpectedSchema)),
            )
        }),
{
    let input = body + rest;
    assert(gather(Seq::empty(), message.info.body_len(), input).0 =~= body);
    assert(gather(Seq::empty(), message.info.body_len(), input).1 =~= rest);
}

} // verus!
