//! Whole runs of a decoder.
//!
//! A [`Codec`] stands for the code that does a decoder's work, as a function of the contents that
//! it is given. With one, a run is determined by the bytes of the stream. Where aligned data is
//! required, building arrays may rest on addresses too, and is no such function.
use arrow_schema::{ArrowError, Schema, SchemaRef};
use vstd::prelude::*;

use crate::error::StreamError;
use crate::message::{MessageInfo, MessageView};
use crate::model::{rank, resumed, stepped, DecoderView, Step};
use crate::work::{ArrayOptions, ReplyView, WorkView};

verus! {

/// What a record batch or dictionaries are built out of.
#[verifier::reject_recursive_types(A)]
pub struct ArrayInput<A> {
    pub message: MessageView,
    pub body: Seq<u8>,
    pub schema: SchemaRef,
    pub dictionaries: Map<i64, A>,
    pub options: ArrayOptions,
}

/// Code that does the work that decoders ask for.
#[verifier::reject_recursive_types(A)]
#[verifier::reject_recursive_types(B)]
pub struct Codec<A, B> {
    pub message: spec_fn(Seq<u8>) -> Result<MessageInfo, ArrowError>,
    pub schema: spec_fn(MessageView) -> Schema,
    pub record_batch: spec_fn(ArrayInput<A>) -> Result<B, ArrowError>,
    pub dictionary_batch: spec_fn(ArrayInput<A>) -> (Map<i64, A>, Result<(), ArrowError>),
}

impl<A, B> Codec<A, B> {
    /// The result of `work` for a decoder that holds the dictionaries `held`.
    pub open spec fn reply(self, work: WorkView<A>, held: Map<i64, A>) -> ReplyView<A, B> {
        match work {
            WorkView::Message { bytes } => ReplyView::Message((self.message)(bytes)),
            WorkView::Schema { message } => ReplyView::Schema((self.schema)(message)),
            WorkView::RecordBatch { message, body, schema, options } => ReplyView::RecordBatch(
                (self.record_batch)(
                    ArrayInput { message, body, schema, dictionaries: held, options },
                ),
            ),
            WorkView::DictionaryBatch { message, body, schema, dictionaries, options } => {
                let (updated, result) = (self.dictionary_batch)(
                    ArrayInput { message, body, schema, dictionaries, options },
                );
                ReplyView::DictionaryBatch(updated, result)
            },
        }
    }
}

/// What comes of one step of a decoder whose work is done at once.
#[verifier::reject_recursive_types(B)]
#[verifier::ext_equal]
pub enum Event<B> {
    /// The decoder can go on.
    Continue,
    /// A record batch.
    Batch(B),
    /// Decoding failed.
    Failed(StreamError),
}

/// What the result of a reply comes to.
pub open spec fn event_of<B>(result: Result<Option<B>, ArrowError>) -> Event<B> {
    match result {
        Ok(None) => Event::Continue,
        Ok(Some(batch)) => Event::Batch(batch),
        Err(error) => Event::Failed(StreamError::Arrow(error)),
    }
}

/// What `c` makes of a step that left a decoder at `after`, and the input at `rest`.
pub open spec fn settled<A, B>(
    c: Codec<A, B>,
    after: DecoderView<A>,
    rest: Seq<u8>,
    step: Step<A>,
) -> (DecoderView<A>, Seq<u8>, Event<B>) {
    match step {
        Step::Continue => (after, rest, Event::Continue),
        Step::Failed(error) => (after, rest, Event::Failed(StreamError::Ipc(error))),
        Step::Work(work) => {
            let (last, left, result) = resumed(after, rest, c.reply(work, after.dictionaries));
            (last, left, event_of(result))
        },
    }
}

/// One step of a decoder, with the work that it asks for.
pub open spec fn exchange<A, B>(c: Codec<A, B>, v: DecoderView<A>, input: Seq<u8>) -> (
    DecoderView<A>,
    Seq<u8>,
    Event<B>,
) {
    let (after, rest, step) = stepped(v, input);
    settled(c, after, rest, step)
}

/// Decodes up to the next record batch: the decoder afterwards, the rest of the input, and the
/// batch, `None` where the input was used up, or the failure.
pub open spec fn decode_run<A, B>(c: Codec<A, B>, v: DecoderView<A>, input: Seq<u8>) -> (
    DecoderView<A>,
    Seq<u8>,
    Result<Option<B>, StreamError>,
)
    decreases input.len(), rank(v.state),
{
    if !v.can_step(input) {
        (v, input, Ok(None))
    } else {
        let (after, rest, event) = exchange(c, v, input);
        match event {
            Event::Continue => decode_run(c, after, rest),
            Event::Batch(batch) => (after, rest, Ok(Some(batch))),
            Event::Failed(error) => (after, rest, Err(error)),
        }
    }
}

/// What comes of decoding all of an input.
#[verifier::reject_recursive_types(A)]
#[verifier::reject_recursive_types(B)]
#[verifier::ext_equal]
pub struct Drained<A, B> {
    /// The decoder afterwards.
    pub decoder: DecoderView<A>,
    /// The record batches, in order.
    pub batches: Seq<B>,
    /// The failure that ended decoding, if any.
    pub error: Option<StreamError>,
}

impl<A, B> Drained<A, B> {
    /// The same with `batches` before.
    pub open spec fn after(self, batches: Seq<B>) -> Drained<A, B> {
        Drained { batches: batches + self.batches, ..self }
    }
}

/// Decodes all of `input`, or up to the first failure.
pub open spec fn drain<A, B>(c: Codec<A, B>, v: DecoderView<A>, input: Seq<u8>) -> Drained<A, B>
    decreases input.len(), rank(v.state),
{
    if !v.can_step(input) {
        Drained { decoder: v, batches: Seq::empty(), error: None }
    } else {
        let (after, rest, event) = exchange(c, v, input);
        match event {
            Event::Continue => drain(c, after, rest),
            Event::Batch(batch) => drain(c, after, rest).after(seq![batch]),
            Event::Failed(error) => Drained {
                decoder: after,
                batches: Seq::empty(),
                error: Some(error),
            },
        }
    }
}

} // verus!
