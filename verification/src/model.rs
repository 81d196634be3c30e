//! What a decoder does, over sequences of bytes.
//!
//! A message in a stream is a header, its metadata and its body. The header is the length of the
//! metadata, in four little-endian bytes, which the continuation marker may precede. A length of
//! zero marks the end of the stream.
use std::sync::Arc;

use arrow_schema::{ArrowError, SchemaRef};
use vstd::prelude::*;

use crate::buffers::max_scratch_len;
use crate::error::IpcError;
use crate::message::{MessageHeader, MessageView};
use crate::work::{ArrayOptions, ReplyView, WorkView};

verus! {

/// The bytes that may precede the length of a message's metadata.
pub const CONTINUATION_MARKER: [u8; 4] = [0xff, 0xff, 0xff, 0xff];

/// The number that four bytes hold, the least significant byte first.
pub open spec fn le_u32(bytes: Seq<u8>) -> u32 {
    (bytes[0] + 0x100 * bytes[1] + 0x1_0000 * bytes[2] + 0x100_0000 * bytes[3]) as u32
}

/// Where a decoder is in its stream.
#[verifier::ext_equal]
pub enum StateView {
    /// In a header. `read` is what there is of its next four bytes, and `continuation` says
    /// whether the marker went before.
    Header { read: Seq<u8>, continuation: bool },
    /// In metadata of length `size`. `read` is what was set aside of it.
    Message { size: u32, read: Seq<u8> },
    /// Waiting for what `bytes`, the metadata, say. They are still at the front of the input
    /// where `in_place` is set.
    Parsing { size: u32, bytes: Seq<u8>, in_place: bool },
    /// In the body of `message`. `read` is what was set aside of it, and `refused` says whether
    /// the message failed before.
    Body { message: MessageView, read: Seq<u8>, refused: bool },
    /// Waiting for what `message` and its body hold.
    Decoding { message: MessageView },
    /// Behind the end-of-stream marker.
    Finished,
}

impl StateView {
    /// The start of a header.
    pub open spec fn start() -> StateView {
        StateView::Header { read: Seq::empty(), continuation: false }
    }

    /// Between messages, or behind the last one.
    pub open spec fn at_boundary(self) -> bool {
        match self {
            StateView::Header { read, continuation } => read.len() == 0 && !continuation,
            StateView::Finished => true,
            _ => false,
        }
    }

    /// Waiting for a reply.
    pub open spec fn awaiting(self) -> bool {
        self is Parsing || self is Decoding
    }

    /// In a message that is complete without any further byte, and was not refused before.
    pub open spec fn due(self) -> bool {
        self matches StateView::Body { message, refused, .. } && !refused
            && message.info.body_len() == 0
    }

    /// The bytes that are set aside until the rest of the metadata or the body is there.
    pub open spec fn set_aside(self) -> Seq<u8> {
        match self {
            StateView::Message { read, .. } => read,
            StateView::Body { read, .. } => read,
            _ => Seq::empty(),
        }
    }
}

/// The contents of a decoder.
#[verifier::reject_recursive_types(A)]
#[verifier::ext_equal]
pub struct DecoderView<A> {
    /// Where the decoder is in its stream.
    pub state: StateView,
    /// The schema, once it was read.
    pub schema: Option<SchemaRef>,
    /// The dictionaries by their number.
    pub dictionaries: Map<i64, A>,
    /// How arrays are to be built.
    pub options: ArrayOptions,
}

impl<A> DecoderView<A> {
    /// A decoder at the start of its stream.
    pub open spec fn initial() -> DecoderView<A> {
        DecoderView {
            state: StateView::start(),
            schema: None,
            dictionaries: Map::empty(),
            options: ArrayOptions { require_alignment: false, skip_validation: false },
        }
    }

    /// What holds of every decoder: nothing that is complete is left set aside, and what is
    /// waited for fits the schema.
    pub open spec fn wf(self) -> bool {
        match self.state {
            StateView::Header { read, .. } => read.len() < 4,
            StateView::Message { size, read } => read.len() < size,
            StateView::Parsing { size, bytes, .. } => bytes.len() == size && size > 0,
            StateView::Body { message, read, .. } => read.len() == 0 || read.len()
                < message.info.body_len(),
            StateView::Decoding { message } => match message.info.header_type {
                MessageHeader::Schema => self.schema is None,
                MessageHeader::RecordBatch => self.schema is Some,
                MessageHeader::DictionaryBatch => self.schema is Some,
                _ => false,
            },
            StateView::Finished => true,
        }
    }

    /// Whether the decoder has something to do: it waits for nothing, and there is input or a
    /// message that is complete without any.
    pub open spec fn can_step(self, input: Seq<u8>) -> bool {
        &&& self.wf()
        &&& !self.state.awaiting()
        &&& input.len() > 0 || self.state.due()
    }

    /// Whether `reply` answers what the decoder waits for, `input` being what it reads next.
    pub open spec fn accepts<B>(self, input: Seq<u8>, reply: ReplyView<A, B>) -> bool {
        match self.state {
            StateView::Parsing { size, in_place, .. } => reply is Message && (in_place ==> size
                <= input.len()),
            StateView::Decoding { message } => match message.info.header_type {
                MessageHeader::Schema => reply is Schema,
                MessageHeader::RecordBatch => reply is RecordBatch,
                MessageHeader::DictionaryBatch => reply is DictionaryBatch,
                _ => false,
            },
            _ => false,
        }
    }
}

/// What comes of one step of a decoder, or of several.
#[verifier::reject_recursive_types(A)]
#[verifier::ext_equal]
pub enum Step<A> {
    /// The decoder can go on.
    Continue,
    /// The decoder waits for a reply.
    Work(WorkView<A>),
    /// The stream is wrong.
    Failed(IpcError),
}

/// Moves bytes from the front of `input` behind `read`, until there are `need` of them or
/// `input` is used up. Gives what is then there, and the rest of the input.
pub open spec fn gather(read: Seq<u8>, need: nat, input: Seq<u8>) -> (Seq<u8>, Seq<u8>) {
    let wanted = need - read.len();
    let taken = if wanted < input.len() { wanted } else { input.len() as int };
    (read + input.take(taken), input.skip(taken))
}

/// What the four bytes `read` of a header lead to.
pub open spec fn after_header(read: Seq<u8>, continuation: bool) -> StateView {
    if !continuation && read == CONTINUATION_MARKER@ {
        StateView::Header { read: Seq::empty(), continuation: true }
    } else if le_u32(read) == 0 {
        StateView::Finished
    } else {
        StateView::Message { size: le_u32(read), read: Seq::empty() }
    }
}

/// What a decoder does with a message whose body is there in full.
pub open spec fn deliver<A>(v: DecoderView<A>, message: MessageView, body: Seq<u8>) -> (
    DecoderView<A>,
    Step<A>,
) {
    let refused = DecoderView {
        state: StateView::Body { message, read: Seq::empty(), refused: true },
        ..v
    };
    let decoding = DecoderView { state: StateView::Decoding { message }, ..v };
    match message.info.header_type {
        MessageHeader::Schema => if v.schema is Some {
            (refused, Step::Failed(IpcError::UnexpectedSchema))
        } else {
            (decoding, Step::Work(WorkView::Schema { message }))
        },
        MessageHeader::RecordBatch => match v.schema {
            None => (refused, Step::Failed(IpcError::MissingSchema)),
            Some(schema) => (
                decoding,
                Step::Work(WorkView::RecordBatch { message, body, schema, options: v.options }),
            ),
        },
        MessageHeader::DictionaryBatch => match v.schema {
            None => (refused, Step::Failed(IpcError::MissingSchema)),
            Some(schema) => (
                DecoderView { dictionaries: Map::empty(), ..decoding },
                Step::Work(
                    WorkView::DictionaryBatch {
                        message,
                        body,
                        schema,
                        dictionaries: v.dictionaries,
                        options: v.options,
                    },
                ),
            ),
        },
        MessageHeader::NONE => (DecoderView { state: StateView::start(), ..v }, Step::Continue),
        header => (refused, Step::Failed(IpcError::UnsupportedMessage(header))),
    }
}

/// One step of a decoder that has something to do: the decoder afterwards, the rest of the input,
/// and what comes of the step.
///
/// Metadata of which nothing is set aside stays in the input while it is read, if more input
/// follows it.
pub open spec fn stepped<A>(v: DecoderView<A>, input: Seq<u8>) -> (
    DecoderView<A>,
    Seq<u8>,
    Step<A>,
) {
    match v.state {
        StateView::Header { read, continuation } => {
            let (got, rest) = gather(read, 4, input);
            let state = if got.len() < 4 {
                StateView::Header { read: got, continuation }
            } else {
                after_header(got, continuation)
            };
            (DecoderView { state, ..v }, rest, Step::Continue)
        },
        StateView::Message { size, read } => if read.len() == 0 && input.len() > size {
            let bytes = input.take(size as int);
            let state = StateView::Parsing { size, bytes, in_place: true };
            (DecoderView { state, ..v }, input, Step::Work(WorkView::Message { bytes }))
        } else {
            let (got, rest) = gather(read, size as nat, input);
            if got.len() < size {
                let state = StateView::Message { size, read: got };
                (DecoderView { state, ..v }, rest, Step::Continue)
            } else {
                let state = StateView::Parsing { size, bytes: got, in_place: false };
                (DecoderView { state, ..v }, rest, Step::Work(WorkView::Message { bytes: got }))
            }
        },
        StateView::Body { message, read, refused } => {
            let (got, rest) = gather(read, message.info.body_len(), input);
            if got.len() < message.info.body_len() {
                let state = StateView::Body { message, read: got, refused };
                (DecoderView { state, ..v }, rest, Step::Continue)
            } else {
                let (after, step) = deliver(v, message, got);
                (after, rest, step)
            }
        },
        StateView::Finished => (v, input, Step::Failed(IpcError::UnexpectedEos)),
        _ => (v, input, Step::Continue),
    }
}

/// Orders the states in which a step may use no input.
pub open spec fn rank(state: StateView) -> nat {
    if state is Body {
        1
    } else {
        0
    }
}

/// The steps of a decoder until there is nothing to do, a reply is due or the stream is wrong: the
/// decoder afterwards, the rest of the input, and what comes of the last step. Where that is
/// `Continue`, the input was used up.
pub open spec fn decoded<A>(v: DecoderView<A>, input: Seq<u8>) -> (
    DecoderView<A>,
    Seq<u8>,
    Step<A>,
)
    decreases input.len(), rank(v.state),
{
    if !v.can_step(input) {
        (v, input, Step::Continue)
    } else {
        let (after, rest, step) = stepped(v, input);
        if step is Continue {
            decoded(after, rest)
        } else {
            (after, rest, step)
        }
    }
}

/// What a decoder does with the reply that it waits for: the decoder afterwards, the rest of the
/// input, and the result.
pub open spec fn resumed<A, B>(v: DecoderView<A>, input: Seq<u8>, reply: ReplyView<A, B>) -> (
    DecoderView<A>,
    Seq<u8>,
    Result<Option<B>, ArrowError>,
) {
    let done = DecoderView { state: StateView::start(), ..v };
    match (v.state, reply) {
        (StateView::Parsing { size, bytes, in_place }, ReplyView::Message(result)) => match result {
            Ok(info) => (
                DecoderView {
                    state: StateView::Body {
                        message: MessageView { bytes, info },
                        read: Seq::empty(),
                        refused: false,
                    },
                    ..v
                },
                if in_place {
                    input.skip(size as int)
                } else {
                    input
                },
                Ok(None),
            ),
            Err(error) => (
                DecoderView { state: StateView::Message { size, read: Seq::empty() }, ..v },
                input,
                Err(error),
            ),
        },
        (StateView::Decoding { message }, ReplyView::Schema(schema)) => (
            DecoderView { schema: Some(Arc::new(schema)), ..done },
            input,
            Ok(None),
        ),
        (StateView::Decoding { message }, ReplyView::RecordBatch(result)) => match result {
            Ok(batch) => (done, input, Ok(Some(batch))),
            Err(error) => (
                DecoderView {
                    state: StateView::Body { message, read: Seq::empty(), refused: true },
                    ..v
                },
                input,
                Err(error),
            ),
        },
        (
            StateView::Decoding { message },
            ReplyView::DictionaryBatch(dictionaries, result),
        ) => match result {
            Ok(_) => (DecoderView { dictionaries, ..done }, input, Ok(None)),
            Err(error) => (
                DecoderView {
                    state: StateView::Body { message, read: Seq::empty(), refused: true },
                    dictionaries,
                    ..v
                },
                input,
                Err(error),
            ),
        },
        _ => (v, input, Ok(None)),
    }
}

/// The number of bytes that a step sets aside, or completes out of what was set aside. Metadata
/// and bodies that are read in place are not set aside.
pub open spec fn gathered(state: StateView, input: Seq<u8>) -> nat {
    match state {
        StateView::Message { size, read } => if read.len() == 0 && input.len() > size {
            0
        } else {
            gather(read, size as nat, input).0.len()
        },
        StateView::Body { message, read, .. } => {
            let need = message.info.body_len();
            if read.len() == 0 && input.len() >= need {
                0
            } else {
                gather(read, need, input).0.len()
            }
        },
        _ => 0,
    }
}

/// Whether all that is set aside while decoding `input` can be held in memory.
pub open spec fn fits_memory<A>(v: DecoderView<A>, input: Seq<u8>) -> bool
    decreases input.len(), rank(v.state),
{
    if !v.can_step(input) {
        true
    } else {
        let (after, rest, step) = stepped(v, input);
        gathered(v.state, input) <= max_scratch_len() && (step is Continue ==> fits_memory(
            after,
            rest,
        ))
    }
}

/// Whether `reply` is the result of `work`, by its kind.
pub open spec fn answers<A, B>(work: WorkView<A>, reply: ReplyView<A, B>) -> bool {
    match work {
        WorkView::Message { .. } => reply is Message,
        WorkView::Schema { .. } => reply is Schema,
        WorkView::RecordBatch { .. } => reply is RecordBatch,
        WorkView::DictionaryBatch { .. } => reply is DictionaryBatch,
    }
}

/// One step keeps a decoder well-formed, leaves the schema and the options as they are, and drops
/// bytes from the front of the input only. It uses input or leaves a body behind. The decoder
/// waits afterwards if and only if it asked for work.
pub proof fn lemma_stepped<A>(v: DecoderView<A>, input: Seq<u8>)
    requires
        v.can_step(input),
    ensures
        ({
            let (after, rest, step) = stepped(v, input);
            &&& after.wf()
            &&& after.schema == v.schema
            &&& after.options == v.options
            &&& after.state.awaiting() == (step is Work)
            &&& rest.len() <= input.len()
            &&& rest == input.skip(input.len() - rest.len())
            &&& after.state.set_aside().len() + rest.len() <= v.state.set_aside().len()
                + input.len()
            &&& step is Continue ==> rest.len() < input.len() || rank(after.state) < rank(v.state)
        }),
{
    let (after, rest, step) = stepped(v, input);
    assert(rest =~= input.skip(input.len() - rest.len()));
}

/// Decoding keeps a decoder well-formed, leaves the schema and the options as they are, and drops
/// bytes from the front of the input only. Input is left only where the decoder waits for a reply
/// or the stream is wrong, and a message that is complete is left to do only where it waits.
pub proof fn law_decoded_keeps<A>(v: DecoderView<A>, input: Seq<u8>)
    requires
        v.wf(),
        !v.state.awaiting(),
    ensures
        ({
            let (after, rest, step) = decoded(v, input);
            &&& after.wf()
            &&& after.schema == v.schema
            &&& after.options == v.options
            &&& after.state.awaiting() == (step is Work)
            &&& rest.len() <= input.len()
            &&& rest == input.skip(input.len() - rest.len())
            &&& step is Continue ==> rest.len() == 0
            &&& !(step is Work) ==> !after.state.due()
        }),
    decreases input.len(), rank(v.state),
{
    if !v.can_step(input) {
        assert(input =~= input.skip(0));
    } else {
        lemma_stepped(v, input);
        let (after, rest, step) = stepped(v, input);
        if step is Continue {
            law_decoded_keeps(after, rest);
            let (last, left, _) = decoded(after, rest);
            assert(left =~= input.skip(input.len() - left.len()));
        }
    }
}

/// An empty input changes nothing, unless a message is complete without any further byte. It can
/// always be held in memory.
pub proof fn law_empty_input<A>(v: DecoderView<A>)
    ensures
        !v.state.due() ==> decoded(v, Seq::empty()) == (
            v,
            Seq::<u8>::empty(),
            Step::<A>::Continue,
        ),
        fits_memory(v, Seq::empty()),
{
    if v.can_step(Seq::empty()) {
        let (after, rest, step) = stepped(v, Seq::empty());
        assert(step is Continue ==> fits_memory(after, rest));
    }
}

/// An input that could be set aside as a whole can be held in memory.
pub proof fn law_short_input_fits<A>(v: DecoderView<A>, input: Seq<u8>)
    requires
        v.state.set_aside().len() + input.len() <= max_scratch_len(),
    ensures
        fits_memory(v, input),
    decreases input.len(), rank(v.state),
{
    if v.can_step(input) {
        lemma_stepped(v, input);
        let (after, rest, step) = stepped(v, input);
        if step is Continue {
            law_short_input_fits(after, rest);
        }
    }
}

/// In a header nothing is set aside.
pub proof fn lemma_fits_in_header<A>(v: DecoderView<A>, input: Seq<u8>)
    requires
        v.wf(),
    ensures
        v.state matches StateView::Header { read, continuation } ==> {
            let (got, rest) = gather(read, 4, input);
            fits_memory(v, input) == (got.len() < 4 || fits_memory(
                DecoderView { state: after_header(got, continuation), ..v },
                rest,
            ))
        },
{
    let (after, rest, step) = stepped(v, input);
    if v.state is Header && rest.len() == 0 {
        assert(after.state is Header ==> fits_memory(after, rest));
    }
}

/// In a body, more is set aside only behind a message that is passed over.
pub proof fn lemma_fits_in_body<A>(v: DecoderView<A>, input: Seq<u8>)
    requires
        v.wf(),
        v.state.set_aside().len() <= max_scratch_len(),
    ensures
        v.state matches StateView::Body { message, read, .. } ==> {
            let (got, rest) = gather(read, message.info.body_len(), input);
            fits_memory(v, input) == (gathered(v.state, input) <= max_scratch_len() && (got.len()
                >= message.info.body_len() && message.info.header_type == MessageHeader::NONE
                ==> fits_memory(DecoderView { state: StateView::start(), ..v }, rest)))
        },
{
    let (after, rest, step) = stepped(v, input);
    if v.state is Body && rest.len() == 0 {
        assert(after.state is Body ==> step is Continue ==> fits_memory(after, rest));
    }
}

/// In metadata, what one step sets aside is all that is set aside.
pub proof fn lemma_fits_in_metadata<A>(v: DecoderView<A>, input: Seq<u8>)
    requires
        v.wf(),
        v.state is Message,
    ensures
        fits_memory(v, input) == (input.len() == 0 || gathered(v.state, input)
            <= max_scratch_len()),
{
    if input.len() > 0 {
        let (after, rest, step) = stepped(v, input);
        assert(step is Continue ==> fits_memory(after, rest));
    }
}

/// Taking a reply keeps a decoder well-formed and waiting for nothing. It keeps the options, and a
/// schema that is there. It drops bytes from the front of the input only. It does not finish the
/// decoder. A record batch comes with a schema, and leaves the decoder between messages.
pub proof fn law_resumed_keeps<A, B>(
    v: DecoderView<A>,
    input: Seq<u8>,
    reply: ReplyView<A, B>,
)
    requires
        v.wf(),
        v.accepts(input, reply),
    ensures
        ({
            let (after, rest, result) = resumed(v, input, reply);
            &&& after.wf()
            &&& !after.state.awaiting()
            &&& after.options == v.options
            &&& v.schema is Some ==> after.schema == v.schema
            &&& rest.len() <= input.len()
            &&& rest == input.skip(input.len() - rest.len())
            &&& !(after.state is Finished)
            &&& result matches Ok(Some(_)) ==> after.schema is Some && after.state
                == StateView::start()
        }),
{
    let (after, rest, result) = resumed(v, input, reply);
    assert(rest =~= input.skip(input.len() - rest.len()));
}

/// A step finishes a decoder if and only if the four bytes of a header are zero, and nothing undoes
/// that. The continuation marker counts as such only where none went before.
pub proof fn law_finished_step<A>(v: DecoderView<A>, input: Seq<u8>)
    requires
        v.can_step(input),
    ensures
        stepped(v, input).0.state is Finished <==> v.state is Finished || (
        v.state matches StateView::Header { read, .. } && gather(read, 4, input).0 == seq![
            0u8,
            0u8,
            0u8,
            0u8,
        ]),
        v.state matches StateView::Header { read, continuation } ==> (stepped(v, input).0.state
            == (StateView::Header { read: Seq::empty(), continuation: true }) <==> !continuation
            && gather(read, 4, input).0 == CONTINUATION_MARKER@),
{
    if let StateView::Header { read, .. } = v.state {
        let got = gather(read, 4, input).0;
        let zeros = seq![0u8, 0u8, 0u8, 0u8];
        if got.len() == 4 && le_u32(got) == 0 {
            assert(got =~= zeros);
        }
        if got == zeros {
            assert(zeros[0] != CONTINUATION_MARKER@[0]);
        }
    }
}

/// The task to build a record batch or to bring dictionaries up to date carries the schema and the
/// options of the decoder, the message that the decoder is in, and the body byte for byte: what
/// was set aside of it, and what comes next in the input.
pub proof fn law_work_is_of_the_stream<A>(v: DecoderView<A>, input: Seq<u8>, work: WorkView<A>)
    requires
        v.wf(),
        !v.state.awaiting(),
        decoded(v, input).2 == Step::Work(work),
    ensures
        match work {
            WorkView::Message { bytes } => decoded(v, input).0.state matches StateView::Parsing {
                bytes: read,
                ..
            } && read == bytes,
            WorkView::Schema { message } => {
                &&& v.schema is None
                &&& decoded(v, input).0.state == StateView::Decoding { message }
            },
            WorkView::RecordBatch { message, body, schema, options } => {
                &&& v.schema == Some(schema)
                &&& v.options == options
                &&& v.state matches StateView::Body { message: read, .. } && read == message
                &&& decoded(v, input).0.state == StateView::Decoding { message }
                &&& body.len() == message.info.body_len()
                &&& body == (v.state.set_aside() + input).take(body.len() as int)
            },
            WorkView::DictionaryBatch { message, body, schema, dictionaries, options } => {
                &&& v.schema == Some(schema)
                &&& v.options == options
                &&& v.dictionaries == dictionaries
                &&& v.state matches StateView::Body { message: read, .. } && read == message
                &&& decoded(v, input).0.state == StateView::Decoding { message }
                &&& body.len() == message.info.body_len()
                &&& body == (v.state.set_aside() + input).take(body.len() as int)
            },
        },
    decreases input.len(), rank(v.state),
{
    lemma_stepped(v, input);
    let (after, rest, step) = stepped(v, input);
    if step is Continue {
        law_work_is_of_the_stream(after, rest, work);
    } else if let StateView::Body { message, read, .. } = v.state {
        let n = message.info.body_len();
        assert(gather(read, n, input).0 =~= (read + input).take(n as int));
    }
}

/// A decoder accepts every result of the work that it asked for.
pub proof fn law_reply_accepted<A, B>(
    v: DecoderView<A>,
    input: Seq<u8>,
    work: WorkView<A>,
    reply: ReplyView<A, B>,
)
    requires
        v.wf(),
        !v.state.awaiting(),
        decoded(v, input).2 == Step::Work(work),
        answers(work, reply),
    ensures
        decoded(v, input).0.accepts(decoded(v, input).1, reply),
    decreases input.len(), rank(v.state),
{
    lemma_stepped(v, input);
    let (after, rest, step) = stepped(v, input);
    if step is Continue {
        law_reply_accepted(after, rest, work, reply);
    }
}

} // verus!
