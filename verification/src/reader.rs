//! The pull-based reader over a stream that is in memory.
use std::collections::HashMap;

use arrow_buffer::Buffer;
use arrow_schema::{ArrowError, SchemaRef};
use bytes::Bytes;
use vstd::prelude::*;

use crate::buffers::{buffer_bytes, buffer_from_bytes, shared_bytes};
use crate::decoder::StreamDecoder;
use crate::error::{IpcError, StreamError};
use crate::message::MessageHeader;
use crate::model::{
    decoded, fits_memory, law_decoded_keeps, resumed, DecoderView, StateView, Step,
};
use crate::work::{Reply, ReplyView, Work, WorkView};

verus! {

/// The contents of a reader.
#[verifier::reject_recursive_types(A)]
#[verifier::ext_equal]
pub struct ReaderView<A, B> {
    /// The decoder.
    pub decoder: DecoderView<A>,
    /// What it has not read yet.
    pub input: Seq<u8>,
    /// The schema of the stream.
    pub schema: SchemaRef,
    /// A record batch that was decoded together with the schema.
    pub pending: Option<B>,
}

impl<A, B> ReaderView<A, B> {
    /// Whether all that is set aside while decoding the next record batch can be held in memory.
    pub open spec fn fits_memory(self) -> bool {
        self.pending is Some || fits_memory(self.decoder, self.input)
    }
}

/// The contents of an opening.
#[verifier::reject_recursive_types(A)]
#[verifier::ext_equal]
pub struct OpeningView<A> {
    /// The decoder.
    pub decoder: DecoderView<A>,
    /// What it has not read yet.
    pub input: Seq<u8>,
    /// Whether a message that carries nothing came before the schema.
    pub none_first: bool,
}

impl<A> OpeningView<A> {
    /// The opening of a stream of which nothing was read.
    pub open spec fn start(input: Seq<u8>) -> OpeningView<A> {
        OpeningView { decoder: DecoderView::initial(), input, none_first: false }
    }
}

/// The contents of an [`Opened`].
#[verifier::reject_recursive_types(A)]
#[verifier::ext_equal]
pub enum OpenedView<A, B> {
    Ready(ReaderView<A, B>),
    Waiting(OpeningView<A>, WorkView<A>),
}

/// The contents of a [`Resumed`].
#[verifier::reject_recursive_types(A)]
#[verifier::ext_equal]
pub enum ResumedView<A, B> {
    Ready(ReaderView<A, B>),
    Opening(OpeningView<A>),
}

/// In a message that carries nothing, before the schema.
pub open spec fn in_none_first<A>(v: DecoderView<A>) -> bool {
    &&& v.schema is None
    &&& v.state matches StateView::Body { message, .. }
    &&& message.info.header_type == MessageHeader::NONE
}

/// What an opening comes to: the stream is decoded until its first record batch or its end, or
/// until a reply is due. A stream that ends before its schema is empty, and one in which a
/// message that carries nothing came before the schema is refused.
pub open spec fn opened<A, B>(o: OpeningView<A>) -> Result<OpenedView<A, B>, IpcError> {
    let (after, rest, step) = decoded(o.decoder, o.input);
    match step {
        Step::Continue => match after.schema {
            Some(schema) => if o.none_first {
                Err(IpcError::SchemaNotFirst)
            } else {
                Ok(
                    OpenedView::Ready(
                        ReaderView { decoder: after, input: rest, schema, pending: None },
                    ),
                )
            },
            None => Err(IpcError::EmptyStream),
        },
        Step::Work(work) => Ok(
            OpenedView::Waiting(OpeningView { decoder: after, input: rest, ..o }, work),
        ),
        Step::Failed(error) => Err(error),
    }
}

/// What an opening comes to with the reply that was due. A record batch ends the opening, and is
/// kept, unless a message that carries nothing came before the schema.
pub open spec fn reopened<A, B>(o: OpeningView<A>, reply: ReplyView<A, B>) -> Result<
    ResumedView<A, B>,
    StreamError,
> {
    let (after, rest, result) = resumed(o.decoder, o.input, reply);
    match result {
        Err(error) => Err(StreamError::Arrow(error)),
        Ok(Some(batch)) => match after.schema {
            Some(schema) => if o.none_first {
                Err(StreamError::Ipc(IpcError::SchemaNotFirst))
            } else {
                Ok(
                    ResumedView::Ready(
                        ReaderView { decoder: after, input: rest, schema, pending: Some(batch) },
                    ),
                )
            },
            None => Err(StreamError::Ipc(IpcError::SchemaExpected)),
        },
        Ok(None) => Ok(
            ResumedView::Opening(
                OpeningView {
                    decoder: after,
                    input: rest,
                    none_first: o.none_first || in_none_first(after),
                },
            ),
        ),
    }
}

/// The contents of a [`Progress`].
#[verifier::reject_recursive_types(A)]
#[verifier::ext_equal]
pub enum ProgressView<A, B> {
    Batch(B),
    Work(WorkView<A>),
}

/// What asking a reader for its next record batch comes to, and the reader afterwards. The batch
/// that was decoded together with the schema comes first. There is no further one behind the
/// end-of-stream marker or the end of the input.
pub open spec fn read_next<A, B>(r: ReaderView<A, B>) -> (
    ReaderView<A, B>,
    Option<Result<ProgressView<A, B>, IpcError>>,
) {
    if let Some(batch) = r.pending {
        (ReaderView { pending: None, ..r }, Some(Ok(ProgressView::Batch(batch))))
    } else if r.decoder.state is Finished {
        (r, None)
    } else {
        let (decoder, input, step) = decoded(r.decoder, r.input);
        (
            ReaderView { decoder, input, ..r },
            match step {
                Step::Continue => None,
                Step::Work(work) => Some(Ok(ProgressView::Work(work))),
                Step::Failed(error) => Some(Err(error)),
            },
        )
    }
}

/// A stream whose schema has not been decoded yet.
#[verifier::reject_recursive_types(A)]
#[derive(Debug)]
pub struct BufferStreamOpening<A> {
    decoder: StreamDecoder<A>,
    buffer: Buffer,
    /// Whether a message that carries nothing came before the schema. The stream does not start
    /// with its schema then.
    none_first: bool,
}

impl<A> View for BufferStreamOpening<A> {
    type V = OpeningView<A>;

    closed spec fn view(&self) -> OpeningView<A> {
        OpeningView {
            decoder: self.decoder@,
            input: buffer_bytes(self.buffer),
            none_first: self.none_first,
        }
    }
}

/// Pull-based, zero-copy stream reader over an owned in-memory [`Buffer`].
///
/// The bodies that it hands out alias the input. For an interface that takes a stream in pieces,
/// use [`StreamDecoder`] directly.
///
/// Dictionaries are of type `A`, record batches of type `B`.
#[verifier::reject_recursive_types(A)]
#[derive(Debug)]
pub struct BufferStreamReader<A, B> {
    decoder: StreamDecoder<A>,
    buffer: Buffer,
    schema: SchemaRef,
    /// Decoding the schema goes on until the first record batch or the end of the input, so that
    /// batch may be there before it is asked for.
    pending: Option<B>,
}

impl<A, B> View for BufferStreamReader<A, B> {
    type V = ReaderView<A, B>;

    closed spec fn view(&self) -> ReaderView<A, B> {
        ReaderView {
            decoder: self.decoder@,
            input: buffer_bytes(self.buffer),
            schema: self.schema,
            pending: self.pending,
        }
    }
}

/// What opening a stream has come to.
#[verifier::reject_recursive_types(A)]
#[derive(Debug)]
pub enum Opened<A, B> {
    /// The schema was decoded.
    Ready(BufferStreamReader<A, B>),
    /// A task has to be done first, for [`BufferStreamOpening::resume`] to take the reply.
    Waiting(BufferStreamOpening<A>, Work<A>),
}

impl<A, B> View for Opened<A, B> {
    type V = OpenedView<A, B>;

    open spec fn view(&self) -> OpenedView<A, B> {
        match *self {
            Opened::Ready(reader) => OpenedView::Ready(reader@),
            Opened::Waiting(opening, work) => OpenedView::Waiting(opening@, work@),
        }
    }
}

impl<A, B> Opened<A, B> {
    /// The invariant of what is inside.
    pub open spec fn inv(&self) -> bool {
        match *self {
            Opened::Ready(reader) => reader.inv() && !reader@.decoder.state.awaiting(),
            Opened::Waiting(opening, _) => opening.inv(),
        }
    }
}

/// What a reply has brought opening a stream to.
#[verifier::reject_recursive_types(A)]
#[derive(Debug)]
pub enum Resumed<A, B> {
    /// The schema and a record batch were decoded.
    Ready(BufferStreamReader<A, B>),
    /// There is more to decode, with [`BufferStreamOpening::open`].
    Opening(BufferStreamOpening<A>),
}

impl<A, B> View for Resumed<A, B> {
    type V = ResumedView<A, B>;

    open spec fn view(&self) -> ResumedView<A, B> {
        match *self {
            Resumed::Ready(reader) => ResumedView::Ready(reader@),
            Resumed::Opening(opening) => ResumedView::Opening(opening@),
        }
    }
}

impl<A, B> Resumed<A, B> {
    /// The invariant of what is inside.
    pub open spec fn inv(&self) -> bool {
        match *self {
            Resumed::Ready(reader) => reader.inv() && !reader@.decoder.state.awaiting(),
            Resumed::Opening(opening) => opening.inv() && !opening@.decoder.state.awaiting(),
        }
    }
}

/// What asking for the next record batch has come to.
#[verifier::reject_recursive_types(A)]
#[derive(Debug)]
pub enum Progress<A, B> {
    /// The record batch.
    Batch(B),
    /// A task has to be done first, for [`BufferStreamReader::resume`] to take the reply.
    Work(Work<A>),
}

impl<A, B> View for Progress<A, B> {
    type V = ProgressView<A, B>;

    open spec fn view(&self) -> ProgressView<A, B> {
        match *self {
            Progress::Batch(batch) => ProgressView::Batch(batch),
            Progress::Work(work) => ProgressView::Work(work@),
        }
    }
}

impl<A> BufferStreamOpening<A> {
    /// The invariant of an opening.
    pub closed spec fn inv(&self) -> bool {
        self.decoder.inv()
    }

    /// Decodes until a reply is due, and gives the reader once none is.
    pub fn open<B>(self) -> (result: Result<Opened<A, B>, IpcError>)
        requires
            self.inv(),
            !self@.decoder.state.awaiting(),
            fits_memory(self@.decoder, self@.input),
        ensures
            match result {
                Ok(opened) => opened.inv(),
                Err(_) => true,
            },
            opened::<A, B>(self@) == match result {
                Ok(opened) => Ok(opened@),
                Err(error) => Err(error),
            },
    {
        let BufferStreamOpening { decoder, buffer, none_first } = self;
        let mut decoder = decoder;
        let mut buffer = buffer;
        proof {
            decoder.inv_wf();
            law_decoded_keeps(decoder@, buffer_bytes(buffer));
        }
        match decoder.decode(&mut buffer) {
            Err(error) => Err(error),
            Ok(Some(work)) => Ok(
                Opened::Waiting(BufferStreamOpening { decoder, buffer, none_first }, work),
            ),
            Ok(None) => match decoder.schema() {
                Some(_) if none_first => Err(IpcError::SchemaNotFirst),
                Some(schema) => Ok(
                    Opened::Ready(BufferStreamReader { decoder, buffer, schema, pending: None }),
                ),
                None => Err(IpcError::EmptyStream),
            },
        }
    }

    /// Whether all that is set aside while decoding goes on fits in memory, as
    /// [`open`](Self::open) needs it.
    pub fn can_gather(&self) -> (fits: bool)
        requires
            self.inv(),
        ensures
            fits == fits_memory(self@.decoder, self@.input),
    {
        self.decoder.can_gather(&self.buffer)
    }

    /// Whether a task was given for which no reply was taken yet.
    pub fn is_waiting(&self) -> (waiting: bool)
        ensures
            waiting == self@.decoder.state.awaiting(),
    {
        self.decoder.is_waiting()
    }

    /// The dictionaries that were read, by ID.
    pub fn dictionaries(&self) -> (dictionaries: &HashMap<i64, A>)
        ensures
            dictionaries@ == self@.decoder.dictionaries,
    {
        self.decoder.dictionaries()
    }

    /// Takes the reply to the task that was given.
    ///
    /// Fails where the task did, and where a record batch comes in a stream that does not start
    /// with its schema.
    pub fn resume<B>(self, reply: Reply<A, B>) -> (result: Result<Resumed<A, B>, StreamError>)
        requires
            self.inv(),
            self@.decoder.accepts(self@.input, reply@),
        ensures
            match result {
                Ok(resumed) => resumed.inv(),
                Err(_) => true,
            },
            reopened(self@, reply@) == match result {
                Ok(resumed) => Ok(resumed@),
                Err(error) => Err(error),
            },
    {
        let BufferStreamOpening { decoder, buffer, none_first } = self;
        let mut decoder = decoder;
        let mut buffer = buffer;
        proof {
            decoder.inv_wf();
        }
        let carries_nothing: bool = match &reply {
            Reply::Message(Ok(info)) => matches!(info.header_type, MessageHeader::NONE),
            _ => false,
        };
        match decoder.resume(&mut buffer, reply) {
            Err(error) => Err(StreamError::Arrow(error)),
            Ok(Some(batch)) => match decoder.schema() {
                Some(_) if none_first => Err(StreamError::Ipc(IpcError::SchemaNotFirst)),
                Some(schema) => Ok(
                    Resumed::Ready(
                        BufferStreamReader { decoder, buffer, schema, pending: Some(batch) },
                    ),
                ),
                None => Err(StreamError::Ipc(IpcError::SchemaExpected)),
            },
            Ok(None) => {
                let none_first: bool = none_first || carries_nothing && decoder.schema().is_none();
                Ok(Resumed::Opening(BufferStreamOpening { decoder, buffer, none_first }))
            },
        }
    }
}

impl<A, B> BufferStreamReader<A, B> {
    /// The invariant of a reader.
    pub closed spec fn inv(&self) -> bool {
        &&& self.decoder.inv()
        &&& self.decoder@.schema == Some(self.schema)
    }

    /// Creates a new reader, eagerly draining the schema message (and any leading dictionary
    /// messages) so that [`schema`](Self::schema) is cheap and infallible afterwards.
    ///
    /// Gives the task that has to be done first, where there is one.
    ///
    /// # Errors
    ///
    /// Opening a stream fails if it does not start with a valid schema message, and where
    /// decoding it up to the first record batch fails. Where decoding fails, its failure is the
    /// one that is given.
    pub fn try_new(buffer: Buffer) -> (result: Result<Opened<A, B>, IpcError>)
        requires
            fits_memory(DecoderView::<A>::initial(), buffer_bytes(buffer)),
        ensures
            match result {
                Ok(opened) => opened.inv(),
                Err(_) => true,
            },
            opened::<A, B>(OpeningView::start(buffer_bytes(buffer))) == match result {
                Ok(opened) => Ok(opened@),
                Err(error) => Err(error),
            },
    {
        let opening = BufferStreamOpening {
            decoder: StreamDecoder::new(),
            buffer,
            none_first: false,
        };
        opening.open()
    }

    /// Creates a new reader from a [`Bytes`], without a copy.
    pub fn try_new_from_bytes(bytes: Bytes) -> (result: Result<Opened<A, B>, IpcError>)
        requires
            fits_memory(DecoderView::<A>::initial(), shared_bytes(bytes)),
        ensures
            match result {
                Ok(opened) => opened.inv(),
                Err(_) => true,
            },
            opened::<A, B>(OpeningView::start(shared_bytes(bytes))) == match result {
                Ok(opened) => Ok(opened@),
                Err(error) => Err(error),
            },
    {
        Self::try_new(buffer_from_bytes(bytes))
    }

    /// Creates a new reader from a [`Bytes`], without a copy. Gives `None` where what is to be set
    /// aside first does not fit in memory.
    pub fn checked_new_from_bytes(bytes: Bytes) -> (result: Option<
        Result<Opened<A, B>, IpcError>,
    >)
        ensures
            result is Some == fits_memory(DecoderView::<A>::initial(), shared_bytes(bytes)),
            match result {
                Some(Ok(opened)) => opened.inv(),
                _ => true,
            },
            result matches Some(result) ==> opened::<A, B>(
                OpeningView::start(shared_bytes(bytes)),
            ) == match result {
                Ok(opened) => Ok(opened@),
                Err(error) => Err(error),
            },
    {
        let buffer = buffer_from_bytes(bytes);
        let opening = BufferStreamOpening {
            decoder: StreamDecoder::<A>::new(),
            buffer,
            none_first: false,
        };
        if opening.can_gather() {
            Some(opening.open())
        } else {
            None
        }
    }

    /// The schema of the stream.
    pub fn schema(&self) -> (schema: &SchemaRef)
        ensures
            *schema == self@.schema,
    {
        &self.schema
    }

    /// The dictionaries that were read, by ID.
    pub fn dictionaries(&self) -> (dictionaries: &HashMap<i64, A>)
        ensures
            dictionaries@ == self@.decoder.dictionaries,
    {
        self.decoder.dictionaries()
    }

    /// Whether the end-of-stream marker was consumed and no further batches will be produced.
    pub fn is_finished(&self) -> (finished: bool)
        ensures
            finished == (self@.decoder.state is Finished && self@.pending is None),
    {
        self.decoder.is_finished() && self.pending.is_none()
    }

    /// Whether [`next`](Self::next) gave a task for which no reply was taken yet.
    pub fn is_waiting(&self) -> (waiting: bool)
        ensures
            waiting == self@.decoder.state.awaiting(),
    {
        self.decoder.is_waiting()
    }

    /// Whether all that is set aside while decoding the next record batch fits in memory, as
    /// [`next`](Self::next) needs it.
    pub fn can_gather(&self) -> (fits: bool)
        requires
            self.inv(),
        ensures
            fits == self@.fits_memory(),
    {
        self.pending.is_some() || self.decoder.can_gather(&self.buffer)
    }

    /// The next record batch, the task that has to be done before there is one, or `None` at the
    /// end of the stream.
    pub fn next(&mut self) -> (next: Option<Result<Progress<A, B>, IpcError>>)
        requires
            old(self).inv(),
            !old(self)@.decoder.state.awaiting(),
            old(self)@.fits_memory(),
        ensures
            final(self).inv(),
            read_next(old(self)@) == (
                final(self)@,
                match next {
                    None => None,
                    Some(Ok(progress)) => Some(Ok(progress@)),
                    Some(Err(error)) => Some(Err(error)),
                },
            ),
    {
        if let Some(batch) = self.pending.take() {
            return Some(Ok(Progress::Batch(batch)));
        }
        if self.decoder.is_finished() {
            return None;
        }
        proof {
            self.decoder.inv_wf();
            law_decoded_keeps(self.decoder@, buffer_bytes(self.buffer));
        }
        match self.decoder.decode(&mut self.buffer) {
            Ok(None) => None,
            Ok(Some(work)) => Some(Ok(Progress::Work(work))),
            Err(error) => Some(Err(error)),
        }
    }

    /// Takes the reply to the task that [`next`](Self::next) gave. Gives the record batch, where
    /// the task was to build one. Otherwise `next` goes on.
    pub fn resume(&mut self, reply: Reply<A, B>) -> (result: Result<Option<B>, ArrowError>)
        requires
            old(self).inv(),
            old(self)@.decoder.accepts(old(self)@.input, reply@),
        ensures
            final(self).inv(),
            !final(self)@.decoder.state.awaiting(),
            ({
                let (decoder, input, outcome) = resumed(
                    old(self)@.decoder,
                    old(self)@.input,
                    reply@,
                );
                &&& final(self)@ == ReaderView { decoder, input, ..old(self)@ }
                &&& result == outcome
            }),
    {
        proof {
            self.decoder.inv_wf();
        }
        self.decoder.resume(&mut self.buffer, reply)
    }
}

/// What opening a stream, a reply and asking for a record batch have come to hold what their
/// contents say.
pub proof fn law_outcome_contents<A, B>(
    opened: Opened<A, B>,
    resumed: Resumed<A, B>,
    progress: Progress<A, B>,
)
    ensures
        opened matches Opened::Ready(reader) ==> opened@ == OpenedView::<A, B>::Ready(reader@),
        opened matches Opened::Waiting(opening, work) ==> opened@ == OpenedView::<A, B>::Waiting(
            opening@,
            work@,
        ),
        resumed matches Resumed::Ready(reader) ==> resumed@ == ResumedView::<A, B>::Ready(reader@),
        resumed matches Resumed::Opening(opening) ==> resumed@ == ResumedView::<A, B>::Opening(
            opening@,
        ),
        progress matches Progress::Batch(batch) ==> progress@ == ProgressView::<A, B>::Batch(batch),
        progress matches Progress::Work(work) ==> progress@ == ProgressView::<A, B>::Work(work@),
{
}

} // verus!
