//! The push-based decoder.
use std::collections::HashMap;
use std::sync::Arc;

use arrow_buffer::{Buffer, MutableBuffer};
use arrow_schema::{ArrowError, SchemaRef};
use vstd::prelude::*;
use vstd::slice::slice_subrange;

use crate::buffers::{
    buffer_bytes, empty_scratch, extend_scratch, freeze_scratch, max_scratch_len, scratch_bytes,
    share_buffer,
};
use crate::error::IpcError;
use crate::message::{MessageBuffer, MessageHeader, MessageInfo};
use crate::model::{
    after_header, decoded, deliver, fits_memory, gather, gathered, le_u32, lemma_fits_in_body,
    lemma_fits_in_header, lemma_fits_in_metadata, rank, resumed, stepped, DecoderView, StateView,
    Step, CONTINUATION_MARKER,
};
use crate::work::{ArrayOptions, Reply, Work};

verus! {

/// Where a decoder is in its stream.
#[derive(Debug)]
enum DecoderState {
    /// Reading a header.
    Header {
        /// The bytes of the header.
        buf: [u8; 4],
        /// How many of them were read.
        read: u8,
        /// Whether a continuation marker was read.
        continuation: bool,
    },
    /// Reading metadata.
    Message {
        /// The length of the metadata.
        size: u32,
    },
    /// Waiting for what metadata says.
    Parsing {
        /// The length of the metadata.
        size: u32,
        /// The metadata.
        bytes: Buffer,
        /// Whether the metadata is still in the input.
        in_place: bool,
    },
    /// Reading a body.
    Body {
        /// The message that the body belongs to.
        message: MessageBuffer,
        /// Whether the message failed before.
        refused: bool,
    },
    /// Waiting for what a body holds.
    Decoding {
        /// The message that the body belongs to.
        message: MessageBuffer,
    },
    /// Reached the end of the stream.
    Finished,
}

impl DecoderState {
    /// The state, `scratch` being what is set aside.
    pub closed spec fn model(self, scratch: Seq<u8>) -> StateView {
        match self {
            DecoderState::Header { buf, read, continuation } => StateView::Header {
                read: buf@.take(read as int),
                continuation,
            },
            DecoderState::Message { size } => StateView::Message { size, read: scratch },
            DecoderState::Parsing { size, bytes, in_place } => StateView::Parsing {
                size,
                bytes: buffer_bytes(bytes),
                in_place,
            },
            DecoderState::Body { message, refused } => StateView::Body {
                message: message@,
                read: scratch,
                refused,
            },
            DecoderState::Decoding { message } => StateView::Decoding { message: message@ },
            DecoderState::Finished => StateView::Finished,
        }
    }

    /// The start of a header, of which nothing was read.
    pub closed spec fn is_start(self) -> bool {
        self matches DecoderState::Header { buf, read, continuation } && buf@ == seq![
            0u8,
            0u8,
            0u8,
            0u8,
        ] && read == 0 && !continuation
    }

    /// A complete header is not kept.
    pub closed spec fn valid(self) -> bool {
        self matches DecoderState::Header { read, .. } ==> read < 4
    }
}

impl Default for DecoderState {
    fn default() -> (state: Self)
        ensures
            state.is_start(),
            state.model(Seq::empty()) == StateView::start(),
            state.valid(),
    {
        let buf: [u8; 4] = [0, 0, 0, 0];
        assert(buf@ =~= seq![0u8, 0u8, 0u8, 0u8]);
        let state = DecoderState::Header { buf, read: 0, continuation: false };
        assert(state.model(Seq::empty()) =~= StateView::start());
        state
    }
}

/// What `result` says of the steps that it is the result of.
pub open spec fn step_of<A>(result: Result<Option<Work<A>>, IpcError>) -> Step<A> {
    match result {
        Ok(None) => Step::Continue,
        Ok(Some(work)) => Step::Work(work@),
        Err(error) => Step::Failed(error),
    }
}

/// The number that four bytes hold, the least significant byte first.
fn u32_from_le(bytes: &[u8; 4]) -> (n: u32)
    ensures
        n == le_u32(bytes@),
{
    bytes[0] as u32 + 0x100 * (bytes[1] as u32) + 0x1_0000 * (bytes[2] as u32) + 0x100_0000 * (
    bytes[3] as u32)
}

/// Moves bytes from `buffer` behind the first `read` bytes of a header, until there are four of
/// them or `buffer` is used up. Gives the header, and how many of its bytes are then there.
fn fill_header(buffer: &mut Buffer, buf: [u8; 4], read: u8) -> (filled: ([u8; 4], u8))
    requires
        read < 4,
    ensures
        filled.1 <= 4,
        filled.1 == 4 ==> filled.0@.take(4) == filled.0@,
        (filled.0@.take(filled.1 as int), buffer_bytes(*final(buffer))) == gather(
            buf@.take(read as int),
            4,
            buffer_bytes(*old(buffer)),
        ),
{
    let ghost input = buffer_bytes(*buffer);
    let ghost before = buf@;
    let mut buf: [u8; 4] = buf;
    let wanted: usize = 4 - read as usize;
    let to_read: usize = if buffer.len() < wanted {
        buffer.len()
    } else {
        wanted
    };
    let bytes = buffer.as_slice();
    let mut i: usize = 0;
    while i < to_read
        invariant
            i <= to_read <= bytes@.len(),
            read + to_read <= 4,
            forall|j: int| 0 <= j < read ==> buf@[j] == before[j],
            forall|j: int| 0 <= j < i ==> buf@[read + j] == bytes@[j],
        decreases to_read - i,
    {
        buf[read as usize + i] = bytes[i];
        i += 1;
    }
    let read_now: u8 = read + to_read as u8;
    buffer.advance(to_read);
    proof {
        let (got, rest) = gather(before.take(read as int), 4, input);
        assert(got =~= buf@.take(read_now as int));
        assert(buf@.take(4) =~= buf@);
    }
    (buf, read_now)
}

/// Whether the scratch buffer can hold what there is of `need` bytes, `held` of them being there
/// and `available` more at hand.
fn can_hold(held: usize, need: usize, available: usize) -> (fits: bool)
    requires
        held <= need,
    ensures
        fits == (held + available <= max_scratch_len() || need <= max_scratch_len()),
{
    let limit: usize = (isize::MAX as usize - 256) / 2;
    need <= limit || (held <= limit && available <= limit - held)
}

/// Whether four bytes are the continuation marker.
fn is_marker(bytes: &[u8; 4]) -> (marker: bool)
    ensures
        marker == (bytes@ == CONTINUATION_MARKER@),
{
    let marker = bytes[0] == 0xff && bytes[1] == 0xff && bytes[2] == 0xff && bytes[3] == 0xff;
    assert(marker ==> bytes@ =~= CONTINUATION_MARKER@);
    marker
}

/// A low-level interface for reading record batches from a stream of bytes.
///
/// Dictionaries are of type `A`. The decoder holds them and hands them on, and does not look
/// into them.
#[verifier::reject_recursive_types(A)]
#[derive(Debug)]
pub struct StreamDecoder<A> {
    /// The schema of this decoder, if read.
    schema: Option<SchemaRef>,
    /// Lookup table for dictionaries by ID.
    dictionaries: HashMap<i64, A>,
    /// The decoder state.
    state: DecoderState,
    /// Holds what was read of metadata or of a body that is split across buffers.
    buf: MutableBuffer,
    /// Whether array data is required to be aligned.
    require_alignment: bool,
    /// Whether the validation of array data is skipped.
    skip_validation: bool,
}

impl<A> View for StreamDecoder<A> {
    type V = DecoderView<A>;

    closed spec fn view(&self) -> DecoderView<A> {
        DecoderView {
            state: self.state.model(scratch_bytes(self.buf)),
            schema: self.schema,
            dictionaries: self.dictionaries@,
            options: ArrayOptions {
                require_alignment: self.require_alignment,
                skip_validation: self.skip_validation,
            },
        }
    }
}

impl<A> Default for StreamDecoder<A> {
    fn default() -> (decoder: Self)
        ensures
            decoder.inv(),
            decoder@ == DecoderView::<A>::initial(),
    {
        let decoder = StreamDecoder {
            schema: None,
            dictionaries: HashMap::new(),
            state: DecoderState::default(),
            buf: empty_scratch(),
            require_alignment: false,
            skip_validation: false,
        };
        assert(decoder@ =~= DecoderView::<A>::initial());
        decoder
    }
}

impl<A> StreamDecoder<A> {
    /// The invariant of a decoder.
    pub closed spec fn inv(&self) -> bool {
        &&& self@.wf()
        &&& scratch_bytes(self.buf) == self@.state.set_aside()
        &&& self@.state.set_aside().len() <= max_scratch_len()
        &&& self.state.valid()
    }

    /// Every decoder is well-formed, and can hold what it has set aside.
    pub proof fn inv_wf(&self)
        requires
            self.inv(),
        ensures
            self@.wf(),
            self@.state.set_aside().len() <= max_scratch_len(),
    {
    }

    /// Creates a new decoder.
    pub fn new() -> (decoder: Self)
        ensures
            decoder.inv(),
            decoder@ == DecoderView::<A>::initial(),
    {
        Self::default()
    }
}

impl<A> StreamDecoder<A> {
    /// Takes the scratch buffer, and leaves an empty one.
    fn take_scratch(&mut self) -> (scratch: MutableBuffer)
        ensures
            scratch == old(self).buf,
            scratch_bytes(final(self).buf) == Seq::<u8>::empty(),
            final(self).schema == old(self).schema,
            final(self).dictionaries == old(self).dictionaries,
            final(self).state == old(self).state,
            final(self).require_alignment == old(self).require_alignment,
            final(self).skip_validation == old(self).skip_validation,
    {
        let mut scratch = empty_scratch();
        std::mem::swap(&mut scratch, &mut self.buf);
        scratch
    }

    /// Reads bytes of a header.
    fn read_header(&mut self, buffer: &mut Buffer, buf: [u8; 4], read: u8, continuation: bool)
        requires
            old(self).inv(),
            old(self).state == (DecoderState::Header { buf, read, continuation }),
            buffer_bytes(*old(buffer)).len() > 0,
        ensures
            final(self).inv(),
            (final(self)@, buffer_bytes(*final(buffer)), Step::<A>::Continue) == stepped(
                old(self)@,
                buffer_bytes(*old(buffer)),
            ),
    {
        let ghost input = buffer_bytes(*buffer);
        let ghost v = self@;
        let (buf, read_now): ([u8; 4], u8) = fill_header(buffer, buf, read);
        if read_now < 4 {
            self.state = DecoderState::Header { buf, read: read_now, continuation };
        } else if !continuation && is_marker(&buf) {
            self.state = DecoderState::Header { buf, read: 0, continuation: true };
            assert(buf@.take(0) =~= Seq::empty());
        } else {
            let size: u32 = u32_from_le(&buf);
            if size == 0 {
                self.state = DecoderState::Finished;
            } else {
                self.state = DecoderState::Message { size };
            }
        }
        assert(self@ =~= stepped(v, input).0);
    }

    /// Moves bytes from `buffer` to the scratch buffer, until that holds `need` of them or
    /// `buffer` is used up.
    fn fill_scratch(&mut self, buffer: &mut Buffer, need: usize)
        requires
            scratch_bytes(old(self).buf).len() <= need,
            gather(
                scratch_bytes(old(self).buf),
                need as nat,
                buffer_bytes(*old(buffer)),
            ).0.len() <= max_scratch_len(),
        ensures
            (scratch_bytes(final(self).buf), buffer_bytes(*final(buffer))) == gather(
                scratch_bytes(old(self).buf),
                need as nat,
                buffer_bytes(*old(buffer)),
            ),
            final(self).schema == old(self).schema,
            final(self).dictionaries == old(self).dictionaries,
            final(self).state == old(self).state,
            final(self).require_alignment == old(self).require_alignment,
            final(self).skip_validation == old(self).skip_validation,
    {
        let wanted: usize = need - self.buf.len();
        let to_read: usize = if buffer.len() < wanted {
            buffer.len()
        } else {
            wanted
        };
        extend_scratch(&mut self.buf, slice_subrange(buffer.as_slice(), 0, to_read));
        buffer.advance(to_read);
    }

    /// Reads bytes of metadata.
    fn read_message(&mut self, buffer: &mut Buffer, size: u32) -> (work: Option<Work<A>>)
        requires
            old(self).inv(),
            old(self).state == (DecoderState::Message { size }),
            buffer_bytes(*old(buffer)).len() > 0,
            gathered(old(self)@.state, buffer_bytes(*old(buffer))) <= max_scratch_len(),
        ensures
            final(self).inv(),
            (final(self)@, buffer_bytes(*final(buffer)), step_of(Ok(work))) == stepped(
                old(self)@,
                buffer_bytes(*old(buffer)),
            ),
    {
        let ghost input = buffer_bytes(*buffer);
        let ghost v = self@;
        let len: usize = size as usize;
        if self.buf.is_empty() && buffer.len() > len {
            let bytes = buffer.slice_with_length(0, len);
            let shared = share_buffer(&bytes);
            self.state = DecoderState::Parsing { size, bytes, in_place: true };
            assert(input.subrange(0, size as int) =~= input.take(size as int));
            assert(scratch_bytes(self.buf) =~= Seq::empty());
            assert(self@ =~= stepped(v, input).0);
            return Some(Work::Message { bytes: shared });
        }
        self.fill_scratch(buffer, len);
        if self.buf.len() < len {
            assert(self@ =~= stepped(v, input).0);
            return None;
        }
        let bytes = freeze_scratch(self.take_scratch());
        let shared = share_buffer(&bytes);
        self.state = DecoderState::Parsing { size, bytes, in_place: false };
        assert(self@ =~= stepped(v, input).0);
        Some(Work::Message { bytes: shared })
    }

    /// Decides what a message is for, once its body is there.
    fn deliver_body(&mut self, body: Buffer) -> (result: Result<Option<Work<A>>, IpcError>)
        requires
            old(self).inv(),
            old(self).state is Body,
            old(self)@.state.set_aside().len() == 0,
        ensures
            final(self).inv(),
            old(self)@.state matches StateView::Body { message, .. } && (
                final(self)@,
                step_of(result),
            ) == deliver(old(self)@, message, buffer_bytes(body)),
    {
        let ghost v = self@;
        let message = match &self.state {
            DecoderState::Body { message, .. } => message.share(),
            _ => return Ok(None),
        };
        let ghost target = deliver(v, message@, buffer_bytes(body));
        assert(scratch_bytes(self.buf) =~= Seq::empty());
        let options = ArrayOptions {
            require_alignment: self.require_alignment,
            skip_validation: self.skip_validation,
        };
        match message.info.header_type {
            MessageHeader::Schema => {
                if self.schema.is_some() {
                    self.state = DecoderState::Body { message, refused: true };
                    assert(self@ =~= target.0);
                    return Err(IpcError::UnexpectedSchema);
                }
                let shared = message.share();
                self.state = DecoderState::Decoding { message };
                assert(self@ =~= target.0);
                Ok(Some(Work::Schema { message: shared }))
            },
            MessageHeader::RecordBatch => {
                let schema = match &self.schema {
                    Some(schema) => schema.clone(),
                    None => {
                        self.state = DecoderState::Body { message, refused: true };
                        assert(self@ =~= target.0);
                        return Err(IpcError::MissingSchema);
                    },
                };
                let shared = message.share();
                self.state = DecoderState::Decoding { message };
                assert(self@ =~= target.0);
                Ok(Some(Work::RecordBatch { message: shared, body, schema, options }))
            },
            MessageHeader::DictionaryBatch => {
                let schema = match &self.schema {
                    Some(schema) => schema.clone(),
                    None => {
                        self.state = DecoderState::Body { message, refused: true };
                        assert(self@ =~= target.0);
                        return Err(IpcError::MissingSchema);
                    },
                };
                let shared = message.share();
                self.state = DecoderState::Decoding { message };
                let mut dictionaries: HashMap<i64, A> = HashMap::new();
                std::mem::swap(&mut dictionaries, &mut self.dictionaries);
                assert(self@ =~= target.0);
                Ok(
                    Some(
                        Work::DictionaryBatch {
                            message: shared,
                            body,
                            schema,
                            dictionaries,
                            options,
                        },
                    ),
                )
            },
            MessageHeader::NONE => {
                self.state = DecoderState::default();
                assert(self@ =~= target.0);
                Ok(None)
            },
            header => {
                self.state = DecoderState::Body { message, refused: true };
                assert(self@ =~= target.0);
                Err(IpcError::UnsupportedMessage(header))
            },
        }
    }

    /// Reads bytes of a body.
    fn read_body(&mut self, buffer: &mut Buffer, info: MessageInfo) -> (result: Result<
        Option<Work<A>>,
        IpcError,
    >)
        requires
            old(self).inv(),
            old(self).state matches DecoderState::Body { message, .. } && message.info == info,
            old(self)@.can_step(buffer_bytes(*old(buffer))),
            gathered(old(self)@.state, buffer_bytes(*old(buffer))) <= max_scratch_len(),
        ensures
            final(self).inv(),
            (final(self)@, buffer_bytes(*final(buffer)), step_of(result)) == stepped(
                old(self)@,
                buffer_bytes(*old(buffer)),
            ),
    {
        let ghost input = buffer_bytes(*buffer);
        let ghost v = self@;
        let body_length: usize = info.body_length as usize;
        let ghost (got, rest) = gather(v.state.set_aside(), body_length as nat, input);
        let body = if self.buf.is_empty() && buffer.len() >= body_length {
            let body = buffer.slice_with_length(0, body_length);
            buffer.advance(body_length);
            assert(got =~= buffer_bytes(body));
            body
        } else {
            self.fill_scratch(buffer, body_length);
            if self.buf.len() < body_length {
                assert(self@ =~= stepped(v, input).0);
                return Ok(None);
            }
            freeze_scratch(self.take_scratch())
        };
        let ghost ready = self@;
        let result = self.deliver_body(body);
        proof {
            assert(scratch_bytes(self.buf) =~= Seq::empty());
            let message = v.state->Body_message;
            assert(deliver(ready, message, got).0 =~= deliver(v, message, got).0);
            assert(deliver(ready, message, got).1 =~= deliver(v, message, got).1);
        }
        result
    }

    /// Whether the message that is being read is complete without any further byte, and was not
    /// refused before.
    fn is_due(&self) -> (due: bool)
        ensures
            due == self@.state.due(),
    {
        match &self.state {
            DecoderState::Body { message, refused } => {
                let body_length: usize = message.info.body_length as usize;
                !*refused && body_length == 0
            },
            _ => false,
        }
    }

    /// Reads the next messages from `buffer`, as far as it goes.
    ///
    /// `Buffer::advance` is called on `buffer` for any consumed bytes.
    ///
    /// Gives the task that has to be done before more can be read, for [`resume`](Self::resume)
    /// to take the reply, or `None` once `buffer` is used up. The bytes of a stream may come in
    /// pieces that are delimited in any way.
    ///
    /// What is set aside of a message that goes on in the next buffer has to fit in memory, which
    /// [`can_gather`](Self::can_gather) tests.
    pub fn decode(&mut self, buffer: &mut Buffer) -> (result: Result<Option<Work<A>>, IpcError>)
        requires
            old(self).inv(),
            !old(self)@.state.awaiting(),
            fits_memory(old(self)@, buffer_bytes(*old(buffer))),
        ensures
            final(self).inv(),
            (final(self)@, buffer_bytes(*final(buffer)), step_of(result)) == decoded(
                old(self)@,
                buffer_bytes(*old(buffer)),
            ),
            result matches Ok(None) ==> buffer_bytes(*final(buffer)).len() == 0
                && !final(self)@.state.awaiting() && !final(self)@.state.due(),
    {
        while !buffer.is_empty() || self.is_due()
            invariant
                self.inv(),
                !self@.state.awaiting(),
                fits_memory(self@, buffer_bytes(*buffer)),
                decoded(self@, buffer_bytes(*buffer)) == decoded(
                    old(self)@,
                    buffer_bytes(*old(buffer)),
                ),
            decreases buffer_bytes(*buffer).len(), rank(self@.state),
        {
            match &self.state {
                DecoderState::Header { buf, read, continuation } => {
                    let (buf, read, continuation): ([u8; 4], u8, bool) = (
                        *buf,
                        *read,
                        *continuation,
                    );
                    self.read_header(buffer, buf, read, continuation);
                },
                DecoderState::Message { size } => {
                    let size: u32 = *size;
                    let work = self.read_message(buffer, size);
                    if work.is_some() {
                        return Ok(work);
                    }
                },
                DecoderState::Body { message, .. } => {
                    let info = message.info;
                    match self.read_body(buffer, info) {
                        Ok(None) => {},
                        result => return result,
                    }
                },
                DecoderState::Finished => {
                    return Err(IpcError::UnexpectedEos);
                },
                _ => {
                    return Ok(None);
                },
            }
        }
        Ok(None)
    }

    /// Takes the reply to the task that [`decode`](Self::decode) gave, `buffer` being what
    /// `decode` left of its input.
    ///
    /// Gives the record batch, where the task was to build one.
    pub fn resume<B>(&mut self, buffer: &mut Buffer, reply: Reply<A, B>) -> (result: Result<
        Option<B>,
        ArrowError,
    >)
        requires
            old(self).inv(),
            old(self)@.accepts(buffer_bytes(*old(buffer)), reply@),
        ensures
            final(self).inv(),
            !final(self)@.state.awaiting(),
            (final(self)@, buffer_bytes(*final(buffer)), result) == resumed(
                old(self)@,
                buffer_bytes(*old(buffer)),
                reply@,
            ),
    {
        let ghost v = self@;
        let ghost input = buffer_bytes(*buffer);
        let ghost target = resumed(v, input, reply@);
        let mut waiting = DecoderState::default();
        std::mem::swap(&mut waiting, &mut self.state);
        assert(scratch_bytes(self.buf) =~= Seq::empty());
        match (waiting, reply) {
            (
                DecoderState::Parsing { size, bytes, in_place },
                Reply::Message(parsed),
            ) => match parsed {
                Ok(info) => {
                    let message = MessageBuffer { bytes, info };
                    self.state = DecoderState::Body { message, refused: false };
                    if in_place {
                        buffer.advance(size as usize);
                    }
                    assert(self@ =~= target.0);
                    Ok(None)
                },
                Err(error) => {
                    self.state = DecoderState::Message { size };
                    assert(self@ =~= target.0);
                    Err(error)
                },
            },
            (DecoderState::Decoding { message }, Reply::Schema(schema)) => {
                self.schema = Some(Arc::new(schema));
                assert(self@ =~= target.0);
                Ok(None)
            },
            (DecoderState::Decoding { message }, Reply::RecordBatch(built)) => match built {
                Ok(batch) => {
                    assert(self@ =~= target.0);
                    Ok(Some(batch))
                },
                Err(error) => {
                    self.state = DecoderState::Body { message, refused: true };
                    assert(self@ =~= target.0);
                    Err(error)
                },
            },
            (
                DecoderState::Decoding { message },
                Reply::DictionaryBatch(dictionaries, updated),
            ) => {
                self.dictionaries = dictionaries;
                match updated {
                    Ok(_) => {
                        assert(self@ =~= target.0);
                        Ok(None)
                    },
                    Err(error) => {
                        self.state = DecoderState::Body { message, refused: true };
                        assert(self@ =~= target.0);
                        Err(error)
                    },
                }
            },
            _ => Ok(None),
        }
    }

    /// Whether all that is set aside while decoding `buffer` fits in memory, as
    /// [`decode`](Self::decode) needs it.
    pub fn can_gather(&self, buffer: &Buffer) -> (fits: bool)
        requires
            self.inv(),
        ensures
            fits == fits_memory(self@, buffer_bytes(*buffer)),
    {
        let mut rest = share_buffer(buffer);
        let ghost input = buffer_bytes(*buffer);
        let held: usize = self.buf.len();
        let (mut buf, mut read, mut continuation): ([u8; 4], u8, bool) = match &self.state {
            DecoderState::Header { buf, read, continuation } => (*buf, *read, *continuation),
            DecoderState::Message { size } => {
                let need: usize = *size as usize;
                proof {
                    lemma_fits_in_metadata(self@, input);
                }
                return held == 0 && rest.len() > need || can_hold(held, need, rest.len());
            },
            DecoderState::Body { message, .. } => {
                let need: usize = message.info.body_length as usize;
                let whole: bool = rest.len() >= need - held;
                proof {
                    lemma_fits_in_body(self@, input);
                }
                if !(held == 0 && whole) && !can_hold(held, need, rest.len()) {
                    return false;
                }
                match message.info.header_type {
                    MessageHeader::NONE if whole => {},
                    _ => return true,
                }
                rest.advance(need - held);
                proof {
                    let none: [u8; 4] = [0, 0, 0, 0];
                    assert(none@.take(0) =~= Seq::empty());
                }
                ([0, 0, 0, 0], 0, false)
            },
            _ => return true,
        };
        loop
            invariant
                self.inv(),
                input == buffer_bytes(*buffer),
                read < 4,
                fits_memory(self@, input) == fits_memory(
                    DecoderView {
                        state: StateView::Header { read: buf@.take(read as int), continuation },
                        ..self@
                    },
                    buffer_bytes(rest),
                ),
            decreases
                    if continuation {
                        0int
                    } else {
                        1int
                    },
        {
            let ghost w = DecoderView {
                state: StateView::Header { read: buf@.take(read as int), continuation },
                ..self@
            };
            proof {
                lemma_fits_in_header(w, buffer_bytes(rest));
            }
            let (filled, read_now): ([u8; 4], u8) = fill_header(&mut rest, buf, read);
            if read_now < 4 {
                return true;
            }
            if !continuation && is_marker(&filled) {
                buf = filled;
                read = 0;
                continuation = true;
                assert(buf@.take(0) =~= Seq::empty());
            } else {
                let size: u32 = u32_from_le(&filled);
                if size == 0 {
                    return true;
                }
                let need: usize = size as usize;
                proof {
                    lemma_fits_in_metadata(
                        DecoderView { state: after_header(filled@, continuation), ..w },
                        buffer_bytes(rest),
                    );
                }
                return rest.len() > need || can_hold(0, need, rest.len());
            }
        }
    }

    /// Whether [`decode`](Self::decode) gave a task for which no reply was taken yet.
    pub fn is_waiting(&self) -> (waiting: bool)
        ensures
            waiting == self@.state.awaiting(),
    {
        match self.state {
            DecoderState::Parsing { .. } => true,
            DecoderState::Decoding { .. } => true,
            _ => false,
        }
    }

    /// Signals the end of the stream.
    ///
    /// Returns an error if any partial data remains in the stream.
    pub fn finish(&mut self) -> (result: Result<(), IpcError>)
        requires
            old(self).inv(),
        ensures
            *final(self) == *old(self),
            result == if old(self)@.state.at_boundary() {
                Ok(())
            } else {
                Err(IpcError::UnexpectedEndOfStream)
            },
    {
        match self.state {
            DecoderState::Finished => Ok(()),
            DecoderState::Header { read: 0, continuation: false, .. } => Ok(()),
            _ => Err(IpcError::UnexpectedEndOfStream),
        }
    }

    /// Whether the end-of-stream marker was consumed.
    pub fn is_finished(&self) -> (finished: bool)
        ensures
            finished == (self@.state is Finished),
    {
        matches!(self.state, DecoderState::Finished)
    }

    /// The schema if decoded, else `None`.
    pub fn schema(&self) -> (schema: Option<SchemaRef>)
        ensures
            schema == self@.schema,
    {
        match &self.schema {
            Some(schema) => Some(schema.clone()),
            None => None,
        }
    }

    /// The dictionaries that were read, by ID.
    pub fn dictionaries(&self) -> (dictionaries: &HashMap<i64, A>)
        ensures
            dictionaries@ == self@.dictionaries,
    {
        &self.dictionaries
    }

    /// Specifies whether array data in input buffers is required to be properly aligned.
    ///
    /// If `require_alignment` is true, array data that is not properly aligned is an error.
    ///
    /// If `require_alignment` is false (the default), such data is copied to a new aligned
    /// buffer.
    pub fn with_require_alignment(self, require_alignment: bool) -> (decoder: Self)
        requires
            self.inv(),
        ensures
            decoder.inv(),
            decoder@ == (DecoderView {
                options: ArrayOptions { require_alignment, ..self@.options },
                ..self@
            }),
    {
        let mut decoder = self;
        decoder.require_alignment = require_alignment;
        decoder
    }

    /// Specifies if validation should be skipped when reading data (defaults to `false`).
    ///
    /// It must only be set to `true` for data that is known to be valid: whoever builds the
    /// arrays then relies on it.
    pub fn with_skip_validation(self, skip_validation: bool) -> (decoder: Self)
        requires
            self.inv(),
        ensures
            decoder.inv(),
            decoder@ == (DecoderView {
                options: ArrayOptions { skip_validation, ..self@.options },
                ..self@
            }),
    {
        let mut decoder = self;
        decoder.skip_validation = skip_validation;
        decoder
    }
}

/// A result of decoding says what came of it: nothing more to do, the task as it is, or the error.
pub proof fn law_step_of<A>(work: Work<A>, error: IpcError)
    ensures
        step_of::<A>(Ok(None)) == Step::<A>::Continue,
        step_of::<A>(Ok(Some(work))) == Step::<A>::Work(work@),
        step_of::<A>(Err(error)) == Step::<A>::Failed(error),
{
}

} // verus!
