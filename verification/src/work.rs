//! The exchange between a decoder and the code that understands message metadata and arrays.
//!
//! A decoder finds the messages of a stream and decides what each one is for. It leaves three
//! tasks to its caller: to read the metadata of a message, to convert a schema, and to build
//! arrays out of a body. It asks for them with [`Work`] and takes the results as [`Reply`].
use std::collections::HashMap;

use arrow_buffer::Buffer;
use arrow_schema::{ArrowError, Schema, SchemaRef};
use vstd::prelude::*;

use crate::buffers::buffer_bytes;
use crate::message::{MessageBuffer, MessageInfo, MessageView};

verus! {

/// How arrays are to be built out of a body.
#[derive(Clone, Copy, Debug, PartialEq, Eq, Structural)]
pub struct ArrayOptions {
    /// Whether array data that is not aligned is an error. Otherwise it is copied.
    pub require_alignment: bool,
    /// Whether array data is taken as it is, without validation.
    pub skip_validation: bool,
}

/// A task that a decoder leaves to its caller. Dictionaries are of type `A`.
#[verifier::reject_recursive_types(A)]
#[derive(Debug)]
pub enum Work<A> {
    /// Read the metadata of a message.
    Message { bytes: Buffer },
    /// Convert the schema that a message carries.
    Schema { message: MessageBuffer },
    /// Build the record batch that a message and its body describe, with the dictionaries that
    /// the decoder holds. The batch carries the custom metadata of the message.
    RecordBatch {
        message: MessageBuffer,
        body: Buffer,
        schema: SchemaRef,
        options: ArrayOptions,
    },
    /// Bring the dictionaries up to date with a message and its body.
    DictionaryBatch {
        message: MessageBuffer,
        body: Buffer,
        schema: SchemaRef,
        dictionaries: HashMap<i64, A>,
        options: ArrayOptions,
    },
}

/// The contents of a [`Work`].
#[verifier::reject_recursive_types(A)]
#[verifier::ext_equal]
pub enum WorkView<A> {
    Message { bytes: Seq<u8> },
    Schema { message: MessageView },
    RecordBatch {
        message: MessageView,
        body: Seq<u8>,
        schema: SchemaRef,
        options: ArrayOptions,
    },
    DictionaryBatch {
        message: MessageView,
        body: Seq<u8>,
        schema: SchemaRef,
        dictionaries: Map<i64, A>,
        options: ArrayOptions,
    },
}

impl<A> View for Work<A> {
    type V = WorkView<A>;

    open spec fn view(&self) -> WorkView<A> {
        match *self {
            Work::Message { bytes } => WorkView::Message { bytes: buffer_bytes(bytes) },
            Work::Schema { message } => WorkView::Schema { message: message@ },
            Work::RecordBatch { message, body, schema, options } => WorkView::RecordBatch {
                message: message@,
                body: buffer_bytes(body),
                schema,
                options,
            },
            Work::DictionaryBatch {
                message,
                body,
                schema,
                dictionaries,
                options,
            } => WorkView::DictionaryBatch {
                message: message@,
                body: buffer_bytes(body),
                schema,
                dictionaries: dictionaries@,
                options,
            },
        }
    }
}

/// The result of a [`Work`] of the same name. Dictionaries are of type `A`, record batches of
/// type `B`.
#[verifier::reject_recursive_types(A)]
#[derive(Debug)]
pub enum Reply<A, B> {
    /// What was read of the metadata.
    Message(Result<MessageInfo, ArrowError>),
    /// The schema.
    Schema(Schema),
    /// The record batch.
    RecordBatch(Result<B, ArrowError>),
    /// The dictionaries, and whether they could be brought up to date.
    DictionaryBatch(HashMap<i64, A>, Result<(), ArrowError>),
}

/// The contents of a [`Reply`].
#[verifier::reject_recursive_types(A)]
#[verifier::ext_equal]
pub enum ReplyView<A, B> {
    Message(Result<MessageInfo, ArrowError>),
    Schema(Schema),
    RecordBatch(Result<B, ArrowError>),
    DictionaryBatch(Map<i64, A>, Result<(), ArrowError>),
}

impl<A, B> View for Reply<A, B> {
    type V = ReplyView<A, B>;

    open spec fn view(&self) -> ReplyView<A, B> {
        match *self {
            Reply::Message(result) => ReplyView::Message(result),
            Reply::Schema(schema) => ReplyView::Schema(schema),
            Reply::RecordBatch(result) => ReplyView::RecordBatch(result),
            Reply::DictionaryBatch(dictionaries, result) => ReplyView::DictionaryBatch(
                dictionaries@,
                result,
            ),
        }
    }
}

/// A task holds what its contents say: the metadata and the body byte for byte, and the rest as it
/// is.
pub proof fn law_work_contents<A>(work: Work<A>)
    ensures
        work matches Work::Message { bytes } ==> work@ == (WorkView::<A>::Message {
            bytes: buffer_bytes(bytes),
        }),
        work matches Work::Schema { message } ==> work@ == (WorkView::<A>::Schema {
            message: MessageView { bytes: buffer_bytes(message.bytes), info: message.info },
        }),
        work matches Work::RecordBatch { message, body, schema, options } ==> work@ == (
        WorkView::<A>::RecordBatch {
            message: MessageView { bytes: buffer_bytes(message.bytes), info: message.info },
            body: buffer_bytes(body),
            schema,
            options,
        }),
        work matches Work::DictionaryBatch { message, body, schema, dictionaries, options }
            ==> work@ == (WorkView::<A>::DictionaryBatch {
            message: MessageView { bytes: buffer_bytes(message.bytes), info: message.info },
            body: buffer_bytes(body),
            schema,
            dictionaries: dictionaries@,
            options,
        }),
{
}

/// A reply holds what its contents say.
pub proof fn law_reply_contents<A, B>(reply: Reply<A, B>)
    ensures
        reply matches Reply::Message(result) ==> reply@ == ReplyView::<A, B>::Message(result),
        reply matches Reply::Schema(schema) ==> reply@ == ReplyView::<A, B>::Schema(schema),
        reply matches Reply::RecordBatch(result) ==> reply@ == ReplyView::<A, B>::RecordBatch(
            result,
        ),
        reply matches Reply::DictionaryBatch(dictionaries, result) ==> reply@ == ReplyView::<
            A,
            B,
        >::DictionaryBatch(dictionaries@, result),
{
}

} // verus!
