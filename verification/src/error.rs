//! The ways in which decoding a stream fails.
use arrow_schema::ArrowError;
use vstd::prelude::*;

use crate::message::MessageHeader;

verus! {

/// A stream that breaks the rules of the format.
#[derive(Clone, Copy, Debug, PartialEq, Eq, Structural)]
pub enum IpcError {
    /// A second schema message.
    UnexpectedSchema,
    /// A dictionary or a record batch before the schema.
    MissingSchema,
    /// A message of a kind that a stream does not hold.
    UnsupportedMessage(MessageHeader),
    /// Bytes after the end-of-stream marker.
    UnexpectedEos,
    /// The stream ends inside a message.
    UnexpectedEndOfStream,
    /// The stream ends before its schema.
    EmptyStream,
    /// A record batch where the schema was expected.
    SchemaExpected,
    /// A message that carries nothing before the schema.
    SchemaNotFirst,
}

impl IpcError {
    /// The error in words.
    pub open spec fn spec_description(self) -> Seq<char> {
        match self {
            IpcError::UnexpectedSchema => "Not expecting a schema when messages are read"@,
            IpcError::MissingSchema => "Missing schema"@,
            IpcError::UnsupportedMessage(header) =>
                "Message type unsupported by StreamDecoder: "@ + header.spec_name(),
            IpcError::UnexpectedEos => "Unexpected EOS"@,
            IpcError::UnexpectedEndOfStream => "Unexpected End of Stream"@,
            IpcError::EmptyStream => "Expected schema message, found empty stream."@,
            IpcError::SchemaExpected =>
                "Expected schema as first IPC message, got record batch"@,
            IpcError::SchemaNotFirst => "Expected schema as first IPC message, got NONE"@,
        }
    }

    /// The error in words.
    pub fn description(&self) -> (text: String)
        ensures
            text@ == self.spec_description(),
    {
        match self {
            IpcError::UnexpectedSchema =>
                "Not expecting a schema when messages are read".to_string(),
            IpcError::MissingSchema => "Missing schema".to_string(),
            IpcError::UnsupportedMessage(header) => {
                let mut text = "Message type unsupported by StreamDecoder: ".to_string();
                text.append(header.name().as_str());
                text
            },
            IpcError::UnexpectedEos => "Unexpected EOS".to_string(),
            IpcError::UnexpectedEndOfStream => "Unexpected End of Stream".to_string(),
            IpcError::EmptyStream => "Expected schema message, found empty stream.".to_string(),
            IpcError::SchemaExpected =>
                "Expected schema as first IPC message, got record batch".to_string(),
            IpcError::SchemaNotFirst =>
                "Expected schema as first IPC message, got NONE".to_string(),
        }
    }
}

/// Why a stream could not be decoded.
#[derive(Debug)]
pub enum StreamError {
    /// The stream breaks the rules of the format.
    Ipc(IpcError),
    /// A message, or what it carries, could not be decoded.
    Arrow(ArrowError),
}

/// The errors in words.
pub proof fn law_descriptions(header: MessageHeader)
    ensures
        IpcError::UnexpectedSchema.spec_description()
            == "Not expecting a schema when messages are read"@,
        IpcError::MissingSchema.spec_description() == "Missing schema"@,
        IpcError::UnsupportedMessage(header).spec_description()
            == "Message type unsupported by StreamDecoder: "@ + header.spec_name(),
        IpcError::UnexpectedEos.spec_description() == "Unexpected EOS"@,
        IpcError::UnexpectedEndOfStream.spec_description() == "Unexpected End of Stream"@,
        IpcError::EmptyStream.spec_description()
            == "Expected schema message, found empty stream."@,
        IpcError::SchemaExpected.spec_description()
            == "Expected schema as first IPC message, got record batch"@,
        IpcError::SchemaNotFirst.spec_description()
            == "Expected schema as first IPC message, got NONE"@,
{
}

} // verus!
