//! Messages: what a decoder reads of their metadata, and the metadata bytes kept with it.
use arrow_buffer::Buffer;
use vstd::prelude::*;

use crate::buffers::{buffer_bytes, share_buffer};

verus! {

/// The kind of header that a message carries.
#[derive(Clone, Copy, Debug, PartialEq, Eq, Structural)]
pub enum MessageHeader {
    NONE,
    Schema,
    DictionaryBatch,
    RecordBatch,
    Tensor,
    SparseTensor,
    /// A kind that the format does not define, by its code.
    Unknown(u8),
}

/// The digit `d` of a decimal number, as a character.
pub open spec fn digit(d: nat) -> char
    recommends
        d < 10,
{
    ('0' as nat + d) as char
}

/// `n` in decimal, without leading zeros.
pub open spec fn decimal(n: nat) -> Seq<char>
    decreases n,
{
    if n < 10 {
        seq![digit(n)]
    } else {
        decimal(n / 10).push(digit(n % 10))
    }
}

/// The decimal digit `d` as a string.
fn digit_str(d: u8) -> (s: &'static str)
    requires
        d < 10,
    ensures
        s@ == seq![digit(d as nat)],
{
    proof {
        reveal_strlit("0");
        reveal_strlit("1");
        reveal_strlit("2");
        reveal_strlit("3");
        reveal_strlit("4");
        reveal_strlit("5");
        reveal_strlit("6");
        reveal_strlit("7");
        reveal_strlit("8");
        reveal_strlit("9");
    }
    match d {
        0 => "0",
        1 => "1",
        2 => "2",
        3 => "3",
        4 => "4",
        5 => "5",
        6 => "6",
        7 => "7",
        8 => "8",
        _ => "9",
    }
}

/// Appends `n` to `text`, in decimal.
fn append_decimal(text: &mut String, n: u8)
    ensures
        final(text)@ == old(text)@ + decimal(n as nat),
    decreases n,
{
    if n >= 10 {
        append_decimal(text, n / 10);
    }
    text.append(digit_str(n % 10));
    assert(text@ == old(text)@ + decimal(n as nat));
}

impl MessageHeader {
    /// The name of the kind.
    pub open spec fn spec_name(self) -> Seq<char> {
        match self {
            MessageHeader::NONE => "NONE"@,
            MessageHeader::Schema => "Schema"@,
            MessageHeader::DictionaryBatch => "DictionaryBatch"@,
            MessageHeader::RecordBatch => "RecordBatch"@,
            MessageHeader::Tensor => "Tensor"@,
            MessageHeader::SparseTensor => "SparseTensor"@,
            MessageHeader::Unknown(code) => "<UNKNOWN "@ + decimal(code as nat) + ">"@,
        }
    }

    /// The name of the kind.
    pub fn name(&self) -> (name: String)
        ensures
            name@ == self.spec_name(),
    {
        match self {
            MessageHeader::NONE => "NONE".to_string(),
            MessageHeader::Schema => "Schema".to_string(),
            MessageHeader::DictionaryBatch => "DictionaryBatch".to_string(),
            MessageHeader::RecordBatch => "RecordBatch".to_string(),
            MessageHeader::Tensor => "Tensor".to_string(),
            MessageHeader::SparseTensor => "SparseTensor".to_string(),
            MessageHeader::Unknown(code) => {
                let mut name = "<UNKNOWN ".to_string();
                append_decimal(&mut name, *code);
                name.append(">");
                name
            },
        }
    }
}

/// What a decoder reads of a message's metadata.
#[derive(Clone, Copy, Debug, PartialEq, Eq, Structural)]
pub struct MessageInfo {
    /// The version of the format that the message was written in.
    pub version: i16,
    /// The kind of header.
    pub header_type: MessageHeader,
    /// The length of the body, as written.
    pub body_length: i64,
}

impl MessageInfo {
    /// The number of bytes of body that follow the metadata.
    pub open spec fn body_len(self) -> nat {
        (self.body_length as usize) as nat
    }
}

/// The metadata of a message, as bytes and as read.
#[derive(Debug)]
pub struct MessageBuffer {
    /// The metadata flatbuffer.
    pub bytes: Buffer,
    /// What was read of it.
    pub info: MessageInfo,
}

/// The contents of a [`MessageBuffer`].
#[verifier::ext_equal]
pub struct MessageView {
    pub bytes: Seq<u8>,
    pub info: MessageInfo,
}

impl View for MessageBuffer {
    type V = MessageView;

    open spec fn view(&self) -> MessageView {
        MessageView { bytes: buffer_bytes(self.bytes), info: self.info }
    }
}

impl MessageBuffer {
    /// Another handle on the same message.
    pub fn share(&self) -> (shared: MessageBuffer)
        ensures
            shared@ == self@,
    {
        MessageBuffer { bytes: share_buffer(&self.bytes), info: self.info }
    }
}

/// The names of the kinds. A kind that the format does not define is named by its code, in decimal
/// and without leading zeros.
pub proof fn law_names(code: u8)
    ensures
        MessageHeader::NONE.spec_name() == "NONE"@,
        MessageHeader::Schema.spec_name() == "Schema"@,
        MessageHeader::DictionaryBatch.spec_name() == "DictionaryBatch"@,
        MessageHeader::RecordBatch.spec_name() == "RecordBatch"@,
        MessageHeader::Tensor.spec_name() == "Tensor"@,
        MessageHeader::SparseTensor.spec_name() == "SparseTensor"@,
        ({
            let ones = (48 + code % 10) as char;
            let tens = (48 + code / 10 % 10) as char;
            let hundreds = (48 + code / 100) as char;
            MessageHeader::Unknown(code).spec_name() == "<UNKNOWN "@ + (if code < 10 {
                seq![ones]
            } else if code < 100 {
                seq![tens, ones]
            } else {
                seq![hundreds, tens, ones]
            }) + ">"@
        }),
{
    reveal_with_fuel(decimal, 3);
    let n = code as nat;
    let ones = (48 + code % 10) as char;
    let tens = (48 + code / 10 % 10) as char;
    let hundreds = (48 + code / 100) as char;
    assert(n / 10 / 10 == n / 100);
    assert(decimal(n) =~= if code < 10 {
        seq![ones]
    } else if code < 100 {
        seq![tens, ones]
    } else {
        seq![hundreds, tens, ones]
    });
}

} // verus!
