use std::collections::HashMap;
use std::sync::Arc;

use arrow_array::types::Int32Type;
use arrow_array::{
    Array, ArrayRef, DictionaryArray, Int32Array, Int64Array, RecordBatch, RunArray, StringArray,
};
use arrow_buffer::{Buffer, ScalarBuffer};
use arrow_ipc_stream::{
    ArrayOptions, BufferStreamReader, IpcError, MessageHeader, MessageInfo, Opened, Progress,
    Reply, Resumed, StreamDecoder, StreamError, Work,
};
use arrow_schema::{ArrowError, DataType, Field, Schema, SchemaRef};

// ---------------------------------------------------------------
// A small encoding of schemas and arrays to put in messages
// ---------------------------------------------------------------

const METADATA_LEN: usize = 16;

fn header_code(header: MessageHeader) -> u8 {
    match header {
        MessageHeader::NONE => 0,
        MessageHeader::Schema => 1,
        MessageHeader::DictionaryBatch => 2,
        MessageHeader::RecordBatch => 3,
        MessageHeader::Tensor => 4,
        MessageHeader::SparseTensor => 5,
        MessageHeader::Unknown(code) => code,
    }
}

fn header_of(code: u8) -> MessageHeader {
    match code {
        0 => MessageHeader::NONE,
        1 => MessageHeader::Schema,
        2 => MessageHeader::DictionaryBatch,
        3 => MessageHeader::RecordBatch,
        4 => MessageHeader::Tensor,
        5 => MessageHeader::SparseTensor,
        code => MessageHeader::Unknown(code),
    }
}

/// Metadata: a check byte, the kind, the version, the index of a value and the body length.
fn metadata(header: MessageHeader, index: u32, body_length: i64) -> Vec<u8> {
    let mut bytes = vec![0xA5, header_code(header)];
    bytes.extend_from_slice(&4i16.to_le_bytes());
    bytes.extend_from_slice(&index.to_le_bytes());
    bytes.extend_from_slice(&body_length.to_le_bytes());
    assert_eq!(bytes.len(), METADATA_LEN);
    bytes
}

fn frame(metadata: &[u8], body: &[u8]) -> Vec<u8> {
    let mut bytes = vec![0xff; 4];
    bytes.extend_from_slice(&legacy_frame(metadata, body));
    bytes
}

/// A message without the continuation marker.
fn legacy_frame(metadata: &[u8], body: &[u8]) -> Vec<u8> {
    let mut bytes = (metadata.len() as u32).to_le_bytes().to_vec();
    bytes.extend_from_slice(metadata);
    bytes.extend_from_slice(body);
    bytes
}

fn message(header: MessageHeader, index: u32, body: &[u8]) -> Vec<u8> {
    frame(&metadata(header, index, body.len() as i64), body)
}

const EOS: [u8; 8] = [0xff, 0xff, 0xff, 0xff, 0, 0, 0, 0];

fn pad(bytes: &mut Vec<u8>) {
    while bytes.len() % 8 != 0 {
        bytes.push(0);
    }
}

/// The values of the columns, each from a multiple of eight on.
fn batch_body(batch: &RecordBatch) -> Vec<u8> {
    let mut body = Vec::new();
    for column in batch.columns() {
        let data = column.to_data();
        for buffer in data.buffers() {
            body.extend_from_slice(buffer.as_slice());
            pad(&mut body);
        }
    }
    body
}

/// Values of an array: a slice of the body, or a copy where that is not aligned.
fn values(body: &Buffer, offset: &mut usize, len: usize, width: usize) -> Buffer {
    let slice = body.slice_with_length(*offset, len * width);
    *offset += (len * width + 7) / 8 * 8;
    if slice.as_ptr() as usize % width == 0 {
        slice
    } else {
        Buffer::from(slice.as_slice())
    }
}

/// What the messages of a stream refer to, and the code that builds arrays out of their bodies.
#[derive(Default)]
struct Codec {
    schemas: Vec<SchemaRef>,
    batches: Vec<RecordBatch>,
    dictionaries: Vec<ArrayRef>,
    refuse_batches: bool,
    refuse_dictionaries: bool,
}

impl Codec {
    fn message(&self, bytes: &Buffer) -> Result<MessageInfo, ArrowError> {
        let bytes = bytes.as_slice();
        if bytes.len() != METADATA_LEN || bytes[0] != 0xA5 {
            return Err(ArrowError::ParseError("Unable to get root as message".to_string()));
        }
        Ok(MessageInfo {
            version: i16::from_le_bytes(bytes[2..4].try_into().unwrap()),
            header_type: header_of(bytes[1]),
            body_length: i64::from_le_bytes(bytes[8..16].try_into().unwrap()),
        })
    }

    fn index(bytes: &Buffer) -> usize {
        u32::from_le_bytes(bytes.as_slice()[4..8].try_into().unwrap()) as usize
    }

    fn record_batch(
        &self,
        index: usize,
        body: &Buffer,
        schema: SchemaRef,
        dictionaries: &HashMap<i64, ArrayRef>,
    ) -> Result<RecordBatch, ArrowError> {
        if self.refuse_batches {
            return Err(ArrowError::InvalidArgumentError("bad batch".to_string()));
        }
        let rows = self.batches[index].num_rows();
        let mut offset = 0;
        let mut columns: Vec<ArrayRef> = Vec::new();
        for field in schema.fields() {
            let column: ArrayRef = match field.data_type() {
                DataType::Int32 => {
                    let buffer = values(body, &mut offset, rows, 4);
                    Arc::new(Int32Array::new(ScalarBuffer::new(buffer, 0, rows), None))
                }
                DataType::Int64 => {
                    let buffer = values(body, &mut offset, rows, 8);
                    Arc::new(Int64Array::new(ScalarBuffer::new(buffer, 0, rows), None))
                }
                DataType::Dictionary(_, _) => {
                    let buffer = values(body, &mut offset, rows, 4);
                    let keys = Int32Array::new(ScalarBuffer::new(buffer, 0, rows), None);
                    let values = dictionaries.get(&0).ok_or_else(|| {
                        ArrowError::ParseError("Cannot find a dictionary".to_string())
                    })?;
                    Arc::new(DictionaryArray::<Int32Type>::try_new(keys, values.clone())?)
                }
                _ => return Ok(self.batches[index].clone()),
            };
            columns.push(column);
        }
        RecordBatch::try_new(schema, columns)
    }

    fn perform(
        &self,
        work: Work<ArrayRef>,
        held: &HashMap<i64, ArrayRef>,
    ) -> Reply<ArrayRef, RecordBatch> {
        match work {
            Work::Message { bytes } => Reply::Message(self.message(&bytes)),
            Work::Schema { message } => {
                Reply::Schema(self.schemas[Self::index(&message.bytes)].as_ref().clone())
            }
            Work::RecordBatch { message, body, schema, .. } => Reply::RecordBatch(
                self.record_batch(Self::index(&message.bytes), &body, schema, held),
            ),
            Work::DictionaryBatch { message, mut dictionaries, .. } => {
                if self.refuse_dictionaries {
                    let error = ArrowError::InvalidArgumentError("bad dictionary".to_string());
                    return Reply::DictionaryBatch(dictionaries, Err(error));
                }
                let index = Self::index(&message.bytes);
                dictionaries.insert(index as i64, self.dictionaries[index].clone());
                Reply::DictionaryBatch(dictionaries, Ok(()))
            }
        }
    }
}

fn ipc(error: IpcError) -> ArrowError {
    ArrowError::IpcError(error.description())
}

fn arrow(error: StreamError) -> ArrowError {
    match error {
        StreamError::Ipc(error) => ipc(error),
        StreamError::Arrow(error) => error,
    }
}

fn decode(
    decoder: &mut StreamDecoder<ArrayRef>,
    buffer: &mut Buffer,
    codec: &Codec,
) -> Result<Option<RecordBatch>, ArrowError> {
    loop {
        match decoder.decode(buffer).map_err(ipc)? {
            None => return Ok(None),
            Some(work) => {
                let reply = codec.perform(work, decoder.dictionaries());
                if let Some(batch) = decoder.resume(buffer, reply)? {
                    return Ok(Some(batch));
                }
            }
        }
    }
}

type Reader = BufferStreamReader<ArrayRef, RecordBatch>;

fn go_on(
    mut opened: Opened<ArrayRef, RecordBatch>,
    codec: &Codec,
) -> Result<Reader, ArrowError> {
    loop {
        match opened {
            Opened::Ready(reader) => return Ok(reader),
            Opened::Waiting(opening, work) => {
                assert!(opening.is_waiting());
                let reply = codec.perform(work, opening.dictionaries());
                match opening.resume(reply).map_err(arrow)? {
                    Resumed::Ready(reader) => return Ok(reader),
                    Resumed::Opening(opening) => {
                        assert!(!opening.is_waiting());
                        assert!(opening.can_gather());
                        opened = opening.open().map_err(ipc)?;
                    }
                }
            }
        }
    }
}

fn try_new(buffer: Buffer, codec: &Codec) -> Result<Reader, ArrowError> {
    go_on(Reader::try_new(buffer).map_err(ipc)?, codec)
}

fn next(reader: &mut Reader, codec: &Codec) -> Option<Result<RecordBatch, ArrowError>> {
    loop {
        assert!(reader.can_gather());
        match reader.next()? {
            Err(error) => return Some(Err(ipc(error))),
            Ok(Progress::Batch(batch)) => return Some(Ok(batch)),
            Ok(Progress::Work(work)) => {
                let reply = codec.perform(work, reader.dictionaries());
                match reader.resume(reply) {
                    Ok(None) => {}
                    Ok(Some(batch)) => return Some(Ok(batch)),
                    Err(error) => return Some(Err(error)),
                }
            }
        }
    }
}

/// A stream of a schema and batches, with the dictionaries before the first batch.
fn serialize(codec: &Codec) -> Vec<u8> {
    let mut bytes = message(MessageHeader::Schema, 0, &[]);
    for i in 0..codec.dictionaries.len() {
        bytes.extend(message(MessageHeader::DictionaryBatch, i as u32, &[7; 8]));
    }
    for (i, batch) in codec.batches.iter().enumerate() {
        bytes.extend(message(MessageHeader::RecordBatch, i as u32, &batch_body(batch)));
    }
    bytes.extend_from_slice(&EOS);
    bytes
}

fn codec_of(schema: SchemaRef, batches: Vec<RecordBatch>) -> Codec {
    Codec { schemas: vec![schema], batches, ..Codec::default() }
}

fn make_int_batch(rows: usize) -> (RecordBatch, Arc<Schema>) {
    let schema = Arc::new(Schema::new(vec![Field::new("v", DataType::Int32, false)]));
    let batch = RecordBatch::try_new(
        schema.clone(),
        vec![Arc::new(Int32Array::from((0..rows as i32).collect::<Vec<_>>()))],
    )
    .unwrap();
    (batch, schema)
}

fn int_schema() -> Arc<Schema> {
    Arc::new(Schema::new(vec![
        Field::new("int32", DataType::Int32, false),
        Field::new("int64", DataType::Int64, false),
    ]))
}

fn int_batch() -> RecordBatch {
    RecordBatch::try_new(
        int_schema(),
        vec![
            Arc::new(Int32Array::from(vec![1, 2, 3])) as _,
            Arc::new(Int64Array::from(vec![1, 2, 3])) as _,
        ],
    )
    .unwrap()
}

// ---------------------------------------------------------------
// StreamDecoder
// ---------------------------------------------------------------

#[test]
fn test_eos() {
    let input = int_batch();
    let codec = codec_of(int_schema(), vec![input.clone()]);
    let buffer = Buffer::from_vec(serialize(&codec));

    let mut b = buffer.slice_with_length(0, buffer.len() - 1);
    let mut decoder = StreamDecoder::new();
    let output = decode(&mut decoder, &mut b, &codec).unwrap().unwrap();
    assert_eq!(output, input);
    assert_eq!(b.len(), 7); // 8 byte EOS truncated by 1 byte
    assert!(decode(&mut decoder, &mut b, &codec).unwrap().is_none());

    let err = ipc(decoder.finish().unwrap_err()).to_string();
    assert_eq!(err, "Ipc error: Unexpected End of Stream");
}

#[test]
fn test_schema() {
    let schema = int_schema();
    let codec = codec_of(schema.clone(), vec![]);
    let buffer = Buffer::from_vec(serialize(&codec));

    let mut b = buffer.slice_with_length(0, buffer.len() - 1);
    let mut decoder = StreamDecoder::new();
    let output = decode(&mut decoder, &mut b, &codec).unwrap();
    assert!(output.is_none());
    let decoded_schema = decoder.schema().unwrap();
    assert_eq!(schema, decoded_schema);

    let err = ipc(decoder.finish().unwrap_err()).to_string();
    assert_eq!(err, "Ipc error: Unexpected End of Stream");
}

#[test]
fn test_read_ree_dict_record_batches_from_buffer() {
    let schema = Schema::new(vec![Field::new(
        "test1",
        DataType::RunEndEncoded(
            Arc::new(Field::new("run_ends".to_string(), DataType::Int32, false)),
            #[allow(deprecated)]
            Arc::new(Field::new_dict(
                "values".to_string(),
                DataType::Dictionary(Box::new(DataType::Int32), Box::new(DataType::Utf8)),
                true,
                0,
                false,
            )),
        ),
        true,
    )]);
    let batch = RecordBatch::try_new(
        schema.clone().into(),
        vec![Arc::new(
            RunArray::try_new(
                &Int32Array::from(vec![1, 2, 3]),
                &vec![Some("a"), None, Some("a")]
                    .into_iter()
                    .collect::<DictionaryArray<Int32Type>>(),
            )
            .expect("Failed to create RunArray"),
        )],
    )
    .expect("Failed to create RecordBatch");

    let mut codec = codec_of(schema.into(), vec![batch.clone()]);
    codec.dictionaries.push(Arc::new(StringArray::from(vec!["a"])));
    let buffer = serialize(&codec);

    let mut decoder = StreamDecoder::new();
    let buf = &mut Buffer::from(buffer.as_slice());
    let mut read = 0;
    while let Some(output) = decode(&mut decoder, buf, &codec)
        .map_err(|e| ArrowError::ExternalError(format!("Failed to decode record batch: {e}").into()))
        .expect("Failed to decode record batch")
    {
        assert_eq!(output, batch);
        read += 1;
    }
    assert_eq!(read, 1);

    decoder.finish().expect("Failed to finish decoder");
}

// ---------------------------------------------------------------
// BufferStreamReader
// ---------------------------------------------------------------

#[test]
fn buffer_stream_reader_roundtrip_single_batch() {
    let (batch, schema) = make_int_batch(64);
    let codec = codec_of(schema.clone(), vec![batch.clone()]);
    let mut r = try_new(Buffer::from_vec(serialize(&codec)), &codec).unwrap();
    assert_eq!(r.schema().as_ref(), schema.as_ref());
    let got = next(&mut r, &codec).unwrap().unwrap();
    assert_eq!(got, batch);
    assert!(next(&mut r, &codec).is_none());
    assert!(r.is_finished());
}

#[test]
fn buffer_stream_reader_multiple_batches() {
    let (a, schema) = make_int_batch(8);
    let (b, _) = make_int_batch(16);
    let (c, _) = make_int_batch(32);
    let codec = codec_of(schema, vec![a.clone(), b.clone(), c.clone()]);
    let mut r = try_new(Buffer::from_vec(serialize(&codec)), &codec).unwrap();
    let mut collected = Vec::new();
    while let Some(batch) = next(&mut r, &codec) {
        collected.push(batch.unwrap());
    }
    assert_eq!(collected, vec![a, b, c]);
}

#[test]
fn buffer_stream_reader_aliases_input() {
    // Each column buffer is a slice of the input, so a batch must not have allocated fresh memory
    // for column data.
    let (batch, schema) = make_int_batch(1024);
    let codec = codec_of(schema, vec![batch]);
    let owned = Buffer::from_vec(serialize(&codec));
    let owned_ptr = owned.as_ptr();
    let owned_len = owned.len();
    let mut r = try_new(owned, &codec).unwrap();
    let got = next(&mut r, &codec).unwrap().unwrap();
    let col_buf = got.column(0).to_data().buffers()[0].clone();
    let col_ptr = col_buf.as_ptr();
    let inside = (col_ptr as usize) >= (owned_ptr as usize)
        && (col_ptr as usize) < (owned_ptr as usize) + owned_len;
    assert!(inside, "column buffer ptr {col_ptr:?} not inside input allocation");
}

#[test]
fn buffer_stream_reader_empty_buffer_errors() {
    let err = try_new(Buffer::from_vec::<u8>(vec![]), &Codec::default()).unwrap_err();
    assert!(matches!(err, ArrowError::IpcError(_)), "{err:?}");
    assert_eq!(err.to_string(), "Ipc error: Expected schema message, found empty stream.");
}

#[test]
fn buffer_stream_reader_schema_only() {
    let (_, schema) = make_int_batch(0);
    let codec = codec_of(schema.clone(), vec![]);
    let mut r = try_new(Buffer::from_vec(serialize(&codec)), &codec).unwrap();
    assert_eq!(r.schema().as_ref(), schema.as_ref());
    assert!(next(&mut r, &codec).is_none());
}

fn dict_codec() -> (RecordBatch, Codec) {
    let dict_type = DataType::Dictionary(Box::new(DataType::Int32), Box::new(DataType::Utf8));
    let schema = Arc::new(Schema::new(vec![Field::new("d", dict_type, false)]));
    let values: ArrayRef = Arc::new(StringArray::from(vec!["a", "b"]));
    let keys = Int32Array::from(vec![0, 1, 0, 1, 0]);
    let dict = DictionaryArray::<Int32Type>::try_new(keys, values.clone()).unwrap();
    let batch = RecordBatch::try_new(schema.clone(), vec![Arc::new(dict)]).unwrap();
    let mut codec = codec_of(schema, vec![batch.clone()]);
    codec.dictionaries.push(values);
    (batch, codec)
}

#[test]
fn buffer_stream_reader_dict_batch() {
    let (batch, codec) = dict_codec();
    let mut r = try_new(Buffer::from_vec(serialize(&codec)), &codec).unwrap();
    let got = next(&mut r, &codec).unwrap().unwrap();
    assert_eq!(got, batch);
    assert!(next(&mut r, &codec).is_none());
}

#[test]
fn buffer_stream_reader_from_bytes() {
    let (batch, schema) = make_int_batch(4);
    let codec = codec_of(schema, vec![batch.clone()]);
    let bytes = bytes::Bytes::from(serialize(&codec));
    let mut r = go_on(Reader::try_new_from_bytes(bytes).unwrap(), &codec).unwrap();
    assert_eq!(next(&mut r, &codec).unwrap().unwrap(), batch);
}

// ---------------------------------------------------------------
// Pieces and framing
// ---------------------------------------------------------------

/// Decodes pieces one after the other, and gives all batches.
fn drain_pieces(
    decoder: &mut StreamDecoder<ArrayRef>,
    pieces: &[&[u8]],
    codec: &Codec,
) -> Result<Vec<RecordBatch>, ArrowError> {
    let mut batches = Vec::new();
    for piece in pieces {
        let mut buffer = Buffer::from(*piece);
        while !buffer.is_empty() {
            if let Some(batch) = decode(decoder, &mut buffer, codec)? {
                batches.push(batch);
            }
        }
    }
    Ok(batches)
}

fn drain(
    decoder: &mut StreamDecoder<ArrayRef>,
    bytes: &[u8],
    codec: &Codec,
) -> Result<Vec<RecordBatch>, ArrowError> {
    drain_pieces(decoder, &[bytes], codec)
}

#[test]
fn every_cut_into_two_pieces_decodes_alike() {
    let (batch, codec) = dict_codec();
    let bytes = serialize(&codec);
    for k in 0..=bytes.len() {
        let mut decoder = StreamDecoder::new();
        let batches = drain_pieces(&mut decoder, &[&bytes[..k], &bytes[k..]], &codec).unwrap();
        assert_eq!(batches, vec![batch.clone()]);
        assert_eq!(decoder.schema().unwrap(), codec.schemas[0]);
        assert_eq!(decoder.dictionaries().len(), 1);
        assert!(decoder.is_finished());
        assert!(decoder.finish().is_ok());
    }
}

#[test]
fn single_bytes_decode_alike() {
    let (a, schema) = make_int_batch(8);
    let (b, _) = make_int_batch(3);
    let codec = codec_of(schema, vec![a.clone(), b.clone()]);
    let bytes = serialize(&codec);
    let pieces: Vec<&[u8]> = bytes.chunks(1).collect();
    let mut decoder = StreamDecoder::new();
    assert_eq!(drain_pieces(&mut decoder, &pieces, &codec).unwrap(), vec![a, b]);
    assert!(decoder.is_finished());
}

#[test]
fn failures_do_not_depend_on_the_pieces() {
    let (batch, schema) = make_int_batch(2);
    let codec = codec_of(schema, vec![batch]);
    let mut bytes = message(MessageHeader::Schema, 0, &[]);
    bytes.extend(message(MessageHeader::Schema, 0, &[1, 2, 3]));
    bytes.extend_from_slice(&EOS);
    for k in 0..=bytes.len() {
        let mut decoder = StreamDecoder::new();
        let error = drain_pieces(&mut decoder, &[&bytes[..k], &bytes[k..]], &codec).unwrap_err();
        assert_eq!(
            error.to_string(),
            "Ipc error: Not expecting a schema when messages are read"
        );
    }
}

#[test]
fn finish_fails_inside_a_message_or_the_marker() {
    let (batch, schema) = make_int_batch(3);
    let codec = codec_of(schema, vec![batch]);
    let bytes = serialize(&codec);
    let first = 8 + METADATA_LEN;
    let second = first + 8 + METADATA_LEN + 16;
    assert_eq!(bytes.len(), second + 8);
    for k in 0..=bytes.len() {
        let mut decoder = StreamDecoder::new();
        drain(&mut decoder, &bytes[..k], &codec).unwrap();
        let ends = k == 0 || k == first || k == second || k == bytes.len();
        assert_eq!(decoder.finish().is_ok(), ends, "{k}");
        assert_eq!(decoder.schema().is_some(), k >= first, "{k}");
        assert_eq!(decoder.is_finished(), k == bytes.len());
    }
}

#[test]
fn messages_without_a_body_are_decoded_at_once() {
    let (batch, schema) = make_int_batch(0);
    let codec = codec_of(schema, vec![batch.clone()]);
    let mut decoder = StreamDecoder::new();
    let mut buffer = Buffer::from_vec(message(MessageHeader::Schema, 0, &[]));
    assert!(decode(&mut decoder, &mut buffer, &codec).unwrap().is_none());
    assert!(decoder.schema().is_some());
    assert!(decoder.finish().is_ok());
    let mut buffer = Buffer::from_vec(message(MessageHeader::RecordBatch, 0, &[]));
    let got = decode(&mut decoder, &mut buffer, &codec).unwrap();
    assert_eq!(got, Some(batch));
    assert!(buffer.is_empty());
    assert!(decoder.finish().is_ok());
    assert!(!decoder.is_finished());
    let mut buffer = Buffer::from_vec(message(MessageHeader::Schema, 0, &[]));
    let error = decode(&mut decoder, &mut buffer, &codec).unwrap_err();
    assert_eq!(error.to_string(), "Ipc error: Not expecting a schema when messages are read");
}

#[test]
fn empty_buffers_change_nothing() {
    let (batch, schema) = make_int_batch(0);
    let mut codec = codec_of(schema.clone(), vec![batch.clone()]);
    codec.refuse_batches = true;
    let mut bytes = message(MessageHeader::Schema, 0, &[]);
    bytes.extend(message(MessageHeader::RecordBatch, 0, &[]));
    let mut decoder = StreamDecoder::new();
    assert!(drain(&mut decoder, &bytes, &codec).is_err());
    // A message without a body that was refused is tried again with the next byte only.
    for _ in 0..2 {
        let mut empty = Buffer::from_vec::<u8>(vec![]);
        assert!(decoder.can_gather(&empty));
        assert!(decode(&mut decoder, &mut empty, &codec).unwrap().is_none());
        assert_eq!(decoder.schema().unwrap(), schema);
        assert_eq!(decoder.finish(), Err(IpcError::UnexpectedEndOfStream));
    }
    codec.refuse_batches = false;
    let mut buffer = Buffer::from_vec(vec![0xffu8]);
    assert_eq!(decode(&mut decoder, &mut buffer, &codec).unwrap(), Some(batch));
    assert_eq!(buffer.len(), 1);
    assert!(decoder.finish().is_ok());
    assert!(decode(&mut decoder, &mut buffer, &codec).unwrap().is_none());

    let mut finished = StreamDecoder::new();
    drain(&mut finished, &EOS, &codec).unwrap();
    let mut empty = Buffer::from_vec::<u8>(vec![]);
    assert!(decode(&mut finished, &mut empty, &codec).unwrap().is_none());
    assert!(finished.is_finished());
}

#[test]
fn only_a_whole_marker_in_place_of_a_header_finishes() {
    let codec = Codec::default();
    let zeros = frame(&metadata(MessageHeader::NONE, 0, 12), &[0; 12]);
    let mut decoder = StreamDecoder::new();
    drain(&mut decoder, &zeros, &codec).unwrap();
    assert!(!decoder.is_finished());
    drain(&mut decoder, &EOS[..7], &codec).unwrap();
    assert!(!decoder.is_finished());
    drain(&mut decoder, &EOS[7..], &codec).unwrap();
    assert!(decoder.is_finished());
    let mut bare = StreamDecoder::new();
    drain(&mut bare, &[0, 0, 0], &codec).unwrap();
    assert!(!bare.is_finished());
    drain(&mut bare, &[0], &codec).unwrap();
    assert!(bare.is_finished());
}

#[test]
fn continuation_marker_may_be_missing() {
    let (batch, schema) = make_int_batch(5);
    let codec = codec_of(schema, vec![batch.clone()]);
    let body = batch_body(&batch);
    let mut bytes = legacy_frame(&metadata(MessageHeader::Schema, 0, 0), &[]);
    bytes.extend(legacy_frame(
        &metadata(MessageHeader::RecordBatch, 0, body.len() as i64),
        &body,
    ));
    bytes.extend_from_slice(&[0; 4]);
    let mut decoder = StreamDecoder::new();
    assert_eq!(drain(&mut decoder, &bytes, &codec).unwrap(), vec![batch]);
    assert!(decoder.is_finished());
}

#[test]
fn second_marker_is_a_length() {
    let codec = Codec::default();
    let mut decoder = StreamDecoder::new();
    let mut buffer = Buffer::from_vec(vec![0xffu8; 20]);
    assert!(decode(&mut decoder, &mut buffer, &codec).unwrap().is_none());
    assert!(buffer.is_empty());
    assert_eq!(decoder.finish(), Err(IpcError::UnexpectedEndOfStream));
    assert!(!decoder.is_finished());
}

#[test]
fn length_is_little_endian() {
    let mut decoder = StreamDecoder::<ArrayRef>::new();
    let mut bytes = vec![0x01, 0x02, 0, 0];
    bytes.extend((0..0x0202).map(|i| i as u8));
    let mut buffer = Buffer::from_vec(bytes);
    match decoder.decode(&mut buffer) {
        Ok(Some(Work::Message { bytes })) => assert_eq!(bytes.len(), 0x0201),
        other => panic!("{other:?}"),
    }
    assert!(decoder.is_waiting());
    assert_eq!(buffer.len(), 0x0202);
}

#[test]
fn bytes_behind_the_marker_fail() {
    let codec = Codec::default();
    let mut decoder = StreamDecoder::new();
    let mut buffer = Buffer::from_vec(EOS.to_vec());
    assert!(decode(&mut decoder, &mut buffer, &codec).unwrap().is_none());
    assert!(decoder.is_finished());
    for _ in 0..2 {
        let mut more = Buffer::from_vec(vec![1u8, 2]);
        let error = decode(&mut decoder, &mut more, &codec).unwrap_err();
        assert_eq!(error.to_string(), "Ipc error: Unexpected EOS");
        assert_eq!(more.as_slice(), &[1, 2]);
        assert!(decoder.is_finished());
        assert!(decoder.finish().is_ok());
    }
}

// ---------------------------------------------------------------
// Rules of the format
// ---------------------------------------------------------------

#[test]
fn arrays_before_the_schema_fail() {
    for header in [MessageHeader::RecordBatch, MessageHeader::DictionaryBatch] {
        let codec = Codec::default();
        let mut decoder = StreamDecoder::new();
        let mut bytes = message(header, 0, &[1, 2, 3]);
        bytes.push(9);
        let mut buffer = Buffer::from_vec(bytes);
        let error = decode(&mut decoder, &mut buffer, &codec).unwrap_err();
        assert_eq!(error.to_string(), "Ipc error: Missing schema");
        assert_eq!(buffer.as_slice(), &[9]);
        assert!(decoder.finish().is_err());
    }
}

#[test]
fn other_messages_are_not_supported() {
    for (header, name) in [
        (MessageHeader::Tensor, "Tensor"),
        (MessageHeader::SparseTensor, "SparseTensor"),
        (MessageHeader::Unknown(6), "<UNKNOWN 6>"),
        (MessageHeader::Unknown(42), "<UNKNOWN 42>"),
        (MessageHeader::Unknown(209), "<UNKNOWN 209>"),
    ] {
        let codec = Codec::default();
        let mut decoder = StreamDecoder::new();
        let error = drain(&mut decoder, &message(header, 0, &[1]), &codec).unwrap_err();
        assert_eq!(
            error.to_string(),
            format!("Ipc error: Message type unsupported by StreamDecoder: {name}")
        );
    }
}

#[test]
fn descriptions() {
    assert_eq!(
        IpcError::SchemaExpected.description(),
        "Expected schema as first IPC message, got record batch"
    );
    assert_eq!(
        IpcError::SchemaNotFirst.description(),
        "Expected schema as first IPC message, got NONE"
    );
    assert_eq!(IpcError::UnexpectedEos.description(), "Unexpected EOS");
}

#[test]
fn header_names() {
    assert_eq!(MessageHeader::NONE.name(), "NONE");
    assert_eq!(MessageHeader::Schema.name(), "Schema");
    assert_eq!(MessageHeader::DictionaryBatch.name(), "DictionaryBatch");
    assert_eq!(MessageHeader::RecordBatch.name(), "RecordBatch");
    assert_eq!(MessageHeader::Unknown(100).name(), "<UNKNOWN 100>");
}

#[test]
fn messages_without_a_header_are_skipped() {
    let (batch, schema) = make_int_batch(4);
    let codec = codec_of(schema, vec![batch.clone()]);
    let mut bytes = message(MessageHeader::NONE, 0, &[]);
    bytes.extend(message(MessageHeader::NONE, 0, &[1, 2, 3, 4, 5, 6, 7, 8]));
    bytes.extend(serialize(&codec));
    let mut decoder = StreamDecoder::new();
    assert_eq!(drain(&mut decoder, &bytes, &codec).unwrap(), vec![batch]);
}

#[test]
fn messages_without_a_header_have_no_effect() {
    let (a, schema) = make_int_batch(4);
    let (b, _) = make_int_batch(7);
    let codec = codec_of(schema.clone(), vec![a.clone(), b.clone()]);
    let none = message(MessageHeader::NONE, 0, &[1, 2, 3]);
    let parts = [
        message(MessageHeader::Schema, 0, &[]),
        message(MessageHeader::RecordBatch, 0, &batch_body(&a)),
        message(MessageHeader::RecordBatch, 1, &batch_body(&b)),
        EOS.to_vec(),
    ];
    for repeats in 0..3 {
        let mut bytes = Vec::new();
        for part in &parts {
            for _ in 0..repeats {
                bytes.extend_from_slice(&none);
            }
            bytes.extend_from_slice(part);
        }
        let mut decoder = StreamDecoder::new();
        let batches = drain(&mut decoder, &bytes, &codec).unwrap();
        assert_eq!(batches, vec![a.clone(), b.clone()]);
        assert_eq!(decoder.schema().unwrap(), schema);
        assert!(decoder.is_finished());
        assert!(decoder.finish().is_ok());
    }
}

#[test]
fn decoding_stops_right_behind_a_batch() {
    let (batch, schema) = make_int_batch(4);
    let codec = codec_of(schema, vec![batch.clone()]);
    let bytes = serialize(&codec);
    let mut decoder = StreamDecoder::new();
    let mut buffer = Buffer::from_vec(bytes);
    assert_eq!(decode(&mut decoder, &mut buffer, &codec).unwrap(), Some(batch));
    assert_eq!(buffer.as_slice(), &EOS);
}

#[test]
fn refused_metadata_in_place_stays_in_the_buffer() {
    let codec = Codec::default();
    let mut decoder = StreamDecoder::new();
    let mut bytes = frame(&[1, 2, 3], &[]);
    bytes.push(4);
    let mut buffer = Buffer::from_vec(bytes);
    let error = decode(&mut decoder, &mut buffer, &codec).unwrap_err();
    assert_eq!(error.to_string(), "Parser error: Unable to get root as message");
    assert_eq!(buffer.as_slice(), &[1, 2, 3, 4]);
    assert!(decoder.finish().is_err());
}

#[test]
fn refused_metadata_that_was_gathered_is_used_up() {
    let codec = Codec::default();
    let mut decoder = StreamDecoder::new();
    let mut buffer = Buffer::from_vec(frame(&[1, 2, 3], &[]));
    assert!(decode(&mut decoder, &mut buffer, &codec).is_err());
    assert!(buffer.is_empty());
    // The decoder still expects three bytes of metadata.
    let mut buffer = Buffer::from_vec(vec![5u8, 6, 7, 8]);
    match decoder.decode(&mut buffer) {
        Ok(Some(Work::Message { bytes })) => assert_eq!(bytes.as_slice(), &[5, 6, 7]),
        other => panic!("{other:?}"),
    }
}

#[test]
fn refused_batch_uses_up_its_body() {
    let (batch, schema) = make_int_batch(2);
    let mut codec = codec_of(schema, vec![batch.clone()]);
    codec.refuse_batches = true;
    let body = batch_body(&batch);
    let mut bytes = message(MessageHeader::Schema, 0, &[]);
    bytes.extend(message(MessageHeader::RecordBatch, 0, &body));
    bytes.push(9);
    let mut buffer = Buffer::from_vec(bytes);
    let mut decoder = StreamDecoder::new();
    let error = decode(&mut decoder, &mut buffer, &codec).unwrap_err();
    assert_eq!(error.to_string(), "Invalid argument error: bad batch");
    assert_eq!(buffer.as_slice(), &[9]);
    assert!(decoder.finish().is_err());
    // The decoder still expects the body of the batch.
    codec.refuse_batches = false;
    assert_eq!(drain(&mut decoder, &body, &codec).unwrap(), vec![batch]);
    assert!(decoder.finish().is_ok());
}

#[test]
fn refused_dictionary_keeps_the_table() {
    let (_, mut codec) = dict_codec();
    codec.refuse_dictionaries = true;
    let mut decoder = StreamDecoder::new();
    let error = drain(&mut decoder, &serialize(&codec), &codec).unwrap_err();
    assert_eq!(error.to_string(), "Invalid argument error: bad dictionary");
    assert!(decoder.dictionaries().is_empty());
    assert!(decoder.schema().is_some());
}

#[test]
fn dictionaries_go_out_and_come_back() {
    let (_, codec) = dict_codec();
    let mut bytes = message(MessageHeader::Schema, 0, &[]);
    bytes.extend(message(MessageHeader::DictionaryBatch, 0, &[1]));
    bytes.extend(message(MessageHeader::DictionaryBatch, 0, &[2]));
    let mut buffer = Buffer::from_vec(bytes);
    let mut decoder = StreamDecoder::new();
    let mut seen = Vec::new();
    while let Some(work) = decoder.decode(&mut buffer).unwrap() {
        if let Work::DictionaryBatch { dictionaries, body, .. } = &work {
            seen.push((dictionaries.len(), body.as_slice().to_vec()));
            assert!(decoder.dictionaries().is_empty());
        }
        let reply = codec.perform(work, decoder.dictionaries());
        assert!(decoder.resume(&mut buffer, reply).unwrap().is_none());
    }
    assert_eq!(seen, vec![(0, vec![1]), (1, vec![2])]);
    assert_eq!(decoder.dictionaries().len(), 1);
}

#[test]
fn options_reach_the_arrays() {
    let (batch, codec) = dict_codec();
    for (require_alignment, skip_validation) in
        [(false, false), (true, false), (false, true), (true, true)]
    {
        let mut decoder = StreamDecoder::new();
        if require_alignment {
            decoder = decoder.with_require_alignment(true);
        }
        if skip_validation {
            decoder = decoder.with_skip_validation(true);
        }
        let expected = ArrayOptions { require_alignment, skip_validation };
        let mut buffer = Buffer::from_vec(serialize(&codec));
        let mut asked = 0;
        loop {
            let work = decoder.decode(&mut buffer).unwrap().unwrap();
            match &work {
                Work::RecordBatch { options, message, schema, .. } => {
                    assert_eq!(*options, expected);
                    assert_eq!(message.info.version, 4);
                    assert_eq!(message.info.header_type, MessageHeader::RecordBatch);
                    assert_eq!(schema, &codec.schemas[0]);
                    asked += 1;
                }
                Work::DictionaryBatch { options, .. } => {
                    assert_eq!(*options, expected);
                    asked += 1;
                }
                _ => {}
            }
            let reply = codec.perform(work, decoder.dictionaries());
            if let Some(output) = decoder.resume(&mut buffer, reply).unwrap() {
                assert_eq!(output, batch);
                break;
            }
        }
        assert_eq!(asked, 2);
    }
}

#[test]
fn options_can_be_unset() {
    let (batch, schema) = make_int_batch(1);
    let codec = codec_of(schema, vec![batch]);
    let mut decoder = StreamDecoder::default()
        .with_require_alignment(true)
        .with_skip_validation(true)
        .with_skip_validation(false)
        .with_require_alignment(false);
    let mut buffer = Buffer::from_vec(serialize(&codec));
    loop {
        let work = decoder.decode(&mut buffer).unwrap().unwrap();
        if let Work::RecordBatch { options, .. } = &work {
            let expected = ArrayOptions { require_alignment: false, skip_validation: false };
            assert_eq!(*options, expected);
            break;
        }
        let reply = codec.perform(work, decoder.dictionaries());
        assert!(decoder.resume(&mut buffer, reply).unwrap().is_none());
    }
}

#[test]
fn negative_body_length_never_completes() {
    let codec = Codec::default();
    let mut decoder = StreamDecoder::new();
    let mut bytes = frame(&metadata(MessageHeader::NONE, 0, -1), &[]);
    bytes.extend_from_slice(&[0; 100]);
    assert!(drain(&mut decoder, &bytes, &codec).unwrap().is_empty());
    assert!(drain(&mut decoder, &EOS, &codec).unwrap().is_empty());
    assert!(!decoder.is_finished());
    assert_eq!(decoder.finish(), Err(IpcError::UnexpectedEndOfStream));
}

#[test]
fn bodies_in_one_piece_are_slices_of_the_input() {
    let (batch, schema) = make_int_batch(6);
    let codec = codec_of(schema, vec![batch.clone()]);
    let bytes = serialize(&codec);
    let whole = Buffer::from_vec(bytes.clone());
    for split in [false, true] {
        let mut decoder = StreamDecoder::new();
        let mut pieces = if split {
            let cut = bytes.len() - 12;
            vec![whole.slice_with_length(0, cut), whole.slice_with_length(cut, 12)]
        } else {
            vec![whole.clone()]
        };
        let mut checked = false;
        for piece in &mut pieces {
            while let Some(work) = decoder.decode(piece).unwrap() {
                if let Work::RecordBatch { body, .. } = &work {
                    assert_eq!(body.as_slice(), batch_body(&batch).as_slice());
                    let shared = body.data_ptr() == whole.data_ptr();
                    assert_eq!(shared, !split);
                    checked = true;
                }
                let reply = codec.perform(work, decoder.dictionaries());
                decoder.resume(piece, reply).unwrap();
            }
        }
        assert!(checked);
    }
}

#[test]
fn gathering_has_room() {
    let mut decoder = StreamDecoder::<ArrayRef>::new();
    let mut buffer = Buffer::from_vec(frame(&[1; 10], &[])[..12].to_vec());
    assert!(decoder.can_gather(&buffer));
    assert!(decoder.decode(&mut buffer).unwrap().is_none());
    assert!(decoder.can_gather(&Buffer::from_vec(vec![0u8; 4096])));
    assert!(!decoder.is_waiting());
}

// ---------------------------------------------------------------
// More of the reader
// ---------------------------------------------------------------

#[test]
fn reader_keeps_the_batch_that_came_with_the_schema() {
    let (batch, schema) = make_int_batch(4);
    let codec = codec_of(schema, vec![batch.clone()]);
    let mut bytes = serialize(&codec);
    bytes.truncate(bytes.len() - EOS.len());
    let mut r = try_new(Buffer::from_vec(bytes), &codec).unwrap();
    assert!(!r.is_finished());
    assert!(!r.is_waiting());
    match r.next() {
        Some(Ok(Progress::Batch(got))) => assert_eq!(got, batch),
        other => panic!("{other:?}"),
    }
    assert!(next(&mut r, &codec).is_none());
    // No end-of-stream marker was there.
    assert!(!r.is_finished());
}

#[test]
fn reader_agrees_with_the_decoder() {
    let (a, schema) = make_int_batch(8);
    let (b, _) = make_int_batch(5);
    let codec = codec_of(schema, vec![a, b]);
    let bytes = serialize(&codec);
    let mut decoder = StreamDecoder::new();
    let expected = drain(&mut decoder, &bytes, &codec).unwrap();
    let mut r = try_new(Buffer::from_vec(bytes), &codec).unwrap();
    let mut collected = Vec::new();
    while let Some(batch) = next(&mut r, &codec) {
        collected.push(batch.unwrap());
    }
    assert_eq!(collected, expected);
    for _ in 0..3 {
        assert!(next(&mut r, &codec).is_none());
        assert!(r.is_finished());
    }
}

#[test]
fn reader_fails_on_bytes_behind_the_marker() {
    let (batch, schema) = make_int_batch(4);
    let codec = codec_of(schema, vec![batch.clone()]);
    let mut bytes = serialize(&codec);
    bytes.push(1);
    let mut r = try_new(Buffer::from_vec(bytes), &codec).unwrap();
    assert_eq!(next(&mut r, &codec).unwrap().unwrap(), batch);
    let error = next(&mut r, &codec).unwrap().unwrap_err();
    assert_eq!(error.to_string(), "Ipc error: Unexpected EOS");
    assert!(next(&mut r, &codec).is_none());
}

#[test]
fn reader_fails_on_a_batch() {
    let (batch, schema) = make_int_batch(4);
    let mut codec = codec_of(schema, vec![batch.clone(), batch.clone()]);
    let mut r = try_new(Buffer::from_vec(serialize(&codec)), &codec).unwrap();
    codec.refuse_batches = true;
    assert_eq!(next(&mut r, &codec).unwrap().unwrap(), batch);
    let error = next(&mut r, &codec).unwrap().unwrap_err();
    assert_eq!(error.to_string(), "Invalid argument error: bad batch");
    assert_eq!(r.schema().as_ref(), codec.schemas[0].as_ref());
}

#[test]
fn opening_fails() {
    let (batch, schema) = make_int_batch(4);
    let mut codec = codec_of(schema, vec![batch]);

    let error = try_new(Buffer::from_vec(EOS.to_vec()), &codec).unwrap_err();
    assert_eq!(error.to_string(), "Ipc error: Expected schema message, found empty stream.");

    let mut bytes = EOS.to_vec();
    bytes.push(0);
    let error = try_new(Buffer::from_vec(bytes), &codec).unwrap_err();
    assert_eq!(error.to_string(), "Ipc error: Unexpected EOS");

    let bytes = message(MessageHeader::RecordBatch, 0, &[1]);
    let error = try_new(Buffer::from_vec(bytes), &codec).unwrap_err();
    assert_eq!(error.to_string(), "Ipc error: Missing schema");

    let error = try_new(Buffer::from_vec(frame(&[1, 2], &[3])), &codec).unwrap_err();
    assert_eq!(error.to_string(), "Parser error: Unable to get root as message");

    codec.refuse_batches = true;
    let error = try_new(Buffer::from_vec(serialize(&codec)), &codec).unwrap_err();
    assert_eq!(error.to_string(), "Invalid argument error: bad batch");
}

#[test]
fn opening_fails_on_bytes_that_are_cut_short() {
    let (_, schema) = make_int_batch(0);
    let codec = codec_of(schema, vec![]);
    let bytes = serialize(&codec);
    let message_len = 8 + METADATA_LEN;
    for k in 0..bytes.len() {
        let result = try_new(Buffer::from_vec(bytes[..k].to_vec()), &codec);
        assert_eq!(result.is_ok(), k >= message_len);
    }
}

#[test]
fn schema_alone_opens() {
    let (_, schema) = make_int_batch(0);
    let codec = codec_of(schema.clone(), vec![]);
    let bytes = message(MessageHeader::Schema, 0, &[]);
    let mut r = try_new(Buffer::from_vec(bytes), &codec).unwrap();
    assert_eq!(r.schema().as_ref(), schema.as_ref());
    assert!(next(&mut r, &codec).is_none());
    assert!(!r.is_finished());
}

#[test]
fn opening_refuses_a_message_without_a_header() {
    let (batch, schema) = make_int_batch(4);
    let codec = codec_of(schema, vec![batch]);
    for body in [&[][..], &[1, 2, 3, 4, 5, 6, 7, 8][..]] {
        let first = message(MessageHeader::NONE, 0, body);
        let open = |rest: &[u8]| {
            let mut bytes = first.clone();
            bytes.extend_from_slice(rest);
            try_new(Buffer::from_vec(bytes), &codec).unwrap_err().to_string()
        };
        let not_first = "Ipc error: Expected schema as first IPC message, got NONE";
        assert_eq!(open(&serialize(&codec)), not_first);
        assert_eq!(open(&message(MessageHeader::Schema, 0, &[])), not_first);

        // Without a schema behind it, such a message leaves the stream empty.
        let empty = "Ipc error: Expected schema message, found empty stream.";
        assert_eq!(open(&[]), empty);
        assert_eq!(open(&EOS), empty);
        assert_eq!(open(&message(MessageHeader::NONE, 0, &[1])), empty);
        for k in 0..first.len() {
            let cut = Buffer::from_vec(first[..k].to_vec());
            assert_eq!(try_new(cut, &codec).unwrap_err().to_string(), empty);
        }

        // What fails behind it is the failure.
        let batch = message(MessageHeader::RecordBatch, 0, &[1]);
        assert_eq!(open(&batch), "Ipc error: Missing schema");
        let mut after_eos = EOS.to_vec();
        after_eos.push(1);
        assert_eq!(open(&after_eos), "Ipc error: Unexpected EOS");
        assert_eq!(
            open(&frame(&[1, 2], &[3])),
            "Parser error: Unable to get root as message"
        );
        let mut twice = message(MessageHeader::Schema, 0, &[]);
        twice.extend(message(MessageHeader::Schema, 0, &[]));
        assert_eq!(
            open(&twice),
            "Ipc error: Not expecting a schema when messages are read"
        );
    }
}

#[test]
fn reader_skips_a_message_without_a_header_behind_the_schema() {
    let (batch, schema) = make_int_batch(4);
    let codec = codec_of(schema, vec![batch.clone()]);
    let mut bytes = message(MessageHeader::Schema, 0, &[]);
    bytes.extend(message(MessageHeader::NONE, 0, &[]));
    bytes.extend(message(MessageHeader::NONE, 0, &[1, 2, 3, 4, 5, 6, 7, 8]));
    bytes.extend(message(MessageHeader::RecordBatch, 0, &batch_body(&batch)));
    bytes.extend_from_slice(&EOS);
    let mut r = try_new(Buffer::from_vec(bytes), &codec).unwrap();
    assert_eq!(next(&mut r, &codec).unwrap().unwrap(), batch);
    assert!(next(&mut r, &codec).is_none());
    assert!(r.is_finished());
}

#[test]
fn bytes_that_fit_are_opened() {
    let (batch, schema) = make_int_batch(4);
    let codec = codec_of(schema, vec![batch.clone()]);
    let bytes = bytes::Bytes::from(serialize(&codec));
    let opened = Reader::checked_new_from_bytes(bytes).unwrap().unwrap();
    let mut r = go_on(opened, &codec).unwrap();
    assert_eq!(next(&mut r, &codec).unwrap().unwrap(), batch);
    let empty = Reader::checked_new_from_bytes(bytes::Bytes::new()).unwrap();
    assert!(matches!(empty, Err(IpcError::EmptyStream)));
}
