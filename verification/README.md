# arrow_ipc_stream

Incremental decoding of the Arrow IPC streaming format, verified with Verus.

- `StreamDecoder` takes a stream in pieces of any size.
- `BufferStreamReader` takes a stream that is in memory.

Both ask for what they do not do themselves (to read the metadata of a message, to convert a
schema, to build arrays) with `Work`, and take the result as `Reply`.

| Module | Contents |
| --- | --- |
| `buffers` | the byte buffers of `arrow_buffer` and `bytes`, trusted |
| `message`, `error`, `work` | messages, failures, and the exchange with the caller |
| `model` | what a decoder does with its input, over sequences of bytes |
| `decoder`, `reader` | the executable decoder and reader |
| `run` | whole runs, given code that does the work |
| `laws` | runs do not depend on how a stream is cut, schemas come first and once |
| `framing` | streams that are written message by message are read back, and how they end |
| `reading` | streams open if they start with their schema, and readers give what they hold, in order |

`app/` puts the record batches and arrays of `arrow_array` on top.
