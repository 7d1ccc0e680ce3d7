//! Streaming compression and decompression behind one codec-agnostic
//! interface.
//!
//! A codec is anything that implements [`decoder::Interface`] or
//! [`encoder::Interface`]. A [`Decoder`] or [`Encoder`] handle owns one such
//! instance and drives it chunk by chunk; every call reports how much of the
//! input and of the output buffer is left, and a status. The caller owns the
//! buffers. The functions whose names end in `_full` grow a vector as
//! [`growth::GrowthPolicy`] says and hand a failed reservation back to the
//! caller; those whose names end in `_buf` write into a `BytesMut`, which
//! grows by itself; no other function allocates.
//!
//! Contracts are stated over the transcript of a handle
//! ([`decoder::Transcript`], [`encoder::Transcript`]): the record of every
//! call that reached the codec through it, with what the codec was offered
//! and what it answered. What a codec makes of its input is its own
//! business, and has a name: the `answer` of its interface. What the library
//! answers for is that a handle returns the codec's answer as it is, that the
//! codec is offered the input in order and without gaps, and that all it
//! writes ends up where the caller asked. Of the Brotli codecs, which the
//! crate brings, the answer is known to depend on nothing but the calls made
//! since the handle was made or last reset, so that a handle that was reset
//! behaves as a new one. For the encoder this rests on `brotli` being built
//! with its feature `portable-float`, as this crate builds it: the bytes
//! that the encoder writes are then the same on every machine.
//!
//! A handle whose reset has failed is of no further use: every call on a
//! handle asks for one that is usable.
//!
//! - [`decoder`], [`encoder`]: the interfaces, the handles, and what each
//!   codec needs besides: options, and the reading of its return codes.
//!   [`decoder::Detection`] tells the common containers apart by their first
//!   bytes.
//! - [`buffer`]: a fixed buffer to decode into without a heap.
//! - [`compressor`], [`decompressor`]: pushing chunks into memory or into a
//!   [`sink::Sink`].
//! - [`mem`]: sizes for an allocator to hand to codecs written in C.
pub mod buf;
pub mod buffer;
pub mod compressor;
pub mod decoder;
pub mod decompressor;
pub mod encoder;
pub mod growth;
pub mod mem;
pub mod sink;

pub use buffer::Buffer;
pub use decoder::{Decode, DecodeError, DecodeStatus, Decoder, Detection};
pub use encoder::{Encode, EncodeOp, EncodeStatus, Encoder};
