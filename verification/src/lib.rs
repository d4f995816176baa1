//! Codec and container model for the PNG chunk format.
//!
//! A PNG file is an eight-byte signature followed by chunks. Each chunk is a
//! frame of a big-endian length, a four-letter type code, a payload and a
//! CRC-32 over type and payload. This crate decodes such frames, rebuilds
//! them byte for byte, and keeps an ordered, editable list of chunks so that
//! a message can be hidden in, read from, or removed from an image.
//!
//! - [`chunk_type`]: the four-letter type code and its flags.
//! - [`chunk`]: one chunk, its frame, and what a frame decodes to.
//! - [`png`]: a file as a list of chunks, with lookup, append and removal.
//! - [`commands`]: hiding, reading, removing and listing, on a file's bytes.
//! - [`be32`], [`checksum`], [`text`]: big-endian numbers, the CRC-32, and
//!   bytes as text.
//!
//! Every function carries a contract over plain sequences of bytes, and the
//! laws that tie decoding and encoding together are proved beside them.

pub mod be32;
pub mod checksum;
pub mod chunk;
pub mod chunk_type;
pub mod commands;
pub mod png;
pub mod text;
