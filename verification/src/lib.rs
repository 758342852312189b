//! Codec for MSC script containers: a header, one blob of bytecode scripts
//! located through an offset table, and a table of fixed-size string slots.
//!
//! The instruction model lives in [`cmd`], the opcode table in [`opcode`],
//! the byte-order primitives in [`wire`], and the container codec in
//! [`mscb_file`]: its byte layout in [`mscb_file::format`], the decoder in
//! [`mscb_file::parser`], the encoder in [`mscb_file::writer`], and what is
//! proved of them in [`mscb_file::laws`].
//!
//! Where the format leaves a choice, it is made as follows.
//!
//! - Scripts are kept in the order of their bytes. The offset table of a
//!   file may name them in another order; decoding sorts the offsets, and
//!   encoding writes them as the scripts stand. The order of the table of a
//!   decoded file is therefore not kept.
//! - The slot length of the string table is the least multiple of 16 that
//!   is greater than the byte length of every string, so that each slot has
//!   room for the zero byte that ends its text.
//! - The position of an instruction counts from the start of its script.
//!   The offset of a decoding error counts from the start of the script
//!   data.
//! - The header is 52 bytes long: a reserved field of four bytes stands
//!   between the tag and the six fields. The zero bytes that bring the
//!   offset table and the string slots to a 16-byte boundary are counted
//!   from the start of the container.

pub mod cmd;
pub mod error;
pub mod mscb_file;
pub mod opcode;
pub mod wire;

pub use cmd::{Cmd, Command, Script};
pub use error::{DecodeError, EncodeError};
pub use mscb_file::MscsbFile;
