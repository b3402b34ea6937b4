//! A codec for the Bin_prot wire format: a compact binary serialization
//! that does not describe itself.
//!
//! The crate works on byte strings. It encodes and decodes the primitive
//! shapes of the format (unit, booleans, characters, variable-length
//! integers, floats as bit patterns), offers the steps from which typed
//! values are composed (option tags, sequence lengths, variant selectors),
//! and writes and reads loosely typed [`Value`]s under the guidance of a
//! layout, a [`BinProtRule`].
//!
//! Every function states its result over mathematical models: byte
//! sequences, integers, and the views of [`Value`] and [`BinProtRule`].
//! What a byte sequence holds is said by the `parse_*` functions, what a
//! value becomes on the wire by the `*_bytes` functions, and the round-trip
//! lemmas say that the two are inverse to one another.
//!
//! Little-endian fields are converted by the `byteorder` crate and
//! integers are fitted to narrower types by the `num` crate; the contracts
//! assumed of those calls stand in [`endian`] and [`narrow`].

pub mod consts;
pub mod de;
pub mod endian;
pub mod error;
pub mod integers;
pub mod narrow;
pub mod nat0;
pub mod primitives;
pub mod read_ext;
pub mod ser;
pub mod value;
pub mod write_ext;

pub use de::Deserializer;
pub use error::{Error, ErrorCode};
pub use read_ext::ReadBinProtExt;
pub use ser::Serializer;
pub use value::de::from_reader_with_layout;
pub use value::layout::BinProtRule;
pub use value::ser::to_writer;
pub use value::Value;
pub use write_ext::WriteBinProtExt;
