//! A tagged-value codec: nested values of four kinds are written as a flat,
//! self-describing byte stream and read back, with every function specified
//! against a mathematical model of the wire format.

pub mod decode;
pub mod encode;
pub mod endian;
pub mod grid;
pub mod laws;
pub mod record;
pub mod value;
pub mod zlib;

pub use decode::{DecodeError, Deserializer, DEFAULT_MAX_DEPTH};
pub use encode::{EncodeError, Serializer};
pub use grid::{matrix3d_to_value, value_to_matrix3d, Matrix3D, ShapeMismatch};
pub use record::{
    decode_file, encode_file, generate, read, stamp, File, GenerateError, Header, ReadError,
};
pub use value::{OpCode, Value};
