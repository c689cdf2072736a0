//! A file: a header of creation time and author, and a grid of numbers.
//!
//! On the wire a file is three values in a fixed order, with no names: the
//! time as `UInt64`, the author as `Text`, the grid as nested sequences. The
//! byte stream of the three is then compressed as a whole.

use crate::decode::{decoded, DecodeError, Deserializer, DEFAULT_MAX_DEPTH};
use crate::encode::{all_encodable, stream, EncodeError, Serializer};
use crate::grid::{grid_of, grid_value, is_grid, matrix3d_to_value, value_to_matrix3d, Matrix3D};
use crate::value::{lemma_models, Value, ValueView};
use crate::zlib::{deflate, inflate, zlib_deflated, zlib_inflated};
use vstd::prelude::*;

verus! {

/// When a file was made, and by whom.
#[derive(Debug, PartialEq, Eq)]
pub struct Header {
    /// Seconds since the start of 1970, UTC.
    pub time: u64,
    /// The author's name.
    pub name: String,
}

/// A header and the grid that it describes.
#[derive(Debug, PartialEq, Eq)]
pub struct File {
    pub header: Header,
    pub data: Matrix3D<i32>,
}

/// What a [`File`] stands for.
pub struct FileView {
    pub time: u64,
    pub name: Seq<char>,
    pub data: Seq<Seq<Seq<i32>>>,
}

impl View for File {
    type V = FileView;

    open spec fn view(&self) -> FileView {
        FileView { time: self.header.time, name: self.header.name@, data: self.data.deep_view() }
    }
}

/// The three values that a file is written as, in their order.
pub open spec fn file_values(file: FileView) -> Seq<ValueView> {
    seq![ValueView::UInt64(file.time), ValueView::Text(file.name), grid_value(file.data)]
}

/// The file that a list of values stands for: its first three values are a
/// `UInt64`, a `Text` and a grid. Values behind the third are not looked at.
pub open spec fn values_file(values: Seq<ValueView>) -> Option<FileView> {
    if values.len() >= 3 && values[0] is UInt64 && values[1] is Text && is_grid(values[2]) {
        Some(
            FileView {
                time: values[0]->UInt64_0,
                name: values[1]->Text_0,
                data: grid_of(values[2]),
            },
        )
    } else {
        None
    }
}

/// Why a file could not be written.
#[derive(Debug, Clone, Copy, PartialEq, Eq, Structural)]
pub enum GenerateError {
    /// The values could not be encoded.
    Encode(EncodeError),
    /// The compressor reported an error.
    Compress,
}

/// Why bytes could not be read as a file.
#[derive(Debug, Clone, Copy, PartialEq, Eq, Structural)]
pub enum ReadError {
    /// The bytes are no zlib stream that the decompressor accepts.
    Inflate,
    /// The decompressed bytes are not well-formed wire format.
    Codec(DecodeError),
    /// The bytes decode, but not to a time, a name and a grid.
    Shape,
}

/// The file that the uncompressed bytes `bytes` hold, or why they hold none.
pub open spec fn file_decoded(bytes: Seq<u8>) -> Result<FileView, ReadError> {
    match decoded(bytes, DEFAULT_MAX_DEPTH as nat) {
        Err(e) => Err(ReadError::Codec(e)),
        Ok(values) => match values_file(values) {
            Some(file) => Ok(file),
            None => Err(ReadError::Shape),
        },
    }
}

/// What a reader's result says in terms of the model.
pub open spec fn file_outcome(r: Result<File, ReadError>) -> Result<FileView, ReadError> {
    match r {
        Ok(file) => Ok(file@),
        Err(e) => Err(e),
    }
}

/// The uncompressed bytes of `file`: the encoding of its three values. This
/// never fails, and every length prefix among the bytes fits its field.
pub fn encode_file(file: File) -> (r: Result<Vec<u8>, EncodeError>)
    ensures
        r matches Ok(bytes) && bytes@ == stream(file_values(file@)),
        all_encodable(file_values(file@)),
{
    let mut serializer = Serializer::new();
    serializer.add(Value::UInt64(file.header.time));
    serializer.add(Value::Text(file.header.name));
    serializer.add(matrix3d_to_value(file.data));
    assert(serializer@ =~= file_values(file@));
    serializer.serialize()
}

/// Decodes uncompressed bytes and reads the values as a file.
pub fn decode_file(bytes: Vec<u8>) -> (r: Result<File, ReadError>)
    ensures
        file_outcome(r) == file_decoded(bytes@),
{
    let mut values = match Deserializer::new(bytes).deserialize() {
        Ok(values) => values,
        Err(e) => {
            return Err(ReadError::Codec(e));
        },
    };
    proof {
        lemma_models(values@);
    }
    if values.len() < 3 {
        return Err(ReadError::Shape);
    }
    values.truncate(3);
    let third = values.pop();
    let second = values.pop();
    let first = values.pop();
    match (first, second, third) {
        (Some(Value::UInt64(time)), Some(Value::Text(name)), Some(grid)) => {
            match value_to_matrix3d(grid) {
                Ok(data) => Ok(File { header: Header { time, name }, data }),
                Err(_) => Err(ReadError::Shape),
            }
        },
        _ => Err(ReadError::Shape),
    }
}

/// The bytes that a file of `time`, `name` and `data` is stored as: the
/// encoding of its three values, compressed; or `None` where the compressor
/// reports an error on that encoding.
pub open spec fn stored(time: u64, name: Seq<char>, data: Seq<Seq<Seq<i32>>>) -> Option<Seq<u8>> {
    zlib_deflated(stream(file_values(FileView { time, name, data })))
}

/// What a writer's result says in terms of the model: the bytes, or that
/// there are none.
pub open spec fn written(r: Result<Vec<u8>, GenerateError>) -> Option<Seq<u8>> {
    match r {
        Ok(bytes) => Some(bytes@),
        Err(_) => None,
    }
}

/// The time stamp of a file made `seconds` after the start of 1970. A clock
/// that stands before 1970 wraps around to a time far ahead.
pub fn stamp(seconds: i64) -> (time: u64)
    ensures
        seconds >= 0 ==> time == seconds,
        seconds < 0 ==> time == seconds + 0x1_0000_0000_0000_0000,
{
    if seconds >= 0 {
        seconds as u64
    } else {
        let below: u64 = (-(seconds + 1)) as u64;
        u64::MAX - below
    }
}

/// The bytes of a new file: `matrix` under a header of `time` and `name`,
/// encoded and then compressed. It succeeds exactly where the compressor
/// does, and then gives the compressor's bytes; the only failure is the
/// compressor's.
pub fn generate(matrix: Matrix3D<i32>, time: u64, name: String) -> (r: Result<
    Vec<u8>,
    GenerateError,
>)
    ensures
        written(r) == stored(time, name@, matrix.deep_view()),
        r matches Err(e) ==> e == GenerateError::Compress,
{
    let header = Header { time, name };
    let file = File { header, data: matrix };
    let serialized = match encode_file(file) {
        Ok(bytes) => bytes,
        Err(e) => {
            return Err(GenerateError::Encode(e));
        },
    };
    match deflate(serialized.as_slice()) {
        Ok(compressed) => Ok(compressed),
        Err(_) => Err(GenerateError::Compress),
    }
}

/// The file that the compressed bytes hold: they are decompressed, decoded
/// and read as a time, a name and a grid.
pub fn read(compressed: &[u8]) -> (r: Result<File, ReadError>)
    ensures
        file_outcome(r) == match zlib_inflated(compressed@) {
            Some(bytes) => file_decoded(bytes),
            None => Err(ReadError::Inflate),
        },
{
    match inflate(compressed) {
        Ok(decompressed) => decode_file(decompressed),
        Err(_) => Err(ReadError::Inflate),
    }
}

} // verus!
