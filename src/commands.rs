//! The operations behind the command line: hide a message in a new chunk,
//! read it back, take a chunk out. Each works on a whole file's bytes.

use crate::chunk::{Chunk, ChunkView};
use crate::chunk_type::{is_type_code, ChunkType, ChunkTypeError};
use crate::png::{decode_png, encode_png, is_first_match, no_match, Png, PngError};
use vstd::prelude::*;
use vstd::string::StringSliceAdditionalSpecFns;
use vstd::utf8::*;

verus! {

/// The command line: one subcommand.
#[derive(Debug, Clone)]
pub struct Args {
    pub cmd: Commands,
}

/// What the program is asked to do, with paths as text.
#[derive(Debug, Clone)]
pub enum Commands {
    /// Hide `message` in a new chunk of type `chunk_type`, writing the file
    /// to `output` or back to `path`.
    Encode { path: String, chunk_type: String, message: String, output: Option<String> },
    /// Show the message in the first chunk of type `chunk_type`.
    Decode { path: String, chunk_type: String },
    /// Take out the first chunk of type `chunk_type`.
    Remove { path: String, chunk_type: String },
    /// Show every chunk of the file.
    Print { path: String },
}

/// Why a command could not be carried out.
#[derive(Debug, PartialEq, Eq, Clone, Copy, Structural)]
pub enum CommandError {
    /// The file could not be read, or has no chunk of the requested type.
    Png(PngError),
    /// The requested chunk type is not a valid code.
    ChunkType(ChunkTypeError),
}

/// The code that a chunk type given as text stands for, or why it is refused.
pub open spec fn parse_type_code(name: Seq<u8>) -> Result<Seq<u8>, ChunkTypeError> {
    if name.len() != 4 {
        Err(ChunkTypeError::InvalidLength)
    } else if !is_type_code(name) {
        Err(ChunkTypeError::NonAlphabetic)
    } else {
        Ok(name)
    }
}

/// Adds a chunk of type `chunk_type` holding `message` at the end of the PNG
/// file `file`, and returns the new file's bytes.
pub fn encode_message(file: &[u8], chunk_type: &str, message: &str) -> (r: Result<
    Vec<u8>,
    CommandError,
>)
    requires
        message.spec_bytes().len() <= u32::MAX,
    ensures
        decode_png(file@) matches Err(e) ==> r == Err::<Vec<u8>, CommandError>(
            CommandError::Png(e),
        ),
        decode_png(file@) is Ok ==> (parse_type_code(chunk_type.spec_bytes()) matches Err(e) ==> r
            == Err::<Vec<u8>, CommandError>(CommandError::ChunkType(e))),
        decode_png(file@) matches Ok(s) ==> (parse_type_code(chunk_type.spec_bytes()) matches Ok(
            k,
        ) ==> (r matches Ok(out) && out@ == encode_png(
            s.push(ChunkView { kind: k, data: message.spec_bytes() }),
        ))),
{
    let mut png = match Png::try_from(file) {
        Ok(p) => p,
        Err(e) => {
            return Err(CommandError::Png(e));
        },
    };
    let kind = match ChunkType::from_str(chunk_type) {
        Ok(t) => t,
        Err(e) => {
            return Err(CommandError::ChunkType(e));
        },
    };
    let data = vstd::slice::slice_to_vec(message.as_bytes());
    let chunk = Chunk::new(kind, data);
    png.append_chunk(chunk);
    Ok(png.as_bytes())
}

/// The message in the first chunk of type `chunk_type` of the PNG file
/// `file`: `Some` text where its data is UTF-8, else `None`.
pub fn decode_message(file: &[u8], chunk_type: &str) -> (r: Result<Option<String>, PngError>)
    ensures
        decode_png(file@) matches Err(e) ==> r == Err::<Option<String>, PngError>(e),
        decode_png(file@) matches Ok(s) ==> {
            &&& r is Err <==> no_match(s, chunk_type.spec_bytes())
            &&& r matches Err(e) ==> e == PngError::ChunkTypeNotFound
            &&& r matches Ok(t) ==> exists|i: int|
                is_first_match(s, chunk_type.spec_bytes(), i) && (t is Some <==> valid_utf8(
                    s[i].data,
                )) && (t matches Some(text) ==> text@ == decode_utf8(s[i].data))
        },
{
    let png = match Png::try_from(file) {
        Ok(p) => p,
        Err(e) => {
            return Err(e);
        },
    };
    match png.chunk_by_type(chunk_type) {
        Some(chunk) => match chunk.data_as_string() {
            Ok(text) => Ok(Some(text)),
            Err(_) => Ok(None),
        },
        None => Err(PngError::ChunkTypeNotFound),
    }
}

/// Takes the first chunk of type `chunk_type` out of the PNG file `file`,
/// and returns the new file's bytes.
pub fn remove_chunk(file: &[u8], chunk_type: &str) -> (r: Result<Vec<u8>, PngError>)
    ensures
        decode_png(file@) matches Err(e) ==> r == Err::<Vec<u8>, PngError>(e),
        decode_png(file@) matches Ok(s) ==> {
            &&& r is Err <==> no_match(s, chunk_type.spec_bytes())
            &&& r matches Err(e) ==> e == PngError::ChunkTypeNotFound
            &&& r matches Ok(out) ==> exists|i: int|
                is_first_match(s, chunk_type.spec_bytes(), i) && out@ == encode_png(s.remove(i))
        },
{
    let mut png = match Png::try_from(file) {
        Ok(p) => p,
        Err(e) => {
            return Err(e);
        },
    };
    match png.remove_first_chunk(chunk_type) {
        Ok(_) => Ok(png.as_bytes()),
        Err(e) => Err(e),
    }
}

} // verus!
