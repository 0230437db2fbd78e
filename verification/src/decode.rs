//! From the bytes of a compressed input file to its text, and the errors of
//! loading a file.

use std::io::Read;
use vstd::prelude::*;
use vstd::string::StringExecFns;
use vstd::utf8::decode_utf8;
use vstd::utf8::valid_utf8;

verus! {

/// What decompressing a sequence of bytes as one xz stream gives: the
/// decompressed bytes, or nothing where the bytes are no valid stream.
pub uninterp spec fn xz_decoded(compressed: Seq<u8>) -> Option<Seq<u8>>;

/// Trusted: `xz2::read::XzDecoder` on a slice of bytes, read to its end. The
/// result is what decompressing the bytes as one xz stream gives; it depends
/// on the bytes alone. Any error of the decoder counts as no result.
#[verifier::external_body]
fn xz_decode(compressed: &Vec<u8>) -> (r: Option<Vec<u8>>)
    ensures
        match r {
            Some(bytes) => xz_decoded(compressed@) == Some(bytes@),
            None => xz_decoded(compressed@) is None,
        },
{
    let mut bytes = Vec::new();
    match xz2::read::XzDecoder::new(compressed.as_slice()).read_to_end(&mut bytes) {
        Ok(_) => Some(bytes),
        Err(_) => None,
    }
}

/// Trusted: `String::from_utf8`. Bytes that are valid UTF-8 give the text
/// they encode; any others give nothing.
#[verifier::external_body]
fn text_from_utf8(bytes: Vec<u8>) -> (r: Option<String>)
    ensures
        match r {
            Some(text) => valid_utf8(bytes@) && text@ == decode_utf8(bytes@),
            None => !valid_utf8(bytes@),
        },
{
    match String::from_utf8(bytes) {
        Ok(text) => Some(text),
        Err(_) => None,
    }
}

/// Why an input file could not be loaded.
#[derive(Debug)]
pub enum LoadError {
    /// The file could not be read.
    Read,
    /// The file is no valid xz stream.
    Decompress,
    /// The decompressed bytes are no valid UTF-8.
    Utf8,
    /// The text is not a list of encounter records; with the reason.
    Parse(String),
    /// A record of the file could not be judged by the filter.
    Filter,
}

/// The text of a decompressed file: the text that the bytes encode, or the
/// error of the step that failed.
pub open spec fn text_of(decoded: Option<Seq<u8>>) -> Result<Seq<char>, LoadError> {
    match decoded {
        None => Err(LoadError::Decompress),
        Some(bytes) => if valid_utf8(bytes) {
            Ok(decode_utf8(bytes))
        } else {
            Err(LoadError::Utf8)
        },
    }
}

/// The model of the result of decoding.
pub open spec fn text_model(r: Result<String, LoadError>) -> Result<Seq<char>, LoadError> {
    match r {
        Ok(text) => Ok(text@),
        Err(e) => Err(e),
    }
}

/// The model of decompressed bytes.
pub open spec fn bytes_model(decoded: Option<Vec<u8>>) -> Option<Seq<u8>> {
    match decoded {
        Some(bytes) => Some(bytes@),
        None => None,
    }
}

/// The text of a decompressed file: given the outcome of decompression, the
/// text that the bytes encode. Fails where decompression gave nothing, and
/// where the bytes are no valid UTF-8.
pub fn text_of_decoded(decoded: Option<Vec<u8>>) -> (r: Result<String, LoadError>)
    ensures
        text_model(r) == text_of(bytes_model(decoded)),
{
    match decoded {
        None => Err(LoadError::Decompress),
        Some(bytes) => match text_from_utf8(bytes) {
            Some(text) => Ok(text),
            None => Err(LoadError::Utf8),
        },
    }
}

/// The text of a compressed file: its bytes decompressed as one xz stream
/// and read as UTF-8.
pub fn decode_text(compressed: &Vec<u8>) -> (r: Result<String, LoadError>)
    ensures
        text_model(r) == text_of(xz_decoded(compressed@)),
{
    text_of_decoded(xz_decode(compressed))
}

/// The message of a loading error, for the file it happened on.
pub open spec fn message_text(error: LoadError, filename: Seq<char>) -> Seq<char> {
    match error {
        LoadError::Read => "Unable to open "@ + filename,
        LoadError::Decompress => "Unable to decompress "@ + filename,
        LoadError::Utf8 => "UTF8 invalid "@ + filename,
        LoadError::Parse(reason) => "Unable to parse "@ + filename + ": "@ + reason@,
        LoadError::Filter => "Unable to filter "@ + filename,
    }
}

impl LoadError {
    /// The message of the error, for the file it happened on.
    pub fn message(&self, filename: &str) -> (r: String)
        ensures
            r@ == message_text(*self, filename@),
    {
        match self {
            LoadError::Read => {
                let mut r = String::from_str("Unable to open ");
                r.append(filename);
                r
            },
            LoadError::Decompress => {
                let mut r = String::from_str("Unable to decompress ");
                r.append(filename);
                r
            },
            LoadError::Utf8 => {
                let mut r = String::from_str("UTF8 invalid ");
                r.append(filename);
                r
            },
            LoadError::Parse(reason) => {
                let mut r = String::from_str("Unable to parse ");
                r.append(filename);
                r.append(": ");
                r.append(reason.as_str());
                r
            },
            LoadError::Filter => {
                let mut r = String::from_str("Unable to filter ");
                r.append(filename);
                r
            },
        }
    }
}

} // verus!
