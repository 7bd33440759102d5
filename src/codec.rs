use vstd::prelude::*;

use base64::engine::general_purpose;
use base64::Engine;

use crate::error::FsError;
use crate::path::{normalize_path, normalized_on_some_host};

verus! {

/// The standard, padded Base64 text of `b`.
pub uninterp spec fn base64_text(b: Seq<u8>) -> Seq<char>;

/// The bytes that the standard, padded Base64 text `s` stands for, or `None`
/// where `s` is not such a text.
pub uninterp spec fn base64_bytes(s: Seq<char>) -> Option<Seq<u8>>;

#[verifier::external_type_specification]
#[verifier::external_body]
pub struct ExDecodeError(base64::DecodeError);

/// Relies on base64's `Engine::encode` with the `STANDARD` engine: it gives
/// the padded text of `b`, which that engine decodes back to `b`. It panics
/// only where the text's length would overflow `usize`.
#[verifier::external_body]
fn encode_standard(b: &[u8]) -> (r: String)
    requires
        b@.len() <= usize::MAX / 2,
    ensures
        r@ == base64_text(b@),
        base64_bytes(r@) == Some(b@),
{
    general_purpose::STANDARD.encode(b)
}

/// Relies on base64's `Engine::decode` with the `STANDARD` engine: the bytes
/// that `s` stands for, or an error where it is not canonical padded Base64.
#[verifier::external_body]
fn decode_standard(s: &str) -> (r: Result<Vec<u8>, base64::DecodeError>)
    ensures
        match r {
            Ok(v) => base64_bytes(s@) == Some(v@),
            Err(_) => base64_bytes(s@) is None,
        },
{
    general_purpose::STANDARD.decode(s)
}

/// A write that the caller is to perform: `data` goes to the file at `path`.
#[derive(Debug, PartialEq, Eq)]
pub struct WriteRequest {
    pub path: String,
    pub data: Vec<u8>,
}

/// File contents as Base64 text, for a channel that carries text only.
pub fn encode_contents(data: &[u8]) -> (r: String)
    requires
        data@.len() <= usize::MAX / 2,
    ensures
        r@ == base64_text(data@),
        base64_bytes(r@) == Some(data@),
{
    encode_standard(data)
}

/// The bytes that the Base64 text `content` stands for.
pub fn decode_contents(content: &str) -> (r: Result<Vec<u8>, FsError>)
    ensures
        match base64_bytes(content@) {
            Some(b) => r matches Ok(v) && v@ == b,
            None => r == Err::<Vec<u8>, FsError>(FsError::DecodeError),
        },
{
    match decode_standard(content) {
        Ok(v) => Ok(v),
        Err(_) => Err(FsError::DecodeError),
    }
}

/// The write of `data` to `path`, with the path normalized and the bytes kept as they are.
pub fn plan_write(path: &str, data: Vec<u8>) -> (r: WriteRequest)
    ensures
        normalized_on_some_host(path@, r.path@),
        r.data@ == data@,
{
    WriteRequest { path: normalize_path(path), data }
}

/// The write of the bytes that the Base64 text `content` stands for to `path`.
/// Malformed Base64 gives `DecodeError` and no write at all.
pub fn plan_base64_write(content: &str, path: &str) -> (r: Result<WriteRequest, FsError>)
    ensures
        base64_bytes(content@) is None <==> r == Err::<WriteRequest, FsError>(
            FsError::DecodeError,
        ),
        base64_bytes(content@) matches Some(b) ==> (r matches Ok(w) && w.data@ == b
            && normalized_on_some_host(path@, w.path@)),
{
    match decode_contents(content) {
        Ok(data) => Ok(plan_write(path, data)),
        Err(e) => Err(e),
    }
}

} // verus!
