//! zstd compression of byte strings.

use vstd::prelude::*;

verus! {

/// The zstd frame that `zstd::encode_all` produces for `data` at `level`,
/// or `None` where it fails.
pub uninterp spec fn zstd_encoded(data: Seq<u8>, level: i32) -> Option<Seq<u8>>;

/// What `zstd::decode_all` produces from `data`, or `None` where it fails.
pub uninterp spec fn zstd_decoded(data: Seq<u8>) -> Option<Seq<u8>>;

/// `zstd::encode_all(data, level)`: compresses `data` into one zstd frame.
/// The result is a function of the arguments, and (zstd being lossless)
/// `zstd::decode_all` gives `data` back from it; an error is handed on as
/// text.
#[verifier::external_body]
pub(crate) fn zstd_encode(data: &[u8], level: i32) -> (r: Result<Vec<u8>, String>)
    ensures
        r is Ok <==> zstd_encoded(data@, level) is Some,
        r matches Ok(c) ==> c@ == zstd_encoded(data@, level)->0,
        r matches Ok(c) ==> zstd_decoded(c@) == Some(data@),
{
    match zstd::encode_all(data, level) {
        Ok(v) => Ok(v),
        Err(e) => Err(e.to_string()),
    }
}

/// `zstd::decode_all(data)`: decompresses a zstd stream. The result is a
/// function of `data`; since zstd is lossless, a frame that `encode_all`
/// produced from `x` decodes to `x`. An error is handed on as text.
#[verifier::external_body]
pub(crate) fn zstd_decode(data: &[u8]) -> (r: Result<Vec<u8>, String>)
    ensures
        r is Ok <==> zstd_decoded(data@) is Some,
        r matches Ok(d) ==> d@ == zstd_decoded(data@)->0,
        forall|x: Seq<u8>, level: i32|
            #[trigger] zstd_encoded(x, level) == Some(data@) ==> r is Ok && r->Ok_0@ == x,
{
    match zstd::decode_all(data) {
        Ok(v) => Ok(v),
        Err(e) => Err(e.to_string()),
    }
}

} // verus!
