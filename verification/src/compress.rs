//! Compression with bzip2.

use std::io::{Read, Write};

use vstd::prelude::*;

use crate::bytes;
use crate::error::RnsError;

verus! {

/// What bzip2 compresses a byte string to, at the highest level; `None` where it cannot.
pub uninterp spec fn bz2_compressed(data: Seq<u8>) -> Option<Seq<u8>>;

/// The first `limit` bytes that a bzip2 stream decompresses to, or all of them when there are
/// fewer; `None` where the stream is damaged before that.
pub uninterp spec fn bz2_decompressed(data: Seq<u8>, limit: nat) -> Option<Seq<u8>>;

/// Compresses with `bzip2::write::BzEncoder` at level nine. The output is named by
/// [`bz2_compressed`]; it starts with a header and so is not empty; decompressing it again gives
/// `data` back.
#[verifier::external_body]
fn bz2_compress(data: &[u8]) -> (r: Option<Vec<u8>>)
    ensures
        r is Some <==> bz2_compressed(data@) is Some,
        r is Some ==> r->0@ == bz2_compressed(data@)->0,
        r is Some ==> r->0@.len() > 0,
        r is Some ==> forall|limit: nat|
            data@.len() <= limit ==> #[trigger] bz2_decompressed(r->0@, limit) == Some(data@),
{
    let mut encoder =
        bzip2::write::BzEncoder::new(Vec::new(), bzip2::Compression::new(9));
    match encoder.write_all(data) {
        Ok(()) => encoder.finish().ok(),
        Err(_) => None,
    }
}

/// Decompresses with `bzip2::read::BzDecoder`, reading no more than `limit` bytes of output. The
/// output is named by [`bz2_decompressed`].
#[verifier::external_body]
fn bz2_decompress(data: &[u8], limit: u64) -> (r: Option<Vec<u8>>)
    ensures
        r is Some <==> bz2_decompressed(data@, limit as nat) is Some,
        r is Some ==> r->0@ == bz2_decompressed(data@, limit as nat)->0,
        r is Some ==> r->0@.len() <= limit,
{
    let mut out = Vec::new();
    let mut decoder = bzip2::read::BzDecoder::new(data).take(limit);
    match decoder.read_to_end(&mut out) {
        Ok(_) => Some(out),
        Err(_) => None,
    }
}

/// What [`maybe_compress`] returns for the given outcome of the compression.
pub open spec fn kept_compression(
    data: Seq<u8>,
    enabled: bool,
    max_size: nat,
    compressed: Option<Seq<u8>>,
) -> (Seq<u8>, bool) {
    if enabled && 0 < data.len() <= max_size && compressed is Some && compressed->0.len()
        < data.len() {
        (compressed->0, true)
    } else {
        (data, false)
    }
}

/// Keeps the compressed form of `data` when there is one and it is shorter.
pub fn shorter_of(data: &[u8], compressed: Option<Vec<u8>>) -> (r: (Vec<u8>, bool))
    ensures
        r.0@ == (if compressed is Some && compressed->0@.len() < data@.len() {
            compressed->0@
        } else {
            data@
        }),
        r.1 == (compressed is Some && compressed->0@.len() < data@.len()),
{
    match compressed {
        Some(compressed) => if compressed.len() < data.len() {
            (compressed, true)
        } else {
            (bytes::to_vec(data), false)
        },
        None => (bytes::to_vec(data), false),
    }
}

/// Compresses `data` when that is enabled, the size allows it and the result is shorter; returns
/// the bytes to send and whether they are compressed.
pub fn maybe_compress(data: &[u8], enabled: bool, max_size: usize) -> (r: (Vec<u8>, bool))
    ensures
        (r.0@, r.1) == kept_compression(
            data@,
            enabled,
            max_size as nat,
            bz2_compressed(data@),
        ),
        r.1 ==> r.0@.len() > 0,
        r.1 ==> forall|limit: nat|
            data@.len() <= limit ==> #[trigger] bz2_decompressed(r.0@, limit) == Some(data@),
{
    if !enabled || data.is_empty() || data.len() > max_size {
        return (bytes::to_vec(data), false);
    }
    shorter_of(data, bz2_compress(data))
}

/// What [`decompress`] returns for the given outcome of the decompression of one byte more than
/// allowed.
pub open spec fn bounded_output(output: Option<Seq<u8>>, max_size: nat) -> Result<
    Seq<u8>,
    RnsError,
> {
    match output {
        None => Err(RnsError::ResourceMsg("bz2 decompression failed")),
        Some(out) => if out.len() > max_size {
            Err(RnsError::ResourceMsg("decompressed resource exceeded maximum size"))
        } else {
            Ok(out)
        },
    }
}

/// Rejects output that failed or that exceeds `max_size`.
pub fn check_output(output: Option<Vec<u8>>, max_size: usize) -> (r: Result<Vec<u8>, RnsError>)
    ensures
        match bounded_output(
            match output {
                Some(out) => Some(out@),
                None => None,
            },
            max_size as nat,
        ) {
            Ok(out) => r is Ok && r->Ok_0@ == out,
            Err(err) => r is Err && r->Err_0 == err,
        },
{
    match output {
        None => Err(RnsError::ResourceMsg("bz2 decompression failed")),
        Some(out) => if out.len() > max_size {
            Err(RnsError::ResourceMsg("decompressed resource exceeded maximum size"))
        } else {
            Ok(out)
        },
    }
}

/// Decompresses a bzip2 stream, rejecting output of more than `max_size` bytes.
pub fn decompress(data: &[u8], max_size: usize) -> (r: Result<Vec<u8>, RnsError>)
    ensures
        match bounded_output(
            bz2_decompressed(data@, (max_size as u64).saturating_add(1) as nat),
            max_size as nat,
        ) {
            Ok(out) => r is Ok && r->Ok_0@ == out,
            Err(err) => r is Err && r->Err_0 == err,
        },
{
    let limit: u64 = (max_size as u64).saturating_add(1);
    check_output(bz2_decompress(data, limit), max_size)
}

/// Decompressing what was kept compressed gives the original data back, as long as the bound
/// admits it. The two results are those of one [`maybe_compress`] and one [`decompress`] call.
pub proof fn compression_round_trip(data: Seq<u8>, compressed: Seq<u8>, max_size: usize)
    requires
        forall|limit: nat|
            data.len() <= limit ==> #[trigger] bz2_decompressed(compressed, limit) == Some(data),
        data.len() <= max_size,
    ensures
        bounded_output(
            bz2_decompressed(compressed, (max_size as u64).saturating_add(1) as nat),
            max_size as nat,
        ) == Ok::<Seq<u8>, RnsError>(data),
{
}

} // verus!
