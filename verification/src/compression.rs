//! Per-blob compression: the closed set of compression kinds, the policy that
//! selects one when a blob is first written, and the encoding and decoding of
//! blob payloads.
//!
//! The compressed form of a byte string under each kind is named but not
//! written out; what the library proves is that decoding an encoded payload
//! with the kind recorded at creation time yields the original bytes.

use vstd::prelude::*;

use crate::bytes::{contains_sub, has_sub};
use crate::error::CacheError;

verus! {

/// How one stored blob's payload is compressed. Fixed when the blob is
/// created; required to decompress correctly on restore; never re-derived
/// from the payload.
#[derive(Debug, Clone, Copy, PartialEq, Eq, Structural)]
pub enum Compression {
    Plain,
    Brotli,
    Xz,
    XzParallel,
}

/// The brotli encoding of a byte string.
pub uninterp spec fn brotli_of(data: Seq<u8>) -> Seq<u8>;

/// The single-threaded xz encoding of a byte string.
pub uninterp spec fn xz_of(data: Seq<u8>) -> Seq<u8>;

/// The multi-threaded xz encoding of a byte string.
pub uninterp spec fn xz_parallel_of(data: Seq<u8>) -> Seq<u8>;

/// The payload bytes stored for content `data` under compression `kind`.
pub open spec fn spec_compressed(kind: Compression, data: Seq<u8>) -> Seq<u8> {
    match kind {
        Compression::Plain => data,
        Compression::Brotli => brotli_of(data),
        Compression::Xz => xz_of(data),
        Compression::XzParallel => xz_parallel_of(data),
    }
}

/// Relies on `async_compression::tokio::bufread::BrotliEncoder` driven over an
/// in-memory buffer: the encoded stream is a function of the input bytes alone.
#[verifier::external_body]
fn compress_brotli(data: &Vec<u8>) -> (r: Result<Vec<u8>, CacheError>)
    ensures
        r is Ok ==> r->Ok_0@ == brotli_of(data@),
        r is Err ==> r->Err_0 == CacheError::IoFailure,
{
    let rt = match tokio::runtime::Builder::new_current_thread().build() {
        Ok(rt) => rt,
        Err(_) => return Err(CacheError::IoFailure),
    };
    let mut enc = async_compression::tokio::bufread::BrotliEncoder::new(&data[..]);
    let mut out = Vec::new();
    match rt.block_on(tokio::io::AsyncReadExt::read_to_end(&mut enc, &mut out)) {
        Ok(_) => Ok(out),
        Err(_) => Err(CacheError::IoFailure),
    }
}

/// Relies on `async_compression::tokio::bufread::XzEncoder` driven over an
/// in-memory buffer: the encoded stream is a function of the input bytes alone.
#[verifier::external_body]
fn compress_xz(data: &Vec<u8>) -> (r: Result<Vec<u8>, CacheError>)
    ensures
        r is Ok ==> r->Ok_0@ == xz_of(data@),
        r is Err ==> r->Err_0 == CacheError::IoFailure,
{
    let rt = match tokio::runtime::Builder::new_current_thread().build() {
        Ok(rt) => rt,
        Err(_) => return Err(CacheError::IoFailure),
    };
    let mut enc = async_compression::tokio::bufread::XzEncoder::new(&data[..]);
    let mut out = Vec::new();
    match rt.block_on(tokio::io::AsyncReadExt::read_to_end(&mut enc, &mut out)) {
        Ok(_) => Ok(out),
        Err(_) => Err(CacheError::IoFailure),
    }
}

/// Relies on `XzEncoder::parallel` at the best level: the encoded stream is a
/// function of the input bytes alone (the thread count shapes scheduling, not
/// the emitted stream for a given thread count; one fixed count is used per
/// process, see `worker_threads`).
#[verifier::external_body]
fn compress_xz_parallel(data: &Vec<u8>, threads: u32) -> (r: Result<Vec<u8>, CacheError>)
    requires
        threads >= 1,
    ensures
        r is Ok ==> r->Ok_0@ == xz_parallel_of(data@),
        r is Err ==> r->Err_0 == CacheError::IoFailure,
{
    let rt = match tokio::runtime::Builder::new_current_thread().build() {
        Ok(rt) => rt,
        Err(_) => return Err(CacheError::IoFailure),
    };
    let n = std::num::NonZeroU32::new(threads).unwrap();
        let mut enc = async_compression::tokio::bufread::XzEncoder::parallel(
            &data[..],
            async_compression::Level::Best,
            n,
        );
    let mut out = Vec::new();
    match rt.block_on(tokio::io::AsyncReadExt::read_to_end(&mut enc, &mut out)) {
        Ok(_) => Ok(out),
        Err(_) => Err(CacheError::IoFailure),
    }
}

/// Relies on `BrotliDecoder`: brotli is lossless, so decoding a stream the
/// encoder produced yields exactly the bytes that were encoded.
#[verifier::external_body]
fn decompress_brotli(payload: &Vec<u8>) -> (r: Result<Vec<u8>, CacheError>)
    ensures
        forall|x: Seq<u8>| payload@ == brotli_of(x) ==> r is Ok && r->Ok_0@ == x,
        r is Err ==> r->Err_0 == CacheError::IoFailure,
{
    let rt = match tokio::runtime::Builder::new_current_thread().build() {
        Ok(rt) => rt,
        Err(_) => return Err(CacheError::IoFailure),
    };
    let mut dec = async_compression::tokio::bufread::BrotliDecoder::new(&payload[..]);
    let mut out = Vec::new();
    match rt.block_on(tokio::io::AsyncReadExt::read_to_end(&mut dec, &mut out)) {
        Ok(_) => Ok(out),
        Err(_) => Err(CacheError::IoFailure),
    }
}

/// Relies on `XzDecoder::with_mem_limit`: xz is lossless, so decoding a stream
/// the single-threaded encoder produced yields exactly the bytes that were
/// encoded (the 256 MiB decoder memory limit covers every stream that encoder
/// emits).
#[verifier::external_body]
fn decompress_xz(payload: &Vec<u8>) -> (r: Result<Vec<u8>, CacheError>)
    ensures
        forall|x: Seq<u8>| payload@ == xz_of(x) ==> r is Ok && r->Ok_0@ == x,
        r is Err ==> r->Err_0 == CacheError::IoFailure,
{
    let rt = match tokio::runtime::Builder::new_current_thread().build() {
        Ok(rt) => rt,
        Err(_) => return Err(CacheError::IoFailure),
    };
    let mut dec = async_compression::tokio::bufread::XzDecoder::with_mem_limit(
            &payload[..],
            256 * 1024 * 1024,
        );
    let mut out = Vec::new();
    match rt.block_on(tokio::io::AsyncReadExt::read_to_end(&mut dec, &mut out)) {
        Ok(_) => Ok(out),
        Err(_) => Err(CacheError::IoFailure),
    }
}

/// Relies on `XzDecoder::parallel_with_mem_limit`: xz is lossless, so decoding
/// a stream the parallel encoder produced yields exactly the bytes that were
/// encoded.
#[verifier::external_body]
fn decompress_xz_parallel(payload: &Vec<u8>, threads: u32) -> (r: Result<Vec<u8>, CacheError>)
    requires
        threads >= 1,
    ensures
        forall|x: Seq<u8>| payload@ == xz_parallel_of(x) ==> r is Ok && r->Ok_0@ == x,
        r is Err ==> r->Err_0 == CacheError::IoFailure,
{
    let rt = match tokio::runtime::Builder::new_current_thread().build() {
        Ok(rt) => rt,
        Err(_) => return Err(CacheError::IoFailure),
    };
    let n = std::num::NonZeroU32::new(threads).unwrap();
        let mut dec = async_compression::tokio::bufread::XzDecoder::parallel_with_mem_limit(
            &payload[..],
            n,
            256 * 1024 * 1024,
        );
    let mut out = Vec::new();
    match rt.block_on(tokio::io::AsyncReadExt::read_to_end(&mut dec, &mut out)) {
        Ok(_) => Ok(out),
        Err(_) => Err(CacheError::IoFailure),
    }
}

/// Relies on `num_cpus::get_physical` to report the machine's physical core
/// count; nothing is assumed of the value.
#[verifier::external_body]
fn physical_cpus() -> (n: usize)
{
    num_cpus::get_physical()
}

/// The thread count handed to the parallel xz codec: one less than the number
/// of physical cores, and at least one.
pub fn worker_threads() -> (n: u32)
    ensures
        n >= 1,
{
    let cpus = physical_cpus();
    if cpus >= 2 {
        if cpus - 1 <= u32::MAX as usize {
            (cpus - 1) as u32
        } else {
            u32::MAX
        }
    } else {
        1
    }
}

/// Encode a blob payload under the given compression kind. On success the
/// payload is exactly the compressed form of the content; with kind `None`
/// encoding always succeeds and stores the content as it is.
pub fn encode_payload(kind: Compression, content: &Vec<u8>) -> (r: Result<Vec<u8>, CacheError>)
    ensures
        r is Ok ==> r->Ok_0@ == spec_compressed(kind, content@),
        kind == Compression::Plain ==> r is Ok,
        r is Err ==> r->Err_0 == CacheError::IoFailure,
{
    match kind {
        Compression::Plain => Ok(content.clone()),
        Compression::Brotli => compress_brotli(content),
        Compression::Xz => compress_xz(content),
        Compression::XzParallel => {
            let threads = worker_threads();
            compress_xz_parallel(content, threads)
        },
    }
}

/// Decode a blob payload with the compression kind recorded when the blob was
/// created. Round trip: for every kind, a payload that `encode_payload`
/// produced for some content decodes successfully back to that content,
/// byte for byte.
pub fn decode_payload(kind: Compression, payload: &Vec<u8>) -> (r: Result<Vec<u8>, CacheError>)
    ensures
        forall|x: Seq<u8>| payload@ == spec_compressed(kind, x) ==> r is Ok && r->Ok_0@ == x,
        r is Err ==> r->Err_0 == CacheError::IoFailure,
{
    match kind {
        Compression::Plain => Ok(payload.clone()),
        Compression::Brotli => decompress_brotli(payload),
        Compression::Xz => decompress_xz(payload),
        Compression::XzParallel => {
            let threads = worker_threads();
            decompress_xz_parallel(payload, threads)
        },
    }
}

/// The media-type tags (joined with ", ") that content sniffing assigns to a
/// byte string; a pure function of the bytes alone.
pub uninterp spec fn media_kinds_of(data: Seq<u8>) -> Seq<u8>;

/// Relies on `file_type::FileType::from_bytes` (content sniffing over a static
/// signature table) and `media_types`, joined to one tag string.
#[verifier::external_body]
fn sniff_media_kinds(data: &Vec<u8>) -> (r: Vec<u8>)
    ensures
        r@ == media_kinds_of(data@),
{
    let file_type = file_type::FileType::from_bytes(data.as_slice());
    file_type.media_types().join(", ").into_bytes()
}

/// The size below which a blob is stored uncompressed outright.
pub const SMALL_FILE_LIMIT: u64 = 10240;

/// The size above which compressible content is compressed with the
/// multi-threaded xz codec.
pub const LARGE_FILE_LIMIT: u64 = 1073741824;

/// "text" as bytes.
pub open spec fn spec_text_tag() -> Seq<u8> {
    seq![116u8, 101u8, 120u8, 116u8]
}

/// The media-type fragments that mark content as already compressed:
/// "zip", "image", "video", "audio", "archive".
pub open spec fn spec_packed_tags() -> Seq<Seq<u8>> {
    seq![
        seq![122u8, 105u8, 112u8],
        seq![105u8, 109u8, 97u8, 103u8, 101u8],
        seq![118u8, 105u8, 100u8, 101u8, 111u8],
        seq![97u8, 117u8, 100u8, 105u8, 111u8],
        seq![97u8, 114u8, 99u8, 104u8, 105u8, 118u8, 101u8],
    ]
}

/// Whether the media tags mark content that is already compressed.
pub open spec fn spec_marks_packed(media: Seq<u8>) -> bool {
    exists|i: int| 0 <= i < spec_packed_tags().len() && has_sub(media, spec_packed_tags()[i])
}

/// The compression-kind selection policy, applied only when a new blob is
/// actually written: tiny files and already-compressed media kinds stay as
/// they are, textual media compresses with brotli, anything else with xz —
/// multi-threaded above the large-file limit.
pub open spec fn spec_select_compression(size: u64, media: Seq<u8>) -> Compression {
    if size < SMALL_FILE_LIMIT {
        Compression::Plain
    } else if has_sub(media, spec_text_tag()) {
        Compression::Brotli
    } else if spec_marks_packed(media) {
        Compression::Plain
    } else if size > LARGE_FILE_LIMIT {
        Compression::XzParallel
    } else {
        Compression::Xz
    }
}

fn media_marks_packed(media: &Vec<u8>) -> (r: bool)
    ensures
        r == spec_marks_packed(media@),
{
    let zip: Vec<u8> = vec![122u8, 105u8, 112u8];
    let image: Vec<u8> = vec![105u8, 109u8, 97u8, 103u8, 101u8];
    let video: Vec<u8> = vec![118u8, 105u8, 100u8, 101u8, 111u8];
    let audio: Vec<u8> = vec![97u8, 117u8, 100u8, 105u8, 111u8];
    let archive: Vec<u8> = vec![97u8, 114u8, 99u8, 104u8, 105u8, 118u8, 101u8];
    proof {
        assert(zip@ =~= spec_packed_tags()[0]);
        assert(image@ =~= spec_packed_tags()[1]);
        assert(video@ =~= spec_packed_tags()[2]);
        assert(audio@ =~= spec_packed_tags()[3]);
        assert(archive@ =~= spec_packed_tags()[4]);
    }
    let r = contains_sub(media, &zip) || contains_sub(media, &image) || contains_sub(media, &video)
        || contains_sub(media, &audio) || contains_sub(media, &archive);
    proof {
        if r {
            assert(spec_marks_packed(media@));
        } else {
            assert forall|i: int| 0 <= i < spec_packed_tags().len() implies !has_sub(
                media@,
                spec_packed_tags()[i],
            ) by {
                if i == 0 {
                } else if i == 1 {
                } else if i == 2 {
                } else if i == 3 {
                } else {
                    assert(i == 4);
                }
            }
        }
    }
    r
}

/// Select the compression kind for new content of the given size and sniffed
/// media tags, following the selection policy exactly.
pub fn select_compression(size: u64, media: &Vec<u8>) -> (r: Compression)
    ensures
        r == spec_select_compression(size, media@),
{
    if size < SMALL_FILE_LIMIT {
        return Compression::Plain;
    }
    let text: Vec<u8> = vec![116u8, 101u8, 120u8, 116u8];
    proof {
        assert(text@ =~= spec_text_tag());
    }
    if contains_sub(media, &text) {
        return Compression::Brotli;
    }
    if media_marks_packed(media) {
        return Compression::Plain;
    }
    if size > LARGE_FILE_LIMIT {
        Compression::XzParallel
    } else {
        Compression::Xz
    }
}

/// Sniff the media kinds of new content and select its compression kind.
/// The decision is a pure function of the content bytes and the size.
pub fn determine_compression(content: &Vec<u8>, size: u64) -> (r: Compression)
    ensures
        r == spec_select_compression(size, media_kinds_of(content@)),
{
    let media = sniff_media_kinds(content);
    select_compression(size, &media)
}

} // verus!
