//! The blob store: immutable, content-addressed storage of byte payloads,
//! compressed per blob. Creating a blob plans exactly which bytes land where;
//! restoring one decodes the stored payload with the recorded compression
//! kind and fans the decoded bytes out to every destination path.

use vstd::prelude::*;

use crate::bytes::push_all;
use crate::compression::{
    determine_compression, decode_payload, encode_payload, media_kinds_of, spec_compressed,
    spec_select_compression, Compression,
};
use crate::destinations::{ne_seq, ne_to_vec};
use crate::error::CacheError;
use crate::hash::blake3_of;
use crate::hex::{hex_encode, hex_of};
use crate::json::{
    expect_lit, lemma_parse_plain_string_exact, parse_plain_string, push_json_string,
    spec_json_string, spec_lit_at, spec_parsed_string, spec_plain_text, QUOTE,
};
use crate::record::paths_view;

verus! {

/// Relies on `chrono::Utc::now().to_rfc3339()`; the value depends on the
/// clock, so nothing is assumed of it.
#[verifier::external_body]
pub(crate) fn now_utc_rfc3339() -> (r: Vec<u8>) {
    chrono::Utc::now().to_rfc3339().into_bytes()
}

/// The metadata stored beside each blob payload: creation time, the hash of
/// the decompressed content, and the compression kind in force.
pub struct StoredCacheFile {
    pub created: Vec<u8>,
    pub original_hash: Vec<u8>,
    pub compression: Compression,
}

/// An opened blob: the path of its payload and its metadata.
pub struct CachedFile {
    pub path: Vec<u8>,
    pub data: StoredCacheFile,
}

/// The tag under which each compression kind is persisted.
pub open spec fn spec_compression_tag(kind: Compression) -> Seq<u8> {
    match kind {
        Compression::Plain => seq![78u8, 111u8, 110u8, 101u8],
        Compression::Brotli => seq![66u8, 114u8, 111u8, 116u8, 108u8, 105u8],
        Compression::Xz => seq![88u8, 122u8],
        Compression::XzParallel => seq![88u8, 122u8, 80u8, 97u8, 114u8, 97u8, 108u8, 108u8, 101u8, 108u8],
    }
}

/// The persisted tag of this blob's compression kind.
pub fn compression_tag(kind: Compression) -> (r: Vec<u8>)
    ensures
        r@ == spec_compression_tag(kind),
{
    match kind {
        Compression::Plain => {
            let v: Vec<u8> = vec![78u8, 111u8, 110u8, 101u8];
            proof {
                assert(v@ =~= spec_compression_tag(kind));
            }
            v
        },
        Compression::Brotli => {
            let v: Vec<u8> = vec![66u8, 114u8, 111u8, 116u8, 108u8, 105u8];
            proof {
                assert(v@ =~= spec_compression_tag(kind));
            }
            v
        },
        Compression::Xz => {
            let v: Vec<u8> = vec![88u8, 122u8];
            proof {
                assert(v@ =~= spec_compression_tag(kind));
            }
            v
        },
        Compression::XzParallel => {
            let v: Vec<u8> = vec![88u8, 122u8, 80u8, 97u8, 114u8, 97u8, 108u8, 108u8, 101u8, 108u8];
            proof {
                assert(v@ =~= spec_compression_tag(kind));
            }
            v
        },
    }
}

/// `{"created":`
pub open spec fn spec_file_open() -> Seq<u8> {
    seq![123u8, 34u8, 99u8, 114u8, 101u8, 97u8, 116u8, 101u8, 100u8, 34u8, 58u8]
}

/// `,"original_hash":`
pub open spec fn spec_file_original_hash() -> Seq<u8> {
    seq![44u8, 34u8, 111u8, 114u8, 105u8, 103u8, 105u8, 110u8, 97u8, 108u8, 95u8, 104u8, 97u8, 115u8, 104u8, 34u8, 58u8]
}

/// `,"compression":`
pub open spec fn spec_file_compression() -> Seq<u8> {
    seq![44u8, 34u8, 99u8, 111u8, 109u8, 112u8, 114u8, 101u8, 115u8, 115u8, 105u8, 111u8, 110u8, 34u8, 58u8]
}

/// The full `file.json` document of one blob, byte for byte.
pub open spec fn spec_file_json(data: StoredCacheFile) -> Seq<u8> {
    spec_file_open() + spec_json_string(data.created@) + spec_file_original_hash()
        + spec_json_string(data.original_hash@) + spec_file_compression() + spec_json_string(
        spec_compression_tag(data.compression),
    ) + seq![125u8]
}

impl StoredCacheFile {
    /// Serialize this metadata to its `file.json` document.
    pub fn to_json(&self) -> (r: Vec<u8>)
        ensures
            r@ == spec_file_json(*self),
    {
        let mut out: Vec<u8> = Vec::new();
        let open_lit: Vec<u8> = vec![123u8, 34u8, 99u8, 114u8, 101u8, 97u8, 116u8, 101u8, 100u8, 34u8, 58u8];
        proof {
            assert(open_lit@ =~= spec_file_open());
        }
        push_all(&mut out, &open_lit);
        push_json_string(&mut out, &self.created);
        let hash_lit: Vec<u8> = vec![44u8, 34u8, 111u8, 114u8, 105u8, 103u8, 105u8, 110u8, 97u8, 108u8, 95u8, 104u8, 97u8, 115u8, 104u8, 34u8, 58u8];
        proof {
            assert(hash_lit@ =~= spec_file_original_hash());
        }
        push_all(&mut out, &hash_lit);
        push_json_string(&mut out, &self.original_hash);
        let comp_lit: Vec<u8> = vec![44u8, 34u8, 99u8, 111u8, 109u8, 112u8, 114u8, 101u8, 115u8, 115u8, 105u8, 111u8, 110u8, 34u8, 58u8];
        proof {
            assert(comp_lit@ =~= spec_file_compression());
        }
        push_all(&mut out, &comp_lit);
        let tag = compression_tag(self.compression);
        push_json_string(&mut out, &tag);
        out.push(125u8);
        proof {
            assert(out@ =~= spec_file_json(*self));
        }
        out
    }
}

/// What creating a blob does: nothing when the blob already exists, else one
/// payload write and one metadata write.
pub enum BlobWrite {
    AlreadyCached,
    Write { data: StoredCacheFile, payload: Vec<u8>, metadata: Vec<u8> },
}

/// What a planned write must hold for content with the given hash and size:
/// the compression kind the selection policy picks, the payload in exactly
/// that encoding, and the metadata document recording kind and original hash.
pub open spec fn spec_valid_write(w: BlobWrite, content: Seq<u8>, hash: Seq<u8>, size: u64) -> bool {
    match w {
        BlobWrite::AlreadyCached => false,
        BlobWrite::Write { data, payload, metadata } => {
            let kind = spec_select_compression(size, media_kinds_of(content));
            &&& data.compression == kind
            &&& data.original_hash@ == hex_of(hash)
            &&& payload@ == spec_compressed(kind, content)
            &&& metadata@ == spec_file_json(data)
        },
    }
}

impl CachedFile {
    /// Plan the creation of a blob for content whose hash and size were
    /// computed in one earlier pass. When the blob's directory already exists
    /// the create is a no-op success (idempotent); otherwise the returned
    /// write carries the compressed payload and the metadata document to be
    /// installed atomically under the hash-named directory.
    pub fn create(already_stored: bool, content: &Vec<u8>, hash: &Vec<u8>, size: u64) -> (r:
        Result<BlobWrite, CacheError>)
        requires
            hash@ == blake3_of(content@),
            size == content@.len(),
        ensures
            already_stored ==> r == Ok::<BlobWrite, CacheError>(BlobWrite::AlreadyCached),
            !already_stored && r is Ok ==> spec_valid_write(r->Ok_0, content@, hash@, size),
            !already_stored && r is Err ==> r->Err_0 == CacheError::IoFailure,
            !already_stored && spec_select_compression(size, media_kinds_of(content@))
                == Compression::Plain ==> r is Ok,
    {
        if already_stored {
            return Ok(BlobWrite::AlreadyCached);
        }
        let kind = determine_compression(content, size);
        let payload = match encode_payload(kind, content) {
            Ok(p) => p,
            Err(e) => {
                return Err(e);
            },
        };
        let created = now_utc_rfc3339();
        let original_hash = hex_encode(hash);
        let data = StoredCacheFile { created, original_hash, compression: kind };
        let metadata = data.to_json();
        Ok(BlobWrite::Write { data, payload, metadata })
    }

    /// Interpret an attempt to open the blob of a hash from what is on disk,
    /// checking directory, metadata document and payload in that order:
    /// partial presence is treated as absent, never partially usable.
    pub fn open(
        folder: &crate::folder::CacheFolder,
        hash_hex: &Vec<u8>,
        dir_exists: bool,
        data_exists: bool,
        payload_exists: bool,
        parsed: Option<StoredCacheFile>,
    ) -> (r: Result<CachedFile, CacheError>)
        ensures
            !dir_exists ==> (r matches Err(CacheError::OpenPathError(p)) && p@
                == crate::folder::spec_file_dir(folder.root@, hash_hex@)),
            dir_exists && !data_exists ==> (r matches Err(CacheError::OpenPathError(p)) && p@
                == crate::folder::spec_join_path(
                crate::folder::spec_file_dir(folder.root@, hash_hex@),
                crate::folder::spec_data_file_name(),
            )),
            dir_exists && data_exists && !payload_exists ==> (r matches Err(
                CacheError::OpenPathError(p),
            ) && p@ == crate::folder::spec_join_path(
                crate::folder::spec_file_dir(folder.root@, hash_hex@),
                crate::folder::spec_compressed_file_name(),
            )),
            dir_exists && data_exists && payload_exists && parsed is None ==> r == Err::<
                CachedFile,
                CacheError,
            >(CacheError::MalformedData),
            dir_exists && data_exists && payload_exists && parsed is Some ==> (r matches Ok(f)
                && f.data == parsed->0 && f.path@ == crate::folder::spec_join_path(
                crate::folder::spec_file_dir(folder.root@, hash_hex@),
                crate::folder::spec_compressed_file_name(),
            )),
    {
        if !dir_exists {
            return Err(CacheError::OpenPathError(folder.file_dir(hash_hex)));
        }
        if !data_exists {
            return Err(CacheError::OpenPathError(folder.blob_data_path(hash_hex)));
        }
        if !payload_exists {
            return Err(CacheError::OpenPathError(folder.blob_payload_path(hash_hex)));
        }
        match parsed {
            None => Err(CacheError::MalformedData),
            Some(data) => Ok(CachedFile { path: folder.blob_payload_path(hash_hex), data }),
        }
    }

    /// Decode the stored payload with the recorded compression kind and fan
    /// it out: every destination path receives the same decoded content. For
    /// a payload this store created for some content, restore succeeds and
    /// reproduces that content byte for byte.
    pub fn restore(self, payload: &Vec<u8>, destinations: nonempty::NonEmpty<Vec<u8>>) -> (r:
        Result<RestoredFiles, CacheError>)
        ensures
            (exists|x: Seq<u8>| payload@ == spec_compressed(self.data.compression, x)) ==> r
                is Ok,
            r is Ok ==> ({
                let out = r->Ok_0;
                &&& paths_view(out.destinations@) == ne_seq(destinations)
                &&& out.destinations@.len() == ne_seq(destinations).len()
                &&& out.destinations@.len() >= 1
                &&& forall|x: Seq<u8>|
                    payload@ == spec_compressed(self.data.compression, x) ==> out.content@ == x
            }),
    {
        let content = match decode_payload(self.data.compression, payload) {
            Ok(c) => c,
            Err(e) => {
                proof {
                    if exists|x: Seq<u8>| payload@ == spec_compressed(self.data.compression, x) {
                        let x = choose|x: Seq<u8>|
                            payload@ == spec_compressed(self.data.compression, x);
                        assert(false);
                    }
                }
                return Err(e);
            },
        };
        let dests = ne_to_vec(destinations);
        Ok(RestoredFiles { content, destinations: dests })
    }

    /// Decode the stored payload for replay to standard output. For a payload
    /// this store created for some content, the decoded bytes are that
    /// content.
    pub fn restore_to_stdout(self, payload: &Vec<u8>) -> (r: Result<Vec<u8>, CacheError>)
        ensures
            (exists|x: Seq<u8>| payload@ == spec_compressed(self.data.compression, x)) ==> r
                is Ok,
            r is Ok ==> forall|x: Seq<u8>|
                payload@ == spec_compressed(self.data.compression, x) ==> r->Ok_0@ == x,
    {
        let content = match decode_payload(self.data.compression, payload) {
            Ok(c) => c,
            Err(e) => {
                proof {
                    if exists|x: Seq<u8>| payload@ == spec_compressed(self.data.compression, x) {
                        let x = choose|x: Seq<u8>|
                            payload@ == spec_compressed(self.data.compression, x);
                        assert(false);
                    }
                }
                return Err(e);
            },
        };
        Ok(content)
    }
}

/// One restore's outcome: the decoded content and every destination path that
/// must receive a byte-identical copy of it.
pub struct RestoredFiles {
    pub content: Vec<u8>,
    pub destinations: Vec<Vec<u8>>,
}

/// The blob store modeled as a map from hash-named directory to the pair of
/// objects stored in it (payload, metadata).
pub open spec fn spec_apply_create(
    store: Map<Seq<u8>, (Seq<u8>, Seq<u8>)>,
    hash_hex: Seq<u8>,
    blob: (Seq<u8>, Seq<u8>),
) -> Map<Seq<u8>, (Seq<u8>, Seq<u8>)> {
    if store.dom().contains(hash_hex) {
        store
    } else {
        store.insert(hash_hex, blob)
    }
}

/// Idempotence of blob creation: a create for a hash that is already stored
/// changes nothing, so creating the same content twice succeeds both times
/// and leaves exactly the one blob the first create installed.
pub proof fn lemma_create_idempotent(
    store: Map<Seq<u8>, (Seq<u8>, Seq<u8>)>,
    hash_hex: Seq<u8>,
    blob: (Seq<u8>, Seq<u8>),
)
    ensures
        spec_apply_create(spec_apply_create(store, hash_hex, blob), hash_hex, blob)
            == spec_apply_create(store, hash_hex, blob),
        spec_apply_create(store, hash_hex, blob).dom().contains(hash_hex),
        !store.dom().contains(hash_hex) ==> spec_apply_create(store, hash_hex, blob)[hash_hex]
            == blob,
        store.dom().contains(hash_hex) ==> spec_apply_create(store, hash_hex, blob) == store,
{
}


/// Hash content and plan its blob creation in one pass: the returned digest
/// is the content's hash, and the plan is exactly what `create` plans for
/// that digest and size.
pub fn hash_and_create(already_stored: bool, content: &Vec<u8>) -> (r: (
    Vec<u8>,
    Result<BlobWrite, CacheError>,
))
    requires
        content@.len() <= u64::MAX,
    ensures
        r.0@ == blake3_of(content@),
        already_stored ==> r.1 == Ok::<BlobWrite, CacheError>(BlobWrite::AlreadyCached),
        !already_stored && r.1 is Ok ==> spec_valid_write(
            r.1->Ok_0,
            content@,
            blake3_of(content@),
            content@.len() as u64,
        ),
        !already_stored && r.1 is Err ==> r.1->Err_0 == CacheError::IoFailure,
{
    let (hash, size) = crate::hash::hash_content(content);
    let plan = CachedFile::create(already_stored, content, &hash, size);
    (hash, plan)
}


/// Every compression tag is plain text.
proof fn lemma_tag_plain(kind: Compression)
    ensures
        spec_plain_text(spec_compression_tag(kind)),
{
    let tag = spec_compression_tag(kind);
    assert forall|i: int| 0 <= i < tag.len() implies crate::json::spec_is_plain_byte(
        #[trigger] tag[i],
    ) by {
        match kind {
            Compression::Plain => {
                assert(tag =~= seq![78u8, 111u8, 110u8, 101u8]);
            },
            Compression::Brotli => {
                assert(tag =~= seq![66u8, 114u8, 111u8, 116u8, 108u8, 105u8]);
            },
            Compression::Xz => {
                assert(tag =~= seq![88u8, 122u8]);
            },
            Compression::XzParallel => {
                assert(tag =~= seq![88u8, 122u8, 80u8, 97u8, 114u8, 97u8, 108u8, 108u8, 101u8, 108u8]);
            },
        }
    }
}

/// Where each piece of a metadata document stands: the literals, the three
/// string fields, and the quotes that delimit them.
proof fn lemma_file_json_shape(text: Seq<u8>, d: StoredCacheFile)
    requires
        spec_written_file_json(text, d),
    ensures
        ({
            let n0 = spec_file_open().len() as int;
            let n1 = n0 + d.created@.len() + 2;
            let n2 = n1 + spec_file_original_hash().len() as int;
            let n3 = n2 + d.original_hash@.len() + 2;
            let n4 = n3 + spec_file_compression().len() as int;
            let n5 = n4 + spec_compression_tag(d.compression).len() + 2;
            &&& spec_lit_at(text, 0, spec_file_open())
            &&& spec_lit_at(text, n0, spec_json_string(d.created@))
            &&& spec_lit_at(text, n1, spec_file_original_hash())
            &&& spec_lit_at(text, n2, spec_json_string(d.original_hash@))
            &&& spec_lit_at(text, n3, spec_file_compression())
            &&& spec_lit_at(text, n4, spec_json_string(spec_compression_tag(d.compression)))
            &&& text.len() == n5 + 1
            &&& text[n5] == 125u8
            &&& text[n0] == QUOTE && text[n1 - 1] == QUOTE
            &&& text[n2] == QUOTE && text[n3 - 1] == QUOTE
            &&& text[n4] == QUOTE && text[n5 - 1] == QUOTE
        }),
{
    crate::json::lemma_escaped_plain(d.created@);
    crate::json::lemma_escaped_plain(d.original_hash@);
    lemma_tag_plain(d.compression);
    crate::json::lemma_escaped_plain(spec_compression_tag(d.compression));
    let n0 = spec_file_open().len() as int;
    let n1 = n0 + d.created@.len() + 2;
    let n2 = n1 + spec_file_original_hash().len() as int;
    let n3 = n2 + d.original_hash@.len() + 2;
    let n4 = n3 + spec_file_compression().len() as int;
    let n5 = n4 + spec_compression_tag(d.compression).len() + 2;
    assert(spec_json_string(d.created@).len() == d.created@.len() + 2);
    assert(spec_json_string(d.original_hash@).len() == d.original_hash@.len() + 2);
    assert(spec_json_string(spec_compression_tag(d.compression)).len() == spec_compression_tag(
        d.compression,
    ).len() + 2);
    assert(text.len() == n5 + 1);
    assert(text.subrange(0, n0) =~= spec_file_open());
    assert(text.subrange(n0, n1) =~= spec_json_string(d.created@));
    assert(text.subrange(n1, n2) =~= spec_file_original_hash());
    assert(text.subrange(n2, n3) =~= spec_json_string(d.original_hash@));
    assert(text.subrange(n3, n4) =~= spec_file_compression());
    assert(text.subrange(n4, n5) =~= spec_json_string(spec_compression_tag(d.compression)));
    assert(text[n5] == 125u8);
    assert(text[n0] == text.subrange(n0, n1)[0]);
    assert(text[n1 - 1] == text.subrange(n0, n1)[n1 - 1 - n0]);
    assert(text[n2] == text.subrange(n2, n3)[0]);
    assert(text[n3 - 1] == text.subrange(n2, n3)[n3 - 1 - n2]);
    assert(text[n4] == text.subrange(n4, n5)[0]);
    assert(text[n5 - 1] == text.subrange(n4, n5)[n5 - 1 - n4]);
}

/// Whether a document is the metadata this store would write for `d`, with
/// the plain-text field contents every such document carries: an RFC3339
/// timestamp and a hex digest never need JSON escapes.
pub open spec fn spec_written_file_json(text: Seq<u8>, d: StoredCacheFile) -> bool {
    &&& text == spec_file_json(d)
    &&& spec_plain_text(d.created@)
    &&& spec_plain_text(d.original_hash@)
}

/// In a written document, the first string field reads back as the created
/// stamp and the reader stops exactly before the hash label.
proof fn lemma_written_created(text: Seq<u8>, d: StoredCacheFile, s: Seq<u8>, j: int)
    requires
        spec_written_file_json(text, d),
        spec_parsed_string(text, spec_file_open().len() as int, s, j),
    ensures
        s == d.created@,
        j == spec_file_open().len() + d.created@.len() + 2,
        spec_lit_at(text, j, spec_file_original_hash()),
{
    lemma_file_json_shape(text, d);
    lemma_parse_plain_string_exact(text, spec_file_open().len() as int, d.created@, s, j);
}

/// In a written document, the second string field reads back as the original
/// content hash and the reader stops exactly before the compression label.
proof fn lemma_written_hash(text: Seq<u8>, d: StoredCacheFile, i: int, s: Seq<u8>, j: int)
    requires
        spec_written_file_json(text, d),
        i == spec_file_open().len() + d.created@.len() + 2 + spec_file_original_hash().len(),
        spec_parsed_string(text, i, s, j),
    ensures
        s == d.original_hash@,
        j == i + d.original_hash@.len() + 2,
        spec_lit_at(text, j, spec_file_compression()),
{
    lemma_file_json_shape(text, d);
    lemma_parse_plain_string_exact(text, i, d.original_hash@, s, j);
}

/// In a written document, the third string field reads back as the kind's tag
/// and only the closing brace follows it.
proof fn lemma_written_tag(text: Seq<u8>, d: StoredCacheFile, i: int, s: Seq<u8>, j: int)
    requires
        spec_written_file_json(text, d),
        i == spec_file_open().len() + d.created@.len() + 2 + spec_file_original_hash().len()
            + d.original_hash@.len() + 2 + spec_file_compression().len(),
        spec_parsed_string(text, i, s, j),
    ensures
        s == spec_compression_tag(d.compression),
        j == i + spec_compression_tag(d.compression).len() + 2,
        spec_lit_at(text, j, seq![125u8]),
        j + 1 == text.len(),
{
    lemma_file_json_shape(text, d);
    lemma_tag_plain(d.compression);
    lemma_parse_plain_string_exact(text, i, spec_compression_tag(d.compression), s, j);
    let n5 = j;
    assert(text.subrange(n5, n5 + 1) =~= seq![125u8]);
}

/// Read a blob's metadata document back. Round trip: for any metadata this
/// store wrote, parsing the emitted document returns exactly the fields that
/// were written.
#[verifier::rlimit(100)]
pub fn parse_file_json(text: &Vec<u8>) -> (r: Option<StoredCacheFile>)
    ensures
        forall|d: StoredCacheFile| #[trigger]
            spec_written_file_json(text@, d) ==> r is Some && r->0.created@ == d.created@
                && r->0.original_hash@ == d.original_hash@ && r->0.compression == d.compression,
{
    let open_lit: Vec<u8> = vec![123u8, 34u8, 99u8, 114u8, 101u8, 97u8, 116u8, 101u8, 100u8, 34u8, 58u8];
    let hash_lit: Vec<u8> = vec![44u8, 34u8, 111u8, 114u8, 105u8, 103u8, 105u8, 110u8, 97u8, 108u8, 95u8, 104u8, 97u8, 115u8, 104u8, 34u8, 58u8];
    let comp_lit: Vec<u8> = vec![44u8, 34u8, 99u8, 111u8, 109u8, 112u8, 114u8, 101u8, 115u8, 115u8, 105u8, 111u8, 110u8, 34u8, 58u8];
    let close_lit: Vec<u8> = vec![125u8];
    proof {
        assert(open_lit@ =~= spec_file_open());
        assert(hash_lit@ =~= spec_file_original_hash());
        assert(comp_lit@ =~= spec_file_compression());
        assert(close_lit@ =~= seq![125u8]);
    }
    let i0 = match expect_lit(text, 0, &open_lit) {
        Some(i) => i,
        None => {
            proof {
                assert forall|d: StoredCacheFile| !spec_written_file_json(text@, d) by {
                    if spec_written_file_json(text@, d) {
                        lemma_file_json_shape(text@, d);
                    }
                }
            }
            return None;
        },
    };
    let (created, j1) = match parse_plain_string(text, i0) {
        Some(p) => p,
        None => {
            proof {
                assert forall|d: StoredCacheFile| !spec_written_file_json(text@, d) by {
                    if spec_written_file_json(text@, d) {
                        lemma_file_json_shape(text@, d);
                        let n0 = spec_file_open().len() as int;
                        assert(text@[n0] == QUOTE);
                        assert(text@[n0 + d.created@.len() + 1] == QUOTE);
                    }
                }
            }
            return None;
        },
    };
    let i1 = match expect_lit(text, j1, &hash_lit) {
        Some(i) => i,
        None => {
            proof {
                assert forall|d: StoredCacheFile| !spec_written_file_json(text@, d) by {
                    if spec_written_file_json(text@, d) {
                        lemma_written_created(text@, d, created@, j1 as int);
                    }
                }
            }
            return None;
        },
    };
    let (original_hash, j2) = match parse_plain_string(text, i1) {
        Some(p) => p,
        None => {
            proof {
                assert forall|d: StoredCacheFile| !spec_written_file_json(text@, d) by {
                    if spec_written_file_json(text@, d) {
                        lemma_written_created(text@, d, created@, j1 as int);
                        lemma_file_json_shape(text@, d);
                        assert(text@[i1 as int] == QUOTE);
                        assert(text@[i1 + d.original_hash@.len() + 1] == QUOTE);
                    }
                }
            }
            return None;
        },
    };
    let i2 = match expect_lit(text, j2, &comp_lit) {
        Some(i) => i,
        None => {
            proof {
                assert forall|d: StoredCacheFile| !spec_written_file_json(text@, d) by {
                    if spec_written_file_json(text@, d) {
                        lemma_written_created(text@, d, created@, j1 as int);
                        lemma_written_hash(text@, d, i1 as int, original_hash@, j2 as int);
                    }
                }
            }
            return None;
        },
    };
    let (tag, j3) = match parse_plain_string(text, i2) {
        Some(p) => p,
        None => {
            proof {
                assert forall|d: StoredCacheFile| !spec_written_file_json(text@, d) by {
                    if spec_written_file_json(text@, d) {
                        lemma_written_created(text@, d, created@, j1 as int);
                        lemma_written_hash(text@, d, i1 as int, original_hash@, j2 as int);
                        lemma_file_json_shape(text@, d);
                        lemma_tag_plain(d.compression);
                        assert(text@[i2 as int] == QUOTE);
                        assert(text@[i2 + spec_compression_tag(d.compression).len() + 1]
                            == QUOTE);
                    }
                }
            }
            return None;
        },
    };
    let after_close = expect_lit(text, j3, &close_lit);
    let end_ok = match after_close {
        Some(i3) => i3 == text.len(),
        None => false,
    };
    let tag_none: Vec<u8> = vec![78u8, 111u8, 110u8, 101u8];
    let tag_brotli: Vec<u8> = vec![66u8, 114u8, 111u8, 116u8, 108u8, 105u8];
    let tag_xz: Vec<u8> = vec![88u8, 122u8];
    let tag_xz_par: Vec<u8> = vec![88u8, 122u8, 80u8, 97u8, 114u8, 97u8, 108u8, 108u8, 101u8, 108u8];
    proof {
        assert(tag_none@ =~= spec_compression_tag(Compression::Plain));
        assert(tag_brotli@ =~= spec_compression_tag(Compression::Brotli));
        assert(tag_xz@ =~= spec_compression_tag(Compression::Xz));
        assert(tag_xz_par@ =~= spec_compression_tag(Compression::XzParallel));
    }
    let eq_none = crate::bytes::bytes_eq(&tag, &tag_none);
    let eq_brotli = crate::bytes::bytes_eq(&tag, &tag_brotli);
    let eq_xz = crate::bytes::bytes_eq(&tag, &tag_xz);
    let eq_xz_par = crate::bytes::bytes_eq(&tag, &tag_xz_par);
    proof {
        assert forall|d: StoredCacheFile|
            spec_written_file_json(text@, d) implies created@ == d.created@ && original_hash@
            == d.original_hash@ && tag@ == spec_compression_tag(d.compression) && end_ok by {
            lemma_written_created(text@, d, created@, j1 as int);
            lemma_written_hash(text@, d, i1 as int, original_hash@, j2 as int);
            lemma_written_tag(text@, d, i2 as int, tag@, j3 as int);
            assert(after_close is Some && after_close->0 == j3 + 1 == text@.len());
        }
    }
    if !end_ok {
        return None;
    }
    let kind = if eq_none {
        Some(Compression::Plain)
    } else if eq_brotli {
        Some(Compression::Brotli)
    } else if eq_xz {
        Some(Compression::Xz)
    } else if eq_xz_par {
        Some(Compression::XzParallel)
    } else {
        None
    };
    match kind {
        Some(compression) => Some(StoredCacheFile { created, original_hash, compression }),
        None => {
            proof {
                assert forall|d: StoredCacheFile| !spec_written_file_json(text@, d) by {
                    if spec_written_file_json(text@, d) {
                        match d.compression {
                            Compression::Plain => {
                                assert(tag@ == tag_none@);
                            },
                            Compression::Brotli => {
                                assert(tag@ == tag_brotli@);
                            },
                            Compression::Xz => {
                                assert(tag@ == tag_xz@);
                            },
                            Compression::XzParallel => {
                                assert(tag@ == tag_xz_par@);
                            },
                        }
                    }
                }
            }
            None
        },
    }
}

} // verus!
