use simple_ci_cache::blob::{hash_and_create, BlobWrite, CachedFile, StoredCacheFile};
use simple_ci_cache::compression::{
    decode_payload, determine_compression, encode_payload, select_compression, Compression,
};
use simple_ci_cache::error::CacheError;
use simple_ci_cache::folder::{to_file_cache_dir, CacheFolder};
use simple_ci_cache::gather::{dedup_paths, group_output_files, HashedOutput};
use simple_ci_cache::hash::hash_content;
use simple_ci_cache::hex::{hex_decode, hex_encode};
use simple_ci_cache::record::{CachedCommand, OutputFile};

fn bytes(s: &str) -> Vec<u8> {
    s.as_bytes().to_vec()
}

#[test]
fn hex_encode_known_value() {
    let data = vec![0x00u8, 0xab, 0xff];
    assert_eq!(hex_encode(&data), bytes("00abff"));
}

#[test]
fn hex_round_trip() {
    let data = vec![0u8, 1, 2, 3, 16, 127, 128, 255];
    let encoded = hex_encode(&data);
    assert_eq!(hex_decode(&encoded), Some(data));
}

#[test]
fn hex_decode_rejects_bad_input() {
    assert_eq!(hex_decode(&bytes("0")), None);
    assert_eq!(hex_decode(&bytes("0g")), None);
    assert_eq!(hex_decode(&bytes("AB")), None);
    assert_eq!(hex_decode(&bytes("ab")), Some(vec![0xabu8]));
}

#[test]
fn content_hash_matches_reference_implementation() {
    let empty: Vec<u8> = Vec::new();
    let (digest, size) = hash_content(&empty);
    assert_eq!(size, 0);
    assert_eq!(
        hex_encode(&digest),
        bytes("af1349b9f5f9a1a6a0404dea36dcc9499bcb25c9adc112b7cc9a93cae41f3262"),
    );
    let data = bytes("hello world");
    let (digest2, size2) = hash_content(&data);
    assert_eq!(size2, 11);
    assert_eq!(hex_encode(&digest2), blake3::hash(b"hello world").to_hex().as_bytes().to_vec());
}

#[test]
fn payload_round_trip_every_compression_kind() {
    let mut data = Vec::new();
    for i in 0..4096u32 {
        data.push((i % 251) as u8);
    }
    for kind in [Compression::Plain, Compression::Brotli, Compression::Xz, Compression::XzParallel]
    {
        let payload = encode_payload(kind, &data).unwrap();
        let back = decode_payload(kind, &payload).unwrap();
        assert_eq!(back, data);
    }
}

#[test]
fn compressors_transform_their_input() {
    let data = vec![b'a'; 20000];
    for kind in [Compression::Brotli, Compression::Xz, Compression::XzParallel] {
        let payload = encode_payload(kind, &data).unwrap();
        assert_ne!(payload, data);
    }
    let plain = encode_payload(Compression::Plain, &data).unwrap();
    assert_eq!(plain, data);
}

#[test]
fn compression_policy_text_selects_brotli() {
    let media = bytes("text/plain");
    assert_eq!(select_compression(500 * 1024, &media), Compression::Brotli);
}

#[test]
fn compression_policy_video_stays_plain() {
    let media = bytes("video/mp4");
    assert_eq!(select_compression(2 * 1024 * 1024 * 1024, &media), Compression::Plain);
}

#[test]
fn compression_policy_unknown_binary_selects_xz() {
    let media = bytes("application/octet-stream");
    assert_eq!(select_compression(50 * 1024 * 1024, &media), Compression::Xz);
}

#[test]
fn compression_policy_huge_unknown_selects_parallel_xz() {
    let media = bytes("application/octet-stream");
    assert_eq!(select_compression(2 * 1024 * 1024 * 1024, &media), Compression::XzParallel);
}

#[test]
fn compression_policy_small_file_stays_plain() {
    let media = bytes("text/plain");
    assert_eq!(select_compression(100, &media), Compression::Plain);
}

#[test]
fn sniffed_png_counts_as_already_compressed() {
    let mut data = vec![0x89u8, 0x50, 0x4e, 0x47, 0x0d, 0x0a, 0x1a, 0x0a];
    data.resize(20000, 7u8);
    assert_eq!(determine_compression(&data, 20000), Compression::Plain);
}

#[test]
fn blob_create_is_idempotent() {
    let content = bytes("some cached output");
    let (hash1, first) = hash_and_create(false, &content);
    match first.unwrap() {
        BlobWrite::Write { data, .. } => {
            assert_eq!(data.original_hash, hex_encode(&hash1));
            assert!(matches!(data.compression, Compression::Plain));
        },
        BlobWrite::AlreadyCached => panic!("a fresh blob must be written"),
    }
    let (hash2, second) = hash_and_create(true, &content);
    assert_eq!(hash1, hash2);
    assert!(matches!(second.unwrap(), BlobWrite::AlreadyCached));
}

#[test]
fn restore_fans_out_to_three_destinations() {
    let mut content = Vec::new();
    for i in 0..30000u32 {
        content.push((i % 7) as u8);
    }
    let (_, plan) = hash_and_create(false, &content);
    let (data, payload) = match plan.unwrap() {
        BlobWrite::Write { data, payload, .. } => (data, payload),
        BlobWrite::AlreadyCached => panic!("a fresh blob must be written"),
    };
    let file = CachedFile { path: bytes("/cache/files/h/compressed"), data };
    let dests = nonempty::NonEmpty::from_vec(vec![
        bytes("/out/a.bin"),
        bytes("/out/b.bin"),
        bytes("/out/c.bin"),
    ])
    .unwrap();
    let restored = file.restore(&payload, dests).unwrap();
    assert_eq!(restored.destinations.len(), 3);
    assert_eq!(restored.destinations[0], bytes("/out/a.bin"));
    assert_eq!(restored.destinations[1], bytes("/out/b.bin"));
    assert_eq!(restored.destinations[2], bytes("/out/c.bin"));
    assert_eq!(restored.content, content);
}

#[test]
fn open_reports_each_missing_component() {
    let folder = CacheFolder::new(bytes("/cache"));
    let hex = bytes("ab12");
    match CachedFile::open(&folder, &hex, false, false, false, None) {
        Err(CacheError::OpenPathError(p)) => assert_eq!(p, bytes("/cache/files/ab12")),
        other => panic!("wrong outcome: {:?}", other.is_ok()),
    }
    match CachedFile::open(&folder, &hex, true, false, false, None) {
        Err(CacheError::OpenPathError(p)) => assert_eq!(p, bytes("/cache/files/ab12/file.json")),
        other => panic!("wrong outcome: {:?}", other.is_ok()),
    }
    match CachedFile::open(&folder, &hex, true, true, false, None) {
        Err(CacheError::OpenPathError(p)) => assert_eq!(p, bytes("/cache/files/ab12/compressed")),
        other => panic!("wrong outcome: {:?}", other.is_ok()),
    }
    match CachedFile::open(&folder, &hex, true, true, true, None) {
        Err(CacheError::MalformedData) => {},
        other => panic!("wrong outcome: {:?}", other.is_ok()),
    }
    let data = StoredCacheFile {
        created: bytes("2024-01-01T00:00:00+00:00"),
        original_hash: bytes("ab12"),
        compression: Compression::Xz,
    };
    let opened = CachedFile::open(&folder, &hex, true, true, true, Some(data)).unwrap();
    assert_eq!(opened.path, bytes("/cache/files/ab12/compressed"));
    assert_eq!(opened.data.original_hash, bytes("ab12"));
}

#[test]
fn file_cache_dir_reuses_a_files_suffix() {
    assert_eq!(to_file_cache_dir(&bytes("/cache")), bytes("/cache/files"));
    assert_eq!(to_file_cache_dir(&bytes("/cache/files")), bytes("/cache/files"));
    assert_eq!(to_file_cache_dir(&bytes("profiles")), bytes("profiles/files"));
}

#[test]
fn command_lookup_distinguishes_missing_and_corrupt() {
    let folder = CacheFolder::new(bytes("/cache"));
    let hex = bytes("ff00");
    match folder.get_cashed_command(&hex, false, false, None) {
        Err(CacheError::OpenPathError(p)) => assert_eq!(p, bytes("/cache/commands/ff00")),
        other => panic!("wrong outcome: {:?}", other.is_ok()),
    }
    match folder.get_cashed_command(&hex, true, false, None) {
        Err(CacheError::OpenPathError(p)) => {
            assert_eq!(p, bytes("/cache/commands/ff00/command.json"))
        },
        other => panic!("wrong outcome: {:?}", other.is_ok()),
    }
    match folder.get_cashed_command(&hex, true, true, None) {
        Err(CacheError::MalformedData) => {},
        other => panic!("wrong outcome: {:?}", other.is_ok()),
    }
}

#[test]
fn identical_outputs_become_one_association() {
    let same = bytes("1111");
    let other = bytes("2222");
    let files = vec![
        HashedOutput { path: bytes("out/a.txt"), hash: same.clone(), size: 10 },
        HashedOutput { path: bytes("out/b.txt"), hash: same.clone(), size: 10 },
        HashedOutput { path: bytes("out/c.txt"), hash: other.clone(), size: 4 },
    ];
    let groups = group_output_files(&files);
    assert_eq!(groups.len(), 2);
    assert_eq!(groups[0].hash, same);
    assert_eq!(groups[0].paths, vec![bytes("out/a.txt"), bytes("out/b.txt")]);
    assert_eq!(groups[0].size, 10);
    assert_eq!(groups[1].hash, other);
    assert_eq!(groups[1].paths, vec![bytes("out/c.txt")]);
    let assoc = groups[0].to_output_file();
    assert_eq!(assoc.paths, vec![bytes("out/a.txt"), bytes("out/b.txt")]);
    assert_eq!(assoc.hash, hex_encode(&same));
}

#[test]
fn dedup_paths_keeps_first_occurrences() {
    let paths = vec![bytes("a"), bytes("b"), bytes("a"), bytes("c"), bytes("b")];
    assert_eq!(dedup_paths(&paths), vec![bytes("a"), bytes("b"), bytes("c")]);
}

#[test]
fn stored_file_document_bytes_are_exact() {
    let data = StoredCacheFile {
        created: bytes("2024-05-06T07:08:09+00:00"),
        original_hash: bytes("00ff"),
        compression: Compression::Brotli,
    };
    assert_eq!(
        data.to_json(),
        bytes(
            "{\"created\":\"2024-05-06T07:08:09+00:00\",\"original_hash\":\"00ff\",\"compression\":\"Brotli\"}",
        ),
    );
}

#[test]
fn record_document_bytes_are_exact() {
    let record = CachedCommand {
        command_line: bytes("echo \"hi\\there\"\n"),
        env: vec![simple_ci_cache::fingerprint::EnvEntry {
            name: bytes("PATH"),
            value: bytes("/bin"),
        }],
        hash: bytes("aa"),
        created: bytes("t1"),
        last_accessed: bytes("t2"),
        log: bytes("bb"),
        output_files: vec![
            OutputFile { paths: vec![bytes("x"), bytes("y")], hash: bytes("cc") },
            OutputFile { paths: vec![bytes("z")], hash: bytes("dd") },
        ],
    };
    let expected = "{\"command_line\":\"echo \\\"hi\\\\there\\\"\\n\",\"env\":{\"PATH\":\"/bin\"},\"hash\":\"aa\",\"created\":\"t1\",\"last_accessed\":\"t2\",\"log\":\"bb\",\"output_files\":[{\"paths\":[\"x\",\"y\"],\"hash\":\"cc\"},{\"paths\":[\"z\"],\"hash\":\"dd\"}]}";
    assert_eq!(String::from_utf8(record.to_json()).unwrap(), expected);
}

#[test]
fn record_document_matches_external_json_parser() {
    let record = CachedCommand {
        command_line: bytes("make all\twith\u{8}controls"),
        env: vec![],
        hash: bytes("aa"),
        created: bytes("t1"),
        last_accessed: bytes("t2"),
        log: bytes("bb"),
        output_files: vec![],
    };
    let text = String::from_utf8(record.to_json()).unwrap();
    let parsed: serde_json::Value = serde_json::from_str(&text).unwrap();
    assert_eq!(parsed["command_line"], "make all\twith\u{8}controls");
    assert_eq!(parsed["hash"], "aa");
    assert_eq!(parsed["output_files"].as_array().unwrap().len(), 0);
}

#[test]
fn corrupt_payload_fails_to_decode() {
    let garbage = bytes("this is not an xz stream");
    assert!(matches!(decode_payload(Compression::Xz, &garbage), Err(CacheError::IoFailure)));
    assert!(matches!(
        decode_payload(Compression::XzParallel, &garbage),
        Err(CacheError::IoFailure)
    ));
}

#[test]
fn metadata_document_round_trips_through_the_parser() {
    for kind in [Compression::Plain, Compression::Brotli, Compression::Xz, Compression::XzParallel]
    {
        let data = StoredCacheFile {
            created: bytes("2024-05-06T07:08:09+00:00"),
            original_hash: bytes("00ff12ab"),
            compression: kind,
        };
        let doc = data.to_json();
        let back = simple_ci_cache::blob::parse_file_json(&doc).unwrap();
        assert_eq!(back.created, bytes("2024-05-06T07:08:09+00:00"));
        assert_eq!(back.original_hash, bytes("00ff12ab"));
        assert_eq!(back.compression, kind);
    }
}

#[test]
fn corrupt_metadata_documents_are_rejected() {
    assert!(simple_ci_cache::blob::parse_file_json(&bytes("")).is_none());
    assert!(simple_ci_cache::blob::parse_file_json(&bytes("{}")).is_none());
    assert!(simple_ci_cache::blob::parse_file_json(&bytes(
        "{\"created\":\"t\",\"original_hash\":\"aa\",\"compression\":\"Gzip\"}",
    ))
    .is_none());
    assert!(simple_ci_cache::blob::parse_file_json(&bytes(
        "{\"created\":\"t\",\"original_hash\":\"aa\",\"compression\":\"Xz\"} ",
    ))
    .is_none());
}

#[test]
fn scenario_identical_outputs_stored_once_and_restored_everywhere() {
    // the command wrote out/a.txt and out/b.txt with identical bytes
    let content = bytes("artifact bytes");
    let (h, size) = hash_content(&content);
    let files = vec![
        HashedOutput { path: bytes("out/a.txt"), hash: h.clone(), size },
        HashedOutput { path: bytes("out/b.txt"), hash: h.clone(), size },
    ];
    let groups = group_output_files(&files);
    assert_eq!(groups.len(), 1);
    let assoc = groups[0].to_output_file();
    assert_eq!(assoc.paths, vec![bytes("out/a.txt"), bytes("out/b.txt")]);

    // one blob is stored for the shared content
    let (digest, plan) = hash_and_create(false, &content);
    assert_eq!(digest, h);
    let (data, payload) = match plan.unwrap() {
        BlobWrite::Write { data, payload, .. } => (data, payload),
        BlobWrite::AlreadyCached => panic!("first store must write"),
    };

    // on a later hit the association restores both paths from that one blob
    let file = CachedFile { path: Vec::new(), data };
    let dests = nonempty::NonEmpty::from_vec(assoc.paths.clone()).unwrap();
    let restored = file.restore(&payload, dests).unwrap();
    assert_eq!(restored.destinations, assoc.paths);
    assert_eq!(restored.content, content);
}
