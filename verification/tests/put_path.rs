use object_ingest::data::FixedBytes32;
use object_ingest::error::Error;
use object_ingest::object_table::{
    Object, ObjectVersion, ObjectVersionData, ObjectVersionEncryption, ObjectVersionHeaders,
    ObjectVersionMeta, ObjectVersionState,
};
use object_ingest::put::{
    next_timestamp, read_and_put_blocks, save_stream, BucketCounters, BucketQuotas,
    InterruptedCleanup, StreamChunker, INLINE_THRESHOLD,
};
use object_ingest::version_table::{Version, VersionBacklink};

fn id(n: u8) -> FixedBytes32 {
    FixedBytes32 { b: [n; 32] }
}

fn plain_headers() -> ObjectVersionHeaders {
    ObjectVersionHeaders {
        content_type: "blob".to_string(),
        other: Vec::new(),
    }
}

fn no_quotas() -> BucketQuotas {
    BucketQuotas {
        max_objects: None,
        max_size: None,
    }
}

fn zero_counters() -> BucketCounters {
    BucketCounters {
        objects: 0,
        bytes: 0,
    }
}

fn put(
    body_chunks: Vec<Vec<u8>>,
    existing: Option<&Object>,
    quotas: &BucketQuotas,
    counters: &BucketCounters,
    content_md5: Option<&String>,
    content_sha256: Option<FixedBytes32>,
) -> Result<object_ingest::put::SaveStreamOutput, Error> {
    save_stream(
        id(1),
        &"key".to_string(),
        plain_headers(),
        &body_chunks,
        1 << 20,
        existing,
        quotas,
        counters,
        content_md5,
        content_sha256,
        id(2),
        1_000,
    )
}

#[test]
fn put_hello_inline_etag() {
    let out = put(
        vec![b"hello".to_vec()],
        None,
        &no_quotas(),
        &zero_counters(),
        None,
        None,
    )
    .unwrap();
    assert!(out.inline);
    assert_eq!(out.result.etag, "5d41402abc4b2a76b9719d911017c592");
    assert_eq!(out.result.version_timestamp, 1_000);
    assert_eq!(out.result.version_uuid.to_hex().len(), 64);
    assert_eq!(out.final_object.versions.len(), 1);
    let v = &out.final_object.versions[0];
    assert_eq!(v.uuid, id(2));
    match &v.state {
        ObjectVersionState::Complete(ObjectVersionData::Inline(meta, data)) => {
            assert_eq!(meta.size, 5);
            assert_eq!(meta.etag, "5d41402abc4b2a76b9719d911017c592");
            assert_eq!(data.as_slice(), b"hello");
        }
        _ => panic!("expected an inline complete version"),
    }
}

#[test]
fn empty_upload_single_inline_version_of_length_zero() {
    let out = put(
        Vec::new(),
        None,
        &no_quotas(),
        &zero_counters(),
        None,
        None,
    )
    .unwrap();
    assert!(out.inline);
    assert_eq!(out.final_object.versions.len(), 1);
    match &out.final_object.versions[0].state {
        ObjectVersionState::Complete(ObjectVersionData::Inline(meta, data)) => {
            assert_eq!(meta.size, 0);
            assert!(data.is_empty());
        }
        _ => panic!("expected an inline complete version"),
    }
}

#[test]
fn inline_threshold_boundaries() {
    // One byte short of the threshold: inline.
    let body = vec![0x42u8; INLINE_THRESHOLD - 1];
    let out = put(
        vec![body.clone()],
        None,
        &no_quotas(),
        &zero_counters(),
        None,
        None,
    )
    .unwrap();
    assert!(out.inline);
    match &out.final_object.versions[0].state {
        ObjectVersionState::Complete(ObjectVersionData::Inline(_, data)) => {
            assert_eq!(data, &body);
        }
        _ => panic!("expected inline"),
    }

    // At and above the threshold: streamed, bytes reproduced by the writes.
    for n in [INLINE_THRESHOLD, INLINE_THRESHOLD + 1] {
        let body = vec![0x42u8; n];
        let out = put(
            vec![body.clone()],
            None,
            &no_quotas(),
            &zero_counters(),
            None,
            None,
        )
        .unwrap();
        assert!(!out.inline);
        let mut read_back = Vec::new();
        for w in &out.writes {
            read_back.extend_from_slice(&w.data);
        }
        assert_eq!(read_back, body);
        match &out.final_object.versions[0].state {
            ObjectVersionState::Complete(ObjectVersionData::FirstBlock(meta, h)) => {
                assert_eq!(meta.size as usize, n);
                assert_eq!(*h, out.writes[0].hash);
            }
            _ => panic!("expected a first-block complete version"),
        }
    }
}

#[test]
fn multi_block_put_offsets_and_shared_hash() {
    let block = 4096usize;
    let body = vec![0x41u8; 4 * block];
    let out = save_stream(
        id(1),
        &"key".to_string(),
        plain_headers(),
        &vec![body.clone()],
        block,
        None,
        &no_quotas(),
        &zero_counters(),
        None,
        None,
        id(2),
        1_000,
    )
    .unwrap();
    assert!(!out.inline);
    assert_eq!(out.writes.len(), 4);
    let offsets: Vec<u64> = out.writes.iter().map(|w| w.offset).collect();
    assert_eq!(offsets, vec![0, 4096, 8192, 12288]);
    for w in &out.writes {
        // Identical plaintext blocks share one content address.
        assert_eq!(w.hash, out.writes[0].hash);
        assert_eq!(w.order_offset, w.offset);
        assert_eq!(w.part_number, 1);
        assert_eq!(w.block_ref.block, w.hash);
        assert_eq!(w.block_ref.version, id(2));
        assert!(!w.block_ref.deleted);
    }
    // The version row grows monotonically, one entry per block.
    assert_eq!(out.writes[0].version_row.blocks.len(), 1);
    assert_eq!(out.writes[3].version_row.blocks.len(), 4);
    // Block references for one (hash, version) merge to a single live row.
    let mut r = out.writes[0].block_ref;
    r.merge_from(&out.writes[1].block_ref);
    assert!(!r.deleted);
}

#[test]
fn streamed_hashes_match_reference_implementations() {
    let block = 4096usize;
    let body: Vec<u8> = (0..9000u32).map(|i| (i % 251) as u8).collect();
    let out = save_stream(
        id(1),
        &"key".to_string(),
        plain_headers(),
        &vec![body.clone()],
        block,
        None,
        &no_quotas(),
        &zero_counters(),
        None,
        None,
        id(2),
        7,
    )
    .unwrap();
    // MD5 over the whole plaintext, rendered as the etag.
    let md5 = <md5::Md5 as md5::Digest>::digest(&body);
    assert_eq!(out.result.etag, hex::encode(md5));
    // BLAKE2b content address of the first stored block.
    let b2 = <blake2::Blake2b256 as blake2::Digest>::digest(&body[..block]);
    assert_eq!(out.writes[0].hash.b.as_slice(), b2.as_slice());
}

#[test]
fn content_md5_with_quotes_is_accepted() {
    let body = b"hello".to_vec();
    let md5 = <md5::Md5 as md5::Digest>::digest(&body);
    let b64 = base64::Engine::encode(&base64::prelude::BASE64_STANDARD, md5);
    let quoted = format!("\"{}\"", b64);
    let out = put(
        vec![body.clone()],
        None,
        &no_quotas(),
        &zero_counters(),
        Some(&quoted),
        None,
    );
    assert!(out.is_ok());
    // And bare, without quotes.
    let out = put(
        vec![body],
        None,
        &no_quotas(),
        &zero_counters(),
        Some(&b64),
        None,
    );
    assert!(out.is_ok());
}

#[test]
fn content_md5_mismatch_rejected() {
    let bad = "AAAAAAAAAAAAAAAAAAAAAA==".to_string();
    let err = put(
        vec![b"hello".to_vec()],
        None,
        &no_quotas(),
        &zero_counters(),
        Some(&bad),
        None,
    )
    .unwrap_err();
    match err {
        Error::BadRequest(m) => assert_eq!(m, "Unable to validate content-md5"),
        _ => panic!("expected BadRequest"),
    }
}

#[test]
fn content_sha256_checked_both_ways() {
    let body = vec![0x41u8; 5000];
    let sha = <sha2::Sha256 as sha2::Digest>::digest(&body);
    let mut good = [0u8; 32];
    good.copy_from_slice(&sha);
    let ok = put(
        vec![body.clone()],
        None,
        &no_quotas(),
        &zero_counters(),
        None,
        Some(FixedBytes32 { b: good }),
    );
    assert!(ok.is_ok());
    let err = put(
        vec![body],
        None,
        &no_quotas(),
        &zero_counters(),
        None,
        Some(id(9)),
    )
    .unwrap_err();
    match err {
        Error::BadRequest(m) => assert_eq!(m, "Unable to validate x-amz-content-sha256"),
        _ => panic!("expected BadRequest"),
    }
}

#[test]
fn aborted_upload_never_visible_as_complete() {
    // The upload became visible as Uploading, then failed: the guard's
    // tombstone merges in and the version ends Aborted.
    let uploading = ObjectVersion {
        uuid: id(5),
        timestamp: 42,
        state: ObjectVersionState::Uploading {
            encryption: ObjectVersionEncryption::Plain {
                headers: plain_headers(),
            },
            multipart: false,
        },
    };
    let mut row = Object::new(id(1), "key".to_string(), vec![uploading]);
    let mut guard = InterruptedCleanup::new(id(1), "key".to_string(), id(5), 42);
    let cleanup = guard.cleanup_object().expect("armed guard yields a tombstone");
    row.merge(&cleanup);
    assert_eq!(row.versions.len(), 1);
    assert!(matches!(row.versions[0].state, ObjectVersionState::Aborted));

    // A finished upload disarms the guard: nothing to clean up.
    guard.cancel();
    assert!(guard.cleanup_object().is_none());
}

#[test]
fn quota_on_object_count() {
    let quotas = BucketQuotas {
        max_objects: Some(10),
        max_size: None,
    };
    let counters = BucketCounters {
        objects: 10,
        bytes: 12345,
    };
    // A new key is over quota.
    let err = put(
        vec![b"x".to_vec()],
        None,
        &quotas,
        &counters,
        None,
        None,
    )
    .unwrap_err();
    match err {
        Error::Forbidden(m) => assert_eq!(m, "Object quota is reached"),
        _ => panic!("expected Forbidden"),
    }
    // Overwriting an existing key adds no object and is allowed.
    let existing = Object::new(
        id(1),
        "key".to_string(),
        vec![ObjectVersion {
            uuid: id(7),
            timestamp: 1,
            state: ObjectVersionState::Complete(ObjectVersionData::Inline(
                ObjectVersionMeta {
                    encryption: ObjectVersionEncryption::Plain {
                        headers: plain_headers(),
                    },
                    size: 3,
                    etag: "aa".to_string(),
                },
                b"abc".to_vec(),
            )),
        }],
    );
    let ok = put(
        vec![b"x".to_vec()],
        Some(&existing),
        &quotas,
        &counters,
        None,
        None,
    );
    assert!(ok.is_ok());
}

#[test]
fn quota_on_size_allows_shrinking_replacement() {
    let quotas = BucketQuotas {
        max_objects: None,
        max_size: Some(100),
    };
    let counters = BucketCounters {
        objects: 1,
        bytes: 100,
    };
    // Growing over the limit is rejected.
    let err = put(
        vec![vec![0u8; 50]],
        None,
        &quotas,
        &counters,
        None,
        None,
    )
    .unwrap_err();
    match err {
        Error::Forbidden(m) => assert_eq!(m, "Bucket size quota is reached"),
        _ => panic!("expected Forbidden"),
    }
    // A replacement that shrinks passes even though the bucket is full.
    let existing = Object::new(
        id(1),
        "key".to_string(),
        vec![ObjectVersion {
            uuid: id(7),
            timestamp: 1,
            state: ObjectVersionState::Complete(ObjectVersionData::Inline(
                ObjectVersionMeta {
                    encryption: ObjectVersionEncryption::Plain {
                        headers: plain_headers(),
                    },
                    size: 80,
                    etag: "aa".to_string(),
                },
                Vec::new(),
            )),
        }],
    );
    let ok = put(
        vec![vec![0u8; 50]],
        Some(&existing),
        &quotas,
        &counters,
        None,
        None,
    );
    assert!(ok.is_ok());
}

#[test]
fn next_timestamp_is_past_every_version() {
    let mk = |ts: u64, n: u8| ObjectVersion {
        uuid: id(n),
        timestamp: ts,
        state: ObjectVersionState::Aborted,
    };
    let o = Object::new(id(1), "key".to_string(), vec![mk(5, 3), mk(7, 4)]);
    assert_eq!(next_timestamp(Some(&o), 3), 8);
    assert_eq!(next_timestamp(Some(&o), 100), 100);
    assert_eq!(next_timestamp(None, 31), 31);
}

#[test]
fn chunker_cuts_exact_blocks() {
    let mut c = StreamChunker::new(4);
    c.feed(b"abcde");
    c.feed(b"fgh");
    c.set_eof();
    assert_eq!(c.next(), Some(b"abcd".to_vec()));
    assert_eq!(c.next(), Some(b"efgh".to_vec()));
    assert_eq!(c.next(), None);
}

#[test]
fn sealed_pipeline_hashes_plaintext_and_addresses_sealed_bytes() {
    // With encryption on, the stream digests cover the plaintext while the
    // content address covers the sealed bytes the block layer stores.
    let version = Version::new(
        id(2),
        VersionBacklink {
            bucket_id: id(1),
            key: "key".to_string(),
        },
        false,
    );
    let mut pipeline = object_ingest::put::BlockPipeline::new(version, 1, true);
    let plaintext = b"attack at dawn".to_vec();
    let sealed = b"\x91\x02\x55\x10 not the plaintext".to_vec();
    let w = pipeline.push_block_sealed(&plaintext, sealed.clone());
    assert!(w.is_encrypted);
    assert_eq!(w.data, sealed);
    assert_eq!(w.size, plaintext.len() as u64);
    let out = pipeline.finish();
    assert_eq!(out.total_size, plaintext.len() as u64);
    let md5 = <md5::Md5 as md5::Digest>::digest(&plaintext);
    assert_eq!(out.data_md5sum, md5.to_vec());
    let b2 = <blake2::Blake2b256 as blake2::Digest>::digest(&sealed);
    assert_eq!(out.first_block_hash.b.as_slice(), b2.as_slice());
}

#[test]
fn pipeline_rows_grow_per_block() {
    let version = Version::new(
        id(2),
        VersionBacklink {
            bucket_id: id(1),
            key: "key".to_string(),
        },
        false,
    );
    let blocks = vec![b"aaaa".to_vec(), b"bb".to_vec()];
    let (writes, out) = read_and_put_blocks(version, 1, &blocks);
    assert_eq!(writes.len(), 2);
    assert_eq!(out.total_size, 6);
    assert_eq!(writes[0].version_row.blocks.len(), 1);
    assert_eq!(writes[1].version_row.blocks.len(), 2);
    assert_eq!(writes[1].offset, 4);
    assert_eq!(writes[1].size, 2);
    let md5 = <md5::Md5 as md5::Digest>::digest(b"aaaabb");
    assert_eq!(out.data_md5sum, md5.to_vec());
    assert_eq!(out.first_block_hash, writes[0].hash);
    let b2 = <blake2::Blake2b256 as blake2::Digest>::digest(b"bb");
    assert_eq!(writes[1].hash.b.as_slice(), b2.as_slice());
}
