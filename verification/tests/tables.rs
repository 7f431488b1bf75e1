use object_ingest::block_ref_table::{BlockRef, BlockRefTable, RefcountOp};
use object_ingest::data::FixedBytes32;
use object_ingest::object_table::{
    Object, ObjectVersion, ObjectVersionData, ObjectVersionEncryption, ObjectVersionHeaders,
    ObjectVersionMeta, ObjectVersionState,
};
use object_ingest::schema::{DeletedFilter, Entry, PartitionKey, SortKey, TableSchema};
use object_ingest::version_table::{Version, VersionBacklink, VersionBlock, VersionBlockKey};

fn id(n: u8) -> FixedBytes32 {
    FixedBytes32 { b: [n; 32] }
}

fn headers() -> ObjectVersionHeaders {
    ObjectVersionHeaders {
        content_type: "blob".to_string(),
        other: Vec::new(),
    }
}

fn complete(n: u8, ts: u64, body: &[u8]) -> ObjectVersion {
    ObjectVersion {
        uuid: id(n),
        timestamp: ts,
        state: ObjectVersionState::Complete(ObjectVersionData::Inline(
            ObjectVersionMeta {
                encryption: ObjectVersionEncryption::Plain { headers: headers() },
                size: body.len() as u64,
                etag: "etag".to_string(),
            },
            body.to_vec(),
        )),
    }
}

fn uploading(n: u8, ts: u64) -> ObjectVersion {
    ObjectVersion {
        uuid: id(n),
        timestamp: ts,
        state: ObjectVersionState::Uploading {
            encryption: ObjectVersionEncryption::Plain { headers: headers() },
            multipart: false,
        },
    }
}

fn state_kind(v: &ObjectVersion) -> u8 {
    match v.state {
        ObjectVersionState::Uploading { .. } => 0,
        ObjectVersionState::Complete(_) => 1,
        ObjectVersionState::Aborted => 2,
    }
}

fn kinds_by_uuid(o: &Object) -> Vec<([u8; 32], u64, u8)> {
    let mut out: Vec<([u8; 32], u64, u8)> = o
        .versions()
        .iter()
        .map(|v| (v.uuid.b, v.timestamp, state_kind(v)))
        .collect();
    out.sort();
    out
}

#[test]
fn object_merge_commutes_on_three_records() {
    let a = Object::new(id(1), "k".to_string(), vec![uploading(3, 5), complete(4, 6, b"x")]);
    let b = Object::new(
        id(1),
        "k".to_string(),
        vec![complete(3, 5, b"y"), complete(5, 7, b"z")],
    );

    let mut ab = Object::new(id(1), "k".to_string(), a.versions().clone());
    ab.merge(&b);
    let mut ba = Object::new(id(1), "k".to_string(), b.versions().clone());
    ba.merge(&a);

    assert_eq!(kinds_by_uuid(&ab), kinds_by_uuid(&ba));
    // The shared uuid was Uploading on one side and Complete on the other:
    // Complete wins either way.
    let expect = vec![
        ([3u8; 32], 5u64, 1u8),
        ([4u8; 32], 6u64, 1u8),
        ([5u8; 32], 7u64, 1u8),
    ];
    assert_eq!(kinds_by_uuid(&ab), expect);
}

#[test]
fn object_merge_reinsert_is_noop() {
    let a = Object::new(id(1), "k".to_string(), vec![uploading(3, 5), complete(4, 6, b"x")]);
    let mut m = Object::new(id(1), "k".to_string(), a.versions().clone());
    m.merge(&a);
    assert_eq!(m.versions().len(), a.versions().len());
    assert_eq!(kinds_by_uuid(&m), kinds_by_uuid(&a));
}

#[test]
fn object_merge_assoc_on_three_rows() {
    let a = Object::new(id(1), "k".to_string(), vec![uploading(3, 5)]);
    let b = Object::new(id(1), "k".to_string(), vec![complete(3, 5, b"x")]);
    let c = Object::new(
        id(1),
        "k".to_string(),
        vec![ObjectVersion {
            uuid: id(3),
            timestamp: 5,
            state: ObjectVersionState::Aborted,
        }],
    );
    let mut ab_c = Object::new(id(1), "k".to_string(), a.versions().clone());
    ab_c.merge(&b);
    ab_c.merge(&c);
    let mut bc = Object::new(id(1), "k".to_string(), b.versions().clone());
    bc.merge(&c);
    let mut a_bc = Object::new(id(1), "k".to_string(), a.versions().clone());
    a_bc.merge(&bc);
    assert_eq!(kinds_by_uuid(&ab_c), kinds_by_uuid(&a_bc));
}

#[test]
fn concurrent_put_and_delete_both_land() {
    // The delete marker arrives between the Uploading insert and the
    // Complete insert; after all merges the row holds both versions and
    // the marker, being newest, is the visible latest.
    let mut row = Object::new(id(1), "k".to_string(), vec![uploading(3, 5)]);
    let marker = Object::new(
        id(1),
        "k".to_string(),
        vec![ObjectVersion {
            uuid: id(9),
            timestamp: 6,
            state: ObjectVersionState::Complete(ObjectVersionData::DeleteMarker),
        }],
    );
    row.merge(&marker);
    let promote = Object::new(id(1), "k".to_string(), vec![complete(3, 5, b"x")]);
    row.merge(&promote);
    assert_eq!(row.versions().len(), 2);
    let kinds = kinds_by_uuid(&row);
    assert_eq!(kinds, vec![([3u8; 32], 5u64, 1u8), ([9u8; 32], 6u64, 1u8)]);
}

#[test]
fn version_rows_union_blocks_and_or_tombstones() {
    let backlink = VersionBacklink {
        bucket_id: id(1),
        key: "k".to_string(),
    };
    let mut v1 = Version::new(id(2), backlink.clone(), false);
    v1.insert_block(
        VersionBlockKey {
            part_number: 1,
            offset: 0,
        },
        VersionBlock {
            hash: id(10),
            size: 4,
        },
    );
    let mut v2 = Version::new(id(2), backlink.clone(), false);
    v2.insert_block(
        VersionBlockKey {
            part_number: 1,
            offset: 4,
        },
        VersionBlock {
            hash: id(11),
            size: 2,
        },
    );
    v2.deleted = true;

    let mut m12 = v1.clone();
    m12.merge(&v2);
    let mut m21 = v2.clone();
    m21.merge(&v1);
    assert_eq!(m12.blocks.len(), 2);
    assert_eq!(m21.blocks.len(), 2);
    assert!(m12.deleted && m21.deleted);

    // Re-inserting the same row changes nothing.
    let before = m12.blocks.len();
    let copy = m12.clone();
    m12.merge(&copy);
    assert_eq!(m12.blocks.len(), before);
}

#[test]
fn block_ref_tombstone_wins_regardless_of_order() {
    let live = BlockRef {
        block: id(10),
        version: id(2),
        deleted: false,
    };
    let dead = BlockRef {
        block: id(10),
        version: id(2),
        deleted: true,
    };
    let mut a = live;
    a.merge_from(&dead);
    assert!(a.deleted);
    let mut b = dead;
    b.merge_from(&live);
    assert!(b.deleted);
    // And the tombstone is stable under replay.
    let mut c = a;
    c.merge_from(&a);
    assert!(c.deleted);
}

#[test]
fn refcount_edge_detector() {
    let live = BlockRef {
        block: id(10),
        version: id(2),
        deleted: false,
    };
    let dead = BlockRef {
        block: id(10),
        version: id(2),
        deleted: true,
    };
    let t = BlockRefTable {};
    match t.updated(None, Some(&live)) {
        Some(RefcountOp::Incref(h)) => assert_eq!(h, id(10)),
        _ => panic!("expected an incref"),
    }
    match t.updated(Some(&live), Some(&dead)) {
        Some(RefcountOp::Decref(h)) => assert_eq!(h, id(10)),
        _ => panic!("expected a decref"),
    }
    // Replays make no transition and ask nothing.
    assert!(t.updated(Some(&live), Some(&live)).is_none());
    assert!(t.updated(Some(&dead), Some(&dead)).is_none());
    assert!(t.updated(None, Some(&dead)).is_none());
}

#[test]
fn deleted_filter_selects_by_tombstone() {
    let live = BlockRef {
        block: id(10),
        version: id(2),
        deleted: false,
    };
    let dead = BlockRef {
        block: id(10),
        version: id(2),
        deleted: true,
    };
    assert!(BlockRefTable::matches_filter(&live, &DeletedFilter::Any));
    assert!(BlockRefTable::matches_filter(&dead, &DeletedFilter::Any));
    assert!(BlockRefTable::matches_filter(&live, &DeletedFilter::NotDeleted));
    assert!(!BlockRefTable::matches_filter(&dead, &DeletedFilter::NotDeleted));
    assert!(BlockRefTable::matches_filter(&dead, &DeletedFilter::Deleted));
    assert!(!BlockRefTable::matches_filter(&live, &DeletedFilter::Deleted));
}

#[test]
fn entry_and_keys() {
    let live = BlockRef {
        block: id(10),
        version: id(2),
        deleted: false,
    };
    assert_eq!(*live.partition_key(), id(10));
    assert_eq!(*Entry::sort_key(&live), id(2));
    // String partition keys hash by SHA-256.
    let h = "hello".to_string().hash();
    let expect = <sha2::Sha256 as sha2::Digest>::digest(b"hello");
    assert_eq!(h.b.as_slice(), expect.as_slice());
    // Identifier keys are their own partition hash, and sort by their bytes.
    assert_eq!(id(3).hash(), id(3));
    assert_eq!(SortKey::sort_key(&id(3)), [3u8; 32].as_slice());
    assert_eq!(SortKey::sort_key(&"ab".to_string()), b"ab".as_slice());
}

#[test]
fn put_block_and_meta_grows_row_and_emits_live_ref() {
    let version = Version::new(
        id(2),
        VersionBacklink {
            bucket_id: id(1),
            key: "k".to_string(),
        },
        false,
    );
    let (row, bref) = object_ingest::put::put_block_and_meta(&version, 1, 0, id(10), 4096);
    assert_eq!(row.blocks.len(), 1);
    assert_eq!(row.blocks[0].0, VersionBlockKey { part_number: 1, offset: 0 });
    assert_eq!(row.blocks[0].1.hash, id(10));
    assert_eq!(row.blocks[0].1.size, 4096);
    assert_eq!(bref.block, id(10));
    assert_eq!(bref.version, id(2));
    assert!(!bref.deleted);
    // Re-recording the same coordinates keeps the recorded entry.
    let (row2, _) = object_ingest::put::put_block_and_meta(&row, 1, 0, id(11), 1);
    assert_eq!(row2.blocks.len(), 1);
    assert_eq!(row2.blocks[0].1.hash, id(10));
}

#[test]
fn try_migrate_defaults_to_nothing() {
    assert!(BlockRefTable::try_migrate(b"old layout".as_slice()).is_none());
}

#[test]
fn hex_rendering_matches_reference() {
    let v = FixedBytes32 {
        b: [
            0x00, 0x01, 0x02, 0x03, 0x04, 0x05, 0x06, 0x07, 0x08, 0x09, 0x0a, 0x0b, 0x0c, 0x0d,
            0x0e, 0x0f, 0x10, 0x20, 0x30, 0x40, 0x50, 0x60, 0x70, 0x80, 0x90, 0xa0, 0xb0, 0xc0,
            0xd0, 0xe0, 0xf0, 0xff,
        ],
    };
    assert_eq!(v.to_hex(), hex::encode(v.b));
    assert_eq!(FixedBytes32::zero().to_hex(), "0".repeat(64));
}
