use object_ingest::data::FixedBytes32;
use object_ingest::delete::{
    collect_delete_responses, handle_delete_internal, parse_delete_objects_xml,
};
use object_ingest::error::Error;
use object_ingest::object_table::{
    Object, ObjectVersion, ObjectVersionData, ObjectVersionEncryption, ObjectVersionHeaders,
    ObjectVersionMeta, ObjectVersionState,
};

fn id(n: u8) -> FixedBytes32 {
    FixedBytes32 { b: [n; 32] }
}

fn complete(n: u8, ts: u64) -> ObjectVersion {
    ObjectVersion {
        uuid: id(n),
        timestamp: ts,
        state: ObjectVersionState::Complete(ObjectVersionData::Inline(
            ObjectVersionMeta {
                encryption: ObjectVersionEncryption::Plain {
                    headers: ObjectVersionHeaders {
                        content_type: "blob".to_string(),
                        other: Vec::new(),
                    },
                },
                size: 1,
                etag: "e".to_string(),
            },
            b"x".to_vec(),
        )),
    }
}

fn aborted(n: u8, ts: u64) -> ObjectVersion {
    ObjectVersion {
        uuid: id(n),
        timestamp: ts,
        state: ObjectVersionState::Aborted,
    }
}

#[test]
fn delete_missing_key_reports_no_such_key() {
    let err = handle_delete_internal(None, id(1), &"k".to_string(), id(9), 100).unwrap_err();
    assert!(err.is_no_such_key());
    assert_eq!(err.aws_code(), "NoSuchKey");
}

#[test]
fn delete_writes_marker_with_next_timestamp() {
    let o = Object::new(id(1), "k".to_string(), vec![complete(3, 5)]);
    let out = handle_delete_internal(Some(&o), id(1), &"k".to_string(), id(9), 2).unwrap();
    assert_eq!(out.delete_marker_version, id(9));
    assert_eq!(out.deleted_version, id(3));
    assert_eq!(out.tombstone.versions.len(), 1);
    let v = &out.tombstone.versions[0];
    assert_eq!(v.uuid, id(9));
    assert_eq!(v.timestamp, 6);
    assert!(matches!(
        v.state,
        ObjectVersionState::Complete(ObjectVersionData::DeleteMarker)
    ));

    // The marker merges into the row as a second version.
    let mut row = Object::new(id(1), "k".to_string(), vec![complete(3, 5)]);
    row.merge(&out.tombstone);
    assert_eq!(row.versions.len(), 2);
}

#[test]
fn delete_reports_newest_non_aborted_version() {
    let o = Object::new(
        id(1),
        "k".to_string(),
        vec![complete(3, 5), aborted(4, 9), complete(5, 7)],
    );
    let out = handle_delete_internal(Some(&o), id(1), &"k".to_string(), id(9), 0).unwrap();
    // uuid 5 at timestamp 7 is the newest version that is not aborted.
    assert_eq!(out.deleted_version, id(5));

    // With only aborted versions, the newest overall is reported.
    let o = Object::new(id(1), "k".to_string(), vec![aborted(3, 5), aborted(4, 9)]);
    let out = handle_delete_internal(Some(&o), id(1), &"k".to_string(), id(9), 0).unwrap();
    assert_eq!(out.deleted_version, id(4));

    // With no version at all, the zero uuid is reported.
    let o = Object::new(id(1), "k".to_string(), Vec::new());
    let out = handle_delete_internal(Some(&o), id(1), &"k".to_string(), id(9), 0).unwrap();
    assert_eq!(out.deleted_version, FixedBytes32::zero());
}

#[test]
fn delete_breaks_timestamp_ties_by_uuid() {
    let o = Object::new(id(1), "k".to_string(), vec![complete(3, 5), complete(4, 5)]);
    let out = handle_delete_internal(Some(&o), id(1), &"k".to_string(), id(9), 0).unwrap();
    assert_eq!(out.deleted_version, id(4));
}

#[test]
fn batch_outcomes_aggregate_with_middle_error() {
    let items = vec![
        ("a".to_string(), Ok((id(3), id(9)))),
        (
            "b".to_string(),
            Err(Error::Internal("table insert failed".to_string())),
        ),
        ("c".to_string(), Ok((id(4), id(10)))),
    ];
    let (deleted, errors) = collect_delete_responses(&items, false);
    assert_eq!(deleted.len(), 2);
    assert_eq!(deleted[0].key, "a");
    assert_eq!(deleted[0].version_id, id(3).to_hex());
    assert_eq!(deleted[0].delete_marker_version_id, id(9).to_hex());
    assert_eq!(deleted[1].key, "c");
    assert_eq!(errors.len(), 1);
    assert_eq!(errors[0].key, "b");
    assert_eq!(errors[0].code, "InternalError");
    assert_eq!(errors[0].message, "table insert failed");

    // Quiet mode omits the successes, never the errors.
    let (deleted, errors) = collect_delete_responses(&items, true);
    assert!(deleted.is_empty());
    assert_eq!(errors.len(), 1);
}

#[test]
fn parse_plain_batch_delete() {
    let body =
        b"<Delete><Object><Key>photos/cat.jpg</Key></Object><Object><Key>b</Key></Object></Delete>"
            .to_vec();
    let req = parse_delete_objects_xml(&body).unwrap();
    assert!(!req.quiet);
    assert_eq!(req.objects.len(), 2);
    assert_eq!(req.objects[0].key, "photos/cat.jpg");
    assert_eq!(req.objects[1].key, "b");
}

#[test]
fn parse_with_declaration_whitespace_and_quiet() {
    let body = b"<?xml version=\"1.0\" encoding=\"UTF-8\"?>\n<Delete>\n  <Object>\n    <Key>a</Key>\n  </Object>\n  <Quiet>true</Quiet>\n</Delete>\n"
        .to_vec();
    let req = parse_delete_objects_xml(&body).unwrap();
    assert!(req.quiet);
    assert_eq!(req.objects.len(), 1);
    assert_eq!(req.objects[0].key, "a");
}

#[test]
fn parse_decodes_entities_in_keys() {
    let body = b"<Delete><Object><Key>a&amp;b&lt;c&gt;d&quot;e&apos;f</Key></Object></Delete>"
        .to_vec();
    let req = parse_delete_objects_xml(&body).unwrap();
    assert_eq!(req.objects[0].key, "a&b<c>d\"e'f");
}

#[test]
fn parse_quiet_false_and_extra_object_children() {
    let body =
        b"<Delete><Object><Key>a</Key><VersionId>v1</VersionId></Object><Quiet>false</Quiet></Delete>"
            .to_vec();
    let req = parse_delete_objects_xml(&body).unwrap();
    assert!(!req.quiet);
    assert_eq!(req.objects.len(), 1);
    assert_eq!(req.objects[0].key, "a");
}

#[test]
fn parse_rejects_malformed_bodies() {
    // Not a Delete document.
    assert!(parse_delete_objects_xml(&b"<Remove></Remove>".to_vec()).is_none());
    // An unknown child of Delete.
    assert!(parse_delete_objects_xml(
        &b"<Delete><Thing>x</Thing></Delete>".to_vec()
    )
    .is_none());
    // An Object without a Key.
    assert!(parse_delete_objects_xml(
        &b"<Delete><Object><VersionId>v</VersionId></Object></Delete>".to_vec()
    )
    .is_none());
    // An unterminated document.
    assert!(parse_delete_objects_xml(&b"<Delete><Object><Key>a</Key>".to_vec()).is_none());
    // Trailing garbage after the document.
    assert!(parse_delete_objects_xml(&b"<Delete></Delete>junk".to_vec()).is_none());
    // An empty key.
    assert!(
        parse_delete_objects_xml(&b"<Delete><Object><Key></Key></Object></Delete>".to_vec())
            .is_none()
    );
}

#[test]
fn parse_rejects_keys_that_are_not_utf8() {
    let mut body = b"<Delete><Object><Key>".to_vec();
    body.extend_from_slice(&[0xff, 0xfe]);
    body.extend_from_slice(b"</Key></Object></Delete>");
    assert!(parse_delete_objects_xml(&body).is_none());
}

#[test]
fn parse_empty_delete_elements() {
    let req = parse_delete_objects_xml(&b"<Delete></Delete>".to_vec()).unwrap();
    assert!(!req.quiet);
    assert!(req.objects.is_empty());
    let req = parse_delete_objects_xml(&b"<Delete/>".to_vec()).unwrap();
    assert!(!req.quiet);
    assert!(req.objects.is_empty());
}
