use object_ingest::put::{get_headers, get_mime_type};

fn h(k: &str, v: &str) -> (String, String) {
    (k.to_string(), v.to_string())
}

#[test]
fn mime_type_defaults_to_blob() {
    assert_eq!(get_mime_type(&vec![h("accept", "*/*")]), "blob");
    assert_eq!(
        get_mime_type(&vec![h("content-type", "image/png"), h("content-type", "x")]),
        "image/png"
    );
}

#[test]
fn headers_keep_standard_and_meta_pairs() {
    let input = vec![
        h("content-type", "text/plain"),
        h("cache-control", "no-store"),
        h("authorization", "credential"),
        h("x-amz-meta-owner", "alice"),
        h("expires", "0"),
        h("x-amz-date", "20240101"),
    ];
    let out = get_headers(&input);
    assert_eq!(out.content_type, "text/plain");
    assert_eq!(
        out.other,
        vec![
            h("cache-control", "no-store"),
            h("x-amz-meta-owner", "alice"),
            h("expires", "0"),
        ]
    );
}
