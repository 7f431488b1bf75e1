//! The delete path: a delete writes a delete-marker version through the
//! same CRDT-merged object table as an upload, so that replicas converge
//! and readers observe the marker as the latest version. Batch deletes
//! aggregate per-key outcomes without failing the batch.

use vstd::prelude::*;

use crate::data::{lex_lt, spec_hex, FixedBytes32};
use crate::error::Error;
use crate::object_table::{Object, ObjectVersion, ObjectVersionData, ObjectVersionState};
use crate::put::{max_timestamp, next_timestamp, spec_next_timestamp};

verus! {

/// Whether `a` was written before `b`: versions order by
/// `(timestamp, uuid)`.
pub open spec fn version_older(a: ObjectVersion, b: ObjectVersion) -> bool {
    a.timestamp < b.timestamp || (a.timestamp == b.timestamp && lex_lt(a.uuid@, b.uuid@))
}

fn version_older_exec(a: &ObjectVersion, b: &ObjectVersion) -> (r: bool)
    ensures
        r == version_older(*a, *b),
{
    a.timestamp < b.timestamp || (a.timestamp == b.timestamp && a.uuid.lt(&b.uuid))
}

/// The version order is irreflexive.
pub proof fn lemma_version_older_irrefl(a: ObjectVersion)
    ensures
        !version_older(a, a),
{
    crate::data::lemma_lex_lt_irrefl(a.uuid@);
}

/// The version order is transitive.
pub proof fn lemma_version_older_trans(a: ObjectVersion, b: ObjectVersion, c: ObjectVersion)
    requires
        version_older(a, b),
        version_older(b, c),
    ensures
        version_older(a, c),
{
    if a.timestamp == b.timestamp && b.timestamp == c.timestamp {
        crate::data::lemma_lex_lt_trans(a.uuid@, b.uuid@, c.uuid@);
    }
}

/// What one delete decides: which version it reports as deleted, the fresh
/// delete-marker version, and the tombstone row to insert.
#[derive(Debug)]
pub struct DeleteOutcome {
    /// The newest version not `Aborted` (else the newest overall, else the
    /// zero uuid), reported to the client.
    pub deleted_version: FixedBytes32,
    /// The uuid of the delete marker written.
    pub delete_marker_version: FixedBytes32,
    /// The object row to insert: one delete-marker version.
    pub tombstone: Object,
}

/// Decide one delete against the current object row: absent key reports
/// `NoSuchKey`; otherwise a delete-marker version with a fresh uuid and the
/// next timestamp is produced, and the version it shadows is named.
pub fn handle_delete_internal(
    existing_object: Option<&Object>,
    bucket_id: FixedBytes32,
    key: &String,
    del_uuid: FixedBytes32,
    now_msec: u64,
) -> (r: Result<DeleteOutcome, Error>)
    requires
        existing_object is Some ==> max_timestamp(existing_object->Some_0.versions@) < u64::MAX,
    ensures
        r is Err <==> existing_object is None,
        r is Err ==> r->Err_0 is NoSuchKey,
        r is Ok ==> ({
            let o = existing_object->Some_0;
            let vs = o.versions@;
            let out = r->Ok_0;
            &&& out.delete_marker_version == del_uuid
            &&& out.tombstone.wf()
            &&& out.tombstone.bucket_id == bucket_id
            &&& out.tombstone.key@ == key@
            &&& out.tombstone.versions@.len() == 1
            &&& out.tombstone.versions@[0].uuid == del_uuid
            &&& out.tombstone.versions@[0].timestamp as int == spec_next_timestamp(vs, now_msec)
            &&& out.tombstone.versions@[0].state@ == crate::object_table::StateV::Complete(
                crate::object_table::DataV::DeleteMarker,
            )
            &&& (vs.len() == 0 ==> out.deleted_version@ == Seq::new(32, |i: int| 0u8))
            &&& ((exists|i: int|
                0 <= i < vs.len() && !((#[trigger] vs[i]).state@ is Aborted)) ==> exists|i: int|
                {
                    &&& 0 <= i < vs.len()
                    &&& !((#[trigger] vs[i]).state@ is Aborted)
                    &&& out.deleted_version == vs[i].uuid
                    &&& forall|j: int|
                        0 <= j < vs.len() && !((#[trigger] vs[j]).state@ is Aborted)
                            ==> !version_older(vs[i], vs[j])
                })
            &&& ((vs.len() > 0 && forall|i: int|
                0 <= i < vs.len() ==> (#[trigger] vs[i]).state@ is Aborted) ==> exists|i: int|
                {
                    &&& 0 <= i < vs.len()
                    &&& out.deleted_version == vs[i].uuid
                    &&& forall|j: int| 0 <= j < vs.len() ==> !version_older(vs[i], vs[j])
                })
        }),
{
    let o = match existing_object {
        None => {
            return Err(Error::NoSuchKey);
        },
        Some(o) => o,
    };
    let del_timestamp = next_timestamp(existing_object, now_msec);
    let vs = o.versions();

    let mut best_live: usize = 0;
    let mut have_live = false;
    let mut best_any: usize = 0;
    let mut have_any = false;
    let mut i: usize = 0;
    while i < vs.len()
        invariant
            vs@ == existing_object->Some_0.versions@,
            i <= vs@.len(),
            have_any == (i > 0),
            have_any ==> 0 <= best_any < i,
            have_any ==> forall|j: int|
                0 <= j < i ==> !version_older(vs@[best_any as int], #[trigger] vs@[j]),
            have_live ==> 0 <= best_live < i && !(vs@[best_live as int].state@ is Aborted),
            have_live ==> forall|j: int|
                0 <= j < i && !((#[trigger] vs@[j]).state@ is Aborted) ==> !version_older(
                    vs@[best_live as int],
                    vs@[j],
                ),
            !have_live ==> forall|j: int| 0 <= j < i ==> (#[trigger] vs@[j]).state@ is Aborted,
        decreases vs@.len() - i,
    {
        let newer_any = if !have_any {
            true
        } else {
            version_older_exec(&vs[best_any], &vs[i])
        };
        if newer_any {
            proof {
                assert forall|j: int| 0 <= j <= i implies !version_older(
                    vs@[i as int],
                    vs@[j],
                ) by {
                    if j == i {
                        lemma_version_older_irrefl(vs@[i as int]);
                    } else if version_older(vs@[i as int], vs@[j]) {
                        lemma_version_older_trans(vs@[best_any as int], vs@[i as int], vs@[j]);
                    }
                }
            }
            best_any = i;
        }
        have_any = true;
        let aborted = vs[i].state.is_aborted();
        if !aborted {
            let newer_live = if !have_live {
                true
            } else {
                version_older_exec(&vs[best_live], &vs[i])
            };
            if newer_live {
                proof {
                    assert forall|j: int|
                        0 <= j <= i && !((#[trigger] vs@[j]).state@ is Aborted) implies
                        !version_older(vs@[i as int], vs@[j]) by {
                        if j == i {
                            lemma_version_older_irrefl(vs@[i as int]);
                        } else if have_live && version_older(vs@[i as int], vs@[j]) {
                            lemma_version_older_trans(
                                vs@[best_live as int],
                                vs@[i as int],
                                vs@[j],
                            );
                        }
                    }
                }
                best_live = i;
            }
            have_live = true;
        }
        i = i + 1;
    }

    let deleted_version = if have_live {
        vs[best_live].uuid
    } else if have_any {
        vs[best_any].uuid
    } else {
        FixedBytes32::zero()
    };

    let mut versions: Vec<ObjectVersion> = Vec::new();
    versions.push(
        ObjectVersion {
            uuid: del_uuid,
            timestamp: del_timestamp,
            state: ObjectVersionState::Complete(ObjectVersionData::DeleteMarker),
        },
    );
    let tombstone = Object::new(bucket_id, key.clone(), versions);
    Ok(DeleteOutcome { deleted_version, delete_marker_version: del_uuid, tombstone })
}

// ------------------------------------------------------------------
// The batch delete request grammar: an XML document of the form
// `<Delete><Object><Key>…</Key></Object>*<Quiet>true|false</Quiet>?</Delete>`,
// with an optional XML declaration, attributes skipped, the five
// predefined entities in text, and whitespace between elements.
// ------------------------------------------------------------------

/// XML whitespace.
pub open spec fn is_xml_ws(c: u8) -> bool {
    c == 32 || c == 9 || c == 13 || c == 10
}

/// A character that may stand in an element name here.
pub open spec fn is_name_byte(c: u8) -> bool {
    !is_xml_ws(c) && c != 60 && c != 62 && c != 47 && c != 38 && c != 63
}

/// The first position at or after `i` holding a non-whitespace byte.
pub open spec fn skip_ws(s: Seq<u8>, i: int) -> int
    decreases s.len() - i,
    when 0 <= i <= s.len()
{
    if i < s.len() && is_xml_ws(s[i]) {
        skip_ws(s, i + 1)
    } else {
        i
    }
}

/// Whether `pat` occurs in `s` at position `i`.
pub open spec fn match_at(s: Seq<u8>, i: int, pat: Seq<u8>) -> bool {
    0 <= i && i + pat.len() <= s.len() && s.subrange(i, i + pat.len()) == pat
}

/// The position of the next `>` at or after `i`.
pub open spec fn find_gt(s: Seq<u8>, i: int) -> Option<int>
    decreases s.len() - i,
    when 0 <= i <= s.len()
{
    if i >= s.len() {
        None
    } else if s[i] == 62 {
        Some(i)
    } else {
        find_gt(s, i + 1)
    }
}

/// The element name starting at `i`, and the position after it.
pub open spec fn scan_name(s: Seq<u8>, i: int, acc: Seq<u8>) -> (Seq<u8>, int)
    decreases s.len() - i,
    when 0 <= i <= s.len()
{
    if i < s.len() && is_name_byte(s[i]) {
        scan_name(s, i + 1, acc.push(s[i]))
    } else {
        (acc, i)
    }
}

/// What follows an element name: `>`, `/>`, or attributes skipped up to the
/// closing `>`. Yields whether the element was self-closing and the
/// position after the `>`.
pub open spec fn open_rest(s: Seq<u8>, i: int) -> Option<(bool, int)> {
    if i >= s.len() {
        None
    } else if s[i] == 62 {
        Some((false, i + 1))
    } else if s[i] == 47 {
        if i + 1 < s.len() && s[i + 1] == 62 {
            Some((true, i + 2))
        } else {
            None
        }
    } else if is_xml_ws(s[i]) {
        match find_gt(s, i) {
            None => None,
            Some(g) => Some((s[g - 1] == 47, g + 1)),
        }
    } else {
        None
    }
}

/// Text content up to the next `<`, with the five predefined entities
/// decoded. `acc` carries the bytes decoded so far.
pub open spec fn parse_text(s: Seq<u8>, i: int, acc: Seq<u8>, fuel: nat) -> Option<(Seq<u8>, int)>
    decreases fuel,
{
    if fuel == 0 {
        None
    } else if i < 0 || i >= s.len() {
        None
    } else if s[i] == 60 {
        Some((acc, i))
    } else if s[i] == 38 {
        if match_at(s, i, seq![38u8, 97u8, 109u8, 112u8, 59u8]) {
            parse_text(s, i + 5, acc.push(38u8), (fuel - 1) as nat)
        } else if match_at(s, i, seq![38u8, 108u8, 116u8, 59u8]) {
            parse_text(s, i + 4, acc.push(60u8), (fuel - 1) as nat)
        } else if match_at(s, i, seq![38u8, 103u8, 116u8, 59u8]) {
            parse_text(s, i + 4, acc.push(62u8), (fuel - 1) as nat)
        } else if match_at(s, i, seq![38u8, 113u8, 117u8, 111u8, 116u8, 59u8]) {
            parse_text(s, i + 6, acc.push(34u8), (fuel - 1) as nat)
        } else if match_at(s, i, seq![38u8, 97u8, 112u8, 111u8, 115u8, 59u8]) {
            parse_text(s, i + 6, acc.push(39u8), (fuel - 1) as nat)
        } else {
            None
        }
    } else {
        parse_text(s, i + 1, acc.push(s[i]), (fuel - 1) as nat)
    }
}

/// The bytes of `</name>`.
pub open spec fn close_pattern(name: Seq<u8>) -> Seq<u8> {
    seq![60u8, 47u8] + name + seq![62u8]
}

/// The name `Key`.
pub open spec fn key_name() -> Seq<u8> {
    seq![75u8, 101u8, 121u8]
}

/// The name `Object`.
pub open spec fn object_name() -> Seq<u8> {
    seq![79u8, 98u8, 106u8, 101u8, 99u8, 116u8]
}

/// The name `Quiet`.
pub open spec fn quiet_name() -> Seq<u8> {
    seq![81u8, 117u8, 105u8, 101u8, 116u8]
}

/// The name `Delete`.
pub open spec fn delete_name() -> Seq<u8> {
    seq![68u8, 101u8, 108u8, 101u8, 116u8, 101u8]
}

/// The text `true`.
pub open spec fn true_text() -> Seq<u8> {
    seq![116u8, 114u8, 117u8, 101u8]
}

/// The children of one `<Object>`: simple elements, of which the first
/// `<Key>` (required, non-empty) names the key to delete. Yields the key
/// and the position after `</Object>`.
pub open spec fn parse_object_children(
    s: Seq<u8>,
    i: int,
    key_acc: Option<Seq<u8>>,
    fuel: nat,
) -> Option<(Option<Seq<u8>>, int)>
    decreases fuel,
{
    if fuel == 0 || i < 0 || i > s.len() {
        None
    } else {
        let j = skip_ws(s, i);
        if match_at(s, j, close_pattern(object_name())) {
            Some((key_acc, j + 9))
        } else if j >= s.len() || s[j] != 60 {
            None
        } else {
            let (name, p) = scan_name(s, j + 1, Seq::empty());
            if name.len() == 0 {
                None
            } else {
                match open_rest(s, p) {
                    None => None,
                    Some((true, q)) => if name == key_name() {
                        None
                    } else {
                        parse_object_children(s, q, key_acc, (fuel - 1) as nat)
                    },
                    Some((false, q)) => match parse_text(s, q, Seq::empty(), fuel) {
                        None => None,
                        Some((text, t)) => if match_at(s, t, close_pattern(name)) {
                            let pos = t + name.len() + 3;
                            if name == key_name() {
                                if text.len() == 0 {
                                    None
                                } else if key_acc is None {
                                    parse_object_children(s, pos, Some(text), (fuel - 1) as nat)
                                } else {
                                    parse_object_children(s, pos, key_acc, (fuel - 1) as nat)
                                }
                            } else {
                                parse_object_children(s, pos, key_acc, (fuel - 1) as nat)
                            }
                        } else {
                            None
                        },
                    },
                }
            }
        }
    }
}

/// The children of `<Delete>`: `<Object>` and `<Quiet>` elements, in any
/// number and order, the last `<Quiet>` winning. Yields the keys in
/// request order, the quiet flag, and the position after `</Delete>`.
pub open spec fn parse_delete_items(
    s: Seq<u8>,
    i: int,
    objs: Seq<Seq<u8>>,
    quiet: bool,
    fuel: nat,
) -> Option<(Seq<Seq<u8>>, bool, int)>
    decreases fuel,
{
    if fuel == 0 || i < 0 || i > s.len() {
        None
    } else {
        let j = skip_ws(s, i);
        if match_at(s, j, close_pattern(delete_name())) {
            Some((objs, quiet, j + 9))
        } else if j >= s.len() || s[j] != 60 {
            None
        } else {
            let (name, p) = scan_name(s, j + 1, Seq::empty());
            if name == object_name() {
                match open_rest(s, p) {
                    None => None,
                    Some((true, _)) => None,
                    Some((false, q)) => match parse_object_children(s, q, None, fuel) {
                        None => None,
                        Some((None, _)) => None,
                        Some((Some(k), pos)) => parse_delete_items(
                            s,
                            pos,
                            objs.push(k),
                            quiet,
                            (fuel - 1) as nat,
                        ),
                    },
                }
            } else if name == quiet_name() {
                match open_rest(s, p) {
                    None => None,
                    Some((true, _)) => None,
                    Some((false, q)) => match parse_text(s, q, Seq::empty(), fuel) {
                        None => None,
                        Some((text, t)) => if match_at(s, t, close_pattern(quiet_name())) {
                            if text.len() == 0 {
                                None
                            } else {
                                parse_delete_items(
                                    s,
                                    t + 8,
                                    objs,
                                    text == true_text(),
                                    (fuel - 1) as nat,
                                )
                            }
                        } else {
                            None
                        },
                    },
                }
            } else {
                None
            }
        }
    }
}

/// Whether only whitespace remains from `pos` to the end.
pub open spec fn only_ws_left(s: Seq<u8>, pos: int) -> bool {
    0 <= pos <= s.len() && skip_ws(s, pos) == s.len()
}

/// The root: an optional XML declaration, then the `<Delete>` element,
/// then nothing but whitespace.
pub open spec fn spec_parse_delete_root(s: Seq<u8>, i: int) -> Option<(bool, Seq<Seq<u8>>)>
    recommends
        0 <= i <= s.len(),
{
    let j = skip_ws(s, i);
    if j >= s.len() || s[j] != 60 {
        None
    } else {
        let (name, p) = scan_name(s, j + 1, Seq::empty());
        if name != delete_name() {
            None
        } else {
            match open_rest(s, p) {
                None => None,
                Some((true, q)) => if only_ws_left(s, q) {
                    Some((false, Seq::empty()))
                } else {
                    None
                },
                Some((false, q)) => match parse_delete_items(
                    s,
                    q,
                    Seq::empty(),
                    false,
                    (s.len() + 1) as nat,
                ) {
                    None => None,
                    Some((objs, quiet, pos)) => if only_ws_left(s, pos) {
                        Some((quiet, objs))
                    } else {
                        None
                    },
                },
            }
        }
    }
}

/// What a batch delete request body denotes: the quiet flag and the key
/// byte strings, or nothing where the body is not a well-formed request.
pub open spec fn spec_parse_delete(s: Seq<u8>) -> Option<(bool, Seq<Seq<u8>>)> {
    let i0 = skip_ws(s, 0);
    if match_at(s, i0, seq![60u8, 63u8]) {
        match find_gt(s, i0) {
            None => None,
            Some(g) => spec_parse_delete_root(s, g + 1),
        }
    } else {
        spec_parse_delete_root(s, i0)
    }
}

fn skip_ws_exec(s: &Vec<u8>, i: usize) -> (r: usize)
    requires
        i <= s@.len(),
    ensures
        r as int == skip_ws(s@, i as int),
        i <= r <= s@.len(),
{
    let mut cur = i;
    while cur < s.len() && (s[cur] == 32 || s[cur] == 9 || s[cur] == 13 || s[cur] == 10)
        invariant
            i <= cur <= s@.len(),
            skip_ws(s@, i as int) == skip_ws(s@, cur as int),
        decreases s@.len() - cur,
    {
        cur = cur + 1;
    }
    cur
}

fn match_at_exec(s: &Vec<u8>, i: usize, pat: &[u8]) -> (r: bool)
    ensures
        r == match_at(s@, i as int, pat@),
{
    if i > s.len() || s.len() - i < pat.len() {
        return false;
    }
    let n = pat.len();
    let mut k: usize = 0;
    while k < n
        invariant
            s@.len() <= usize::MAX,
            i + n <= s@.len(),
            n == pat@.len(),
            k <= n,
            forall|j: int| 0 <= j < k ==> s@[i + j] == pat@[j],
        decreases n - k,
    {
        proof {
            assert(i + k < s@.len());
        }
        if s[i + k] != pat[k] {
            assert(s@.subrange(i as int, i + n)[k as int] != pat@[k as int]);
            return false;
        }
        k = k + 1;
    }
    assert(s@.subrange(i as int, i + n) =~= pat@);
    true
}

fn find_gt_exec(s: &Vec<u8>, i: usize) -> (r: Option<usize>)
    requires
        i <= s@.len(),
    ensures
        match r {
            Some(g) => find_gt(s@, i as int) == Some(g as int) && i <= g < s@.len() && s@[g as int]
                == 62,
            None => find_gt(s@, i as int) is None,
        },
{
    let mut cur = i;
    while cur < s.len()
        invariant
            i <= cur <= s@.len(),
            find_gt(s@, i as int) == find_gt(s@, cur as int),
        decreases s@.len() - cur,
    {
        if s[cur] == 62 {
            return Some(cur);
        }
        cur = cur + 1;
    }
    None
}

fn is_name_byte_exec(c: u8) -> (r: bool)
    ensures
        r == is_name_byte(c),
{
    !(c == 32 || c == 9 || c == 13 || c == 10) && c != 60 && c != 62 && c != 47 && c != 38 && c
        != 63
}

fn scan_name_exec(s: &Vec<u8>, i: usize) -> (r: (Vec<u8>, usize))
    requires
        i <= s@.len(),
    ensures
        scan_name(s@, i as int, Seq::empty()) == (r.0@, r.1 as int),
        i <= r.1 <= s@.len(),
{
    let mut acc: Vec<u8> = Vec::new();
    let mut cur = i;
    while cur < s.len() && is_name_byte_exec(s[cur])
        invariant
            i <= cur <= s@.len(),
            scan_name(s@, i as int, Seq::empty()) == scan_name(s@, cur as int, acc@),
        decreases s@.len() - cur,
    {
        acc.push(s[cur]);
        cur = cur + 1;
    }
    (acc, cur)
}

fn open_rest_exec(s: &Vec<u8>, i: usize) -> (r: Option<(bool, usize)>)
    requires
        i <= s@.len(),
    ensures
        match r {
            None => open_rest(s@, i as int) is None,
            Some((sc, q)) => open_rest(s@, i as int) == Some((sc, q as int)) && q <= s@.len(),
        },
{
    if i >= s.len() {
        return None;
    }
    let c = s[i];
    if c == 62 {
        return Some((false, i + 1));
    }
    if c == 47 {
        if i + 1 < s.len() && s[i + 1] == 62 {
            return Some((true, i + 2));
        }
        return None;
    }
    if c == 32 || c == 9 || c == 13 || c == 10 {
        match find_gt_exec(s, i) {
            None => None,
            Some(g) => Some((s[g - 1] == 47, g + 1)),
        }
    } else {
        None
    }
}

fn parse_text_exec(s: &Vec<u8>, i: usize, fuel: usize) -> (r: Option<(Vec<u8>, usize)>)
    ensures
        match r {
            None => parse_text(s@, i as int, Seq::empty(), fuel as nat) is None,
            Some((t, p)) => parse_text(s@, i as int, Seq::empty(), fuel as nat) == Some(
                (t@, p as int),
            ) && p < s@.len(),
        },
{
    let slen = s.len();
    proof {
        assert(s@.len() <= usize::MAX);
    }
    let mut acc: Vec<u8> = Vec::new();
    let mut cur = i;
    let mut f = fuel;
    loop
        invariant
            s@.len() <= usize::MAX,
            parse_text(s@, i as int, Seq::empty(), fuel as nat) == parse_text(
                s@,
                cur as int,
                acc@,
                f as nat,
            ),
        decreases f,
    {
        if f == 0 {
            return None;
        }
        if cur >= s.len() {
            return None;
        }
        let c = s[cur];
        if c == 60 {
            return Some((acc, cur));
        }
        if c == 38 {
            let amp: [u8; 5] = [38, 97, 109, 112, 59];
            let lt: [u8; 4] = [38, 108, 116, 59];
            let gt: [u8; 4] = [38, 103, 116, 59];
            let quot: [u8; 6] = [38, 113, 117, 111, 116, 59];
            let apos: [u8; 6] = [38, 97, 112, 111, 115, 59];
            proof {
                assert(amp@ =~= seq![38u8, 97u8, 109u8, 112u8, 59u8]);
                assert(lt@ =~= seq![38u8, 108u8, 116u8, 59u8]);
                assert(gt@ =~= seq![38u8, 103u8, 116u8, 59u8]);
                assert(quot@ =~= seq![38u8, 113u8, 117u8, 111u8, 116u8, 59u8]);
                assert(apos@ =~= seq![38u8, 97u8, 112u8, 111u8, 115u8, 59u8]);
            }
            if match_at_exec(s, cur, amp.as_slice()) {
                acc.push(38);
                cur = cur + 5;
            } else if match_at_exec(s, cur, lt.as_slice()) {
                acc.push(60);
                cur = cur + 4;
            } else if match_at_exec(s, cur, gt.as_slice()) {
                acc.push(62);
                cur = cur + 4;
            } else if match_at_exec(s, cur, quot.as_slice()) {
                acc.push(34);
                cur = cur + 6;
            } else if match_at_exec(s, cur, apos.as_slice()) {
                acc.push(39);
                cur = cur + 6;
            } else {
                return None;
            }
            f = f - 1;
        } else {
            acc.push(c);
            cur = cur + 1;
            f = f - 1;
        }
    }
}

fn bytes_eq(a: &Vec<u8>, pat: &[u8]) -> (r: bool)
    ensures
        r == (a@ == pat@),
{
    if a.len() != pat.len() {
        assert(a@.len() != pat@.len());
        return false;
    }
    let n = a.len();
    let mut k: usize = 0;
    while k < n
        invariant
            n == a@.len(),
            n == pat@.len(),
            k <= n,
            forall|j: int| 0 <= j < k ==> a@[j] == pat@[j],
        decreases n - k,
    {
        if a[k] != pat[k] {
            return false;
        }
        k = k + 1;
    }
    assert(a@ =~= pat@);
    true
}

fn match_close_exec(s: &Vec<u8>, i: usize, name: &Vec<u8>) -> (r: bool)
    ensures
        r == match_at(s@, i as int, close_pattern(name@)),
{
    let mut pat: Vec<u8> = Vec::new();
    pat.push(60);
    pat.push(47);
    let mut k: usize = 0;
    while k < name.len()
        invariant
            k <= name@.len(),
            pat@ == seq![60u8, 47u8] + name@.take(k as int),
        decreases name@.len() - k,
    {
        pat.push(name[k]);
        proof {
            assert(pat@ =~= seq![60u8, 47u8] + name@.take(k + 1));
        }
        k = k + 1;
    }
    pat.push(62);
    proof {
        assert(name@.take(name@.len() as int) =~= name@);
        assert(pat@ =~= close_pattern(name@));
    }
    match_at_exec(s, i, pat.as_slice())
}

fn parse_object_children_exec(s: &Vec<u8>, i: usize, fuel: usize) -> (r: Option<
    (Option<Vec<u8>>, usize),
>)
    requires
        i <= s@.len(),
    ensures
        match r {
            None => parse_object_children(s@, i as int, None, fuel as nat) is None,
            Some((kopt, pos)) => parse_object_children(s@, i as int, None, fuel as nat) == Some(
                (
                    match kopt {
                        Some(k) => Some(k@),
                        None => None,
                    },
                    pos as int,
                ),
            ) && pos <= s@.len(),
        },
{
    let slen = s.len();
    proof {
        assert(s@.len() <= usize::MAX);
    }
    let mut key_acc: Option<Vec<u8>> = None;
    let mut cur = i;
    let mut f = fuel;
    loop
        invariant
            s@.len() <= usize::MAX,
            cur <= s@.len(),
            parse_object_children(s@, i as int, None, fuel as nat) == parse_object_children(
                s@,
                cur as int,
                match key_acc {
                    Some(k) => Some(k@),
                    None => None,
                },
                f as nat,
            ),
        decreases f,
    {
        if f == 0 {
            return None;
        }
        let j = skip_ws_exec(s, cur);
        let obj_name: [u8; 6] = [79, 98, 106, 101, 99, 116];
        let key_nm: [u8; 3] = [75, 101, 121];
        proof {
            assert(obj_name@ =~= object_name());
            assert(key_nm@ =~= key_name());
        }
        let mut close_obj: Vec<u8> = Vec::new();
        close_obj.push(79);
        close_obj.push(98);
        close_obj.push(106);
        close_obj.push(101);
        close_obj.push(99);
        close_obj.push(116);
        proof {
            assert(close_obj@ =~= object_name());
        }
        if match_close_exec(s, j, &close_obj) {
            proof {
                assert(close_pattern(close_obj@).len() == 9);
                assert(j + 9 <= s@.len());
            }
            return Some((key_acc, j + 9));
        }
        if j >= s.len() || s[j] != 60 {
            return None;
        }
        let (name, p) = scan_name_exec(s, j + 1);
        if name.len() == 0 {
            return None;
        }
        match open_rest_exec(s, p) {
            None => {
                return None;
            },
            Some((sc, q)) => {
                if sc {
                    if bytes_eq(&name, key_nm.as_slice()) {
                        return None;
                    }
                    cur = q;
                    f = f - 1;
                } else {
                    match parse_text_exec(s, q, f) {
                        None => {
                            return None;
                        },
                        Some((text, t)) => {
                            if !match_close_exec(s, t, &name) {
                                return None;
                            }
                            let pos = t + name.len() + 3;
                            proof {
                                assert(match_at(s@, t as int, close_pattern(name@)));
                                assert(pos <= s@.len());
                            }
                            if bytes_eq(&name, key_nm.as_slice()) {
                                if text.len() == 0 {
                                    return None;
                                }
                                let had = match &key_acc {
                                    Some(_) => true,
                                    None => false,
                                };
                                if !had {
                                    key_acc = Some(text);
                                }
                            }
                            cur = pos;
                            f = f - 1;
                        },
                    }
                }
            },
        }
    }
}

/// The views of a list of key byte strings.
pub open spec fn byte_views(s: Seq<Vec<u8>>) -> Seq<Seq<u8>> {
    s.map(|i: int, b: Vec<u8>| b@)
}

fn parse_delete_items_exec(s: &Vec<u8>, i: usize, fuel: usize) -> (r: Option<
    (Vec<Vec<u8>>, bool, usize),
>)
    requires
        i <= s@.len(),
    ensures
        match r {
            None => parse_delete_items(s@, i as int, Seq::empty(), false, fuel as nat) is None,
            Some((objs, quiet, pos)) => parse_delete_items(
                s@,
                i as int,
                Seq::empty(),
                false,
                fuel as nat,
            ) == Some((byte_views(objs@), quiet, pos as int)) && pos <= s@.len(),
        },
{
    let slen = s.len();
    proof {
        assert(s@.len() <= usize::MAX);
        assert(byte_views(Seq::empty()) =~= Seq::<Seq<u8>>::empty());
    }
    let mut objs: Vec<Vec<u8>> = Vec::new();
    let mut quiet = false;
    let mut cur = i;
    let mut f = fuel;
    loop
        invariant
            s@.len() <= usize::MAX,
            cur <= s@.len(),
            parse_delete_items(s@, i as int, Seq::empty(), false, fuel as nat)
                == parse_delete_items(s@, cur as int, byte_views(objs@), quiet, f as nat),
        decreases f,
    {
        if f == 0 {
            return None;
        }
        let j = skip_ws_exec(s, cur);
        let mut close_del: Vec<u8> = Vec::new();
        close_del.push(68);
        close_del.push(101);
        close_del.push(108);
        close_del.push(101);
        close_del.push(116);
        close_del.push(101);
        proof {
            assert(close_del@ =~= delete_name());
        }
        if match_close_exec(s, j, &close_del) {
            proof {
                assert(close_pattern(close_del@).len() == 9);
                assert(j + 9 <= s@.len());
            }
            return Some((objs, quiet, j + 9));
        }
        if j >= s.len() || s[j] != 60 {
            return None;
        }
        let (name, p) = scan_name_exec(s, j + 1);
        let obj_name: [u8; 6] = [79, 98, 106, 101, 99, 116];
        let quiet_nm: [u8; 5] = [81, 117, 105, 101, 116];
        let true_bytes: [u8; 4] = [116, 114, 117, 101];
        proof {
            assert(obj_name@ =~= object_name());
            assert(quiet_nm@ =~= quiet_name());
            assert(true_bytes@ =~= true_text());
        }
        if bytes_eq(&name, obj_name.as_slice()) {
            match open_rest_exec(s, p) {
                None => {
                    return None;
                },
                Some((sc, q)) => {
                    if sc {
                        return None;
                    }
                    match parse_object_children_exec(s, q, f) {
                        None => {
                            return None;
                        },
                        Some((kopt, pos)) => {
                            match kopt {
                                None => {
                                    return None;
                                },
                                Some(k) => {
                                    let ghost objs0 = byte_views(objs@);
                                    let ghost kv = k@;
                                    objs.push(k);
                                    proof {
                                        assert(byte_views(objs@) =~= objs0.push(kv));
                                    }
                                    cur = pos;
                                    f = f - 1;
                                },
                            }
                        },
                    }
                },
            }
        } else if bytes_eq(&name, quiet_nm.as_slice()) {
            match open_rest_exec(s, p) {
                None => {
                    return None;
                },
                Some((sc, q)) => {
                    if sc {
                        return None;
                    }
                    match parse_text_exec(s, q, f) {
                        None => {
                            return None;
                        },
                        Some((text, t)) => {
                            let mut close_q: Vec<u8> = Vec::new();
                            close_q.push(81);
                            close_q.push(117);
                            close_q.push(105);
                            close_q.push(101);
                            close_q.push(116);
                            proof {
                                assert(close_q@ =~= quiet_name());
                            }
                            if !match_close_exec(s, t, &close_q) {
                                return None;
                            }
                            if text.len() == 0 {
                                return None;
                            }
                            proof {
                                assert(close_pattern(close_q@).len() == 8);
                                assert(t + 8 <= s@.len());
                            }
                            quiet = bytes_eq(&text, true_bytes.as_slice());
                            cur = t + 8;
                            f = f - 1;
                        },
                    }
                },
            }
        } else {
            return None;
        }
    }
}

/// Parse a batch delete request body. Yields the request exactly where the
/// body denotes one under the grammar above and every key is valid UTF-8;
/// a body that denotes nothing is rejected.
#[verifier::rlimit(50)]
pub fn parse_delete_objects_xml(body: &Vec<u8>) -> (r: Option<DeleteRequest>)
    requires
        body@.len() < usize::MAX,
    ensures
        spec_parse_delete(body@) is None ==> r is None,
        r is Some ==> ({
            let spec = spec_parse_delete(body@);
            let out = r->Some_0;
            &&& spec is Some
            &&& out.quiet == spec->Some_0.0
            &&& out.objects@.len() == spec->Some_0.1.len()
            &&& forall|k: int|
                0 <= k < out.objects@.len() ==> vstd::utf8::valid_utf8(
                    #[trigger] spec->Some_0.1[k],
                ) && out.objects@[k].key@ == vstd::utf8::decode_utf8(spec->Some_0.1[k])
        }),
        (spec_parse_delete(body@) is Some && forall|k: int|
            0 <= k < spec_parse_delete(body@)->Some_0.1.len() ==> vstd::utf8::valid_utf8(
                #[trigger] spec_parse_delete(body@)->Some_0.1[k],
            )) ==> r is Some,
{
    let i0 = skip_ws_exec(body, 0);
    let decl: [u8; 2] = [60, 63];
    proof {
        assert(decl@ =~= seq![60u8, 63u8]);
    }
    let i1: usize = if match_at_exec(body, i0, decl.as_slice()) {
        match find_gt_exec(body, i0) {
            None => {
                return None;
            },
            Some(g) => g + 1,
        }
    } else {
        i0
    };
    let j = skip_ws_exec(body, i1);
    if j >= body.len() || body[j] != 60 {
        return None;
    }
    let (name, p) = scan_name_exec(body, j + 1);
    let delete_nm: [u8; 6] = [68, 101, 108, 101, 116, 101];
    proof {
        assert(delete_nm@ =~= delete_name());
    }
    if !bytes_eq(&name, delete_nm.as_slice()) {
        return None;
    }
    match open_rest_exec(body, p) {
        None => None,
        Some((sc, q)) => {
            if sc {
                if skip_ws_exec(body, q) == body.len() {
                    proof {
                        assert(spec_parse_delete(body@) == Some(
                            (false, Seq::<Seq<u8>>::empty()),
                        ));
                    }
                    return Some(DeleteRequest { quiet: false, objects: Vec::new() });
                }
                return None;
            }
            match parse_delete_items_exec(body, q, body.len() + 1) {
                None => None,
                Some((objs, quiet, pos)) => {
                    if skip_ws_exec(body, pos) != body.len() {
                        return None;
                    }
                    proof {
                        assert(spec_parse_delete(body@) == Some((quiet, byte_views(objs@))));
                    }
                    match decode_keys(&objs) {
                        Some(objects) => {
                            proof {
                                assert(spec_parse_delete(body@)->Some_0.1 == byte_views(objs@));
                                assert forall|m: int| 0 <= m < objects@.len() implies
                                    vstd::utf8::valid_utf8(
                                        #[trigger] spec_parse_delete(body@)->Some_0.1[m],
                                    ) && objects@[m].key@ == vstd::utf8::decode_utf8(
                                    spec_parse_delete(body@)->Some_0.1[m],
                                ) by {
                                    assert(spec_parse_delete(body@)->Some_0.1[m] == byte_views(
                                        objs@,
                                    )[m]);
                                    assert(objects@[m].key@ == vstd::utf8::decode_utf8(
                                        byte_views(objs@)[m],
                                    ));
                                    assert(vstd::utf8::valid_utf8(byte_views(objs@)[m]));
                                }
                            }
                            Some(DeleteRequest { quiet, objects })
                        },
                        None => {
                            proof {
                                assert(spec_parse_delete(body@)->Some_0.1 == byte_views(objs@));
                                let m = choose|m: int|
                                    0 <= m < objs@.len() && !vstd::utf8::valid_utf8(
                                        #[trigger] byte_views(objs@)[m],
                                    );
                                assert(!vstd::utf8::valid_utf8(
                                    spec_parse_delete(body@)->Some_0.1[m],
                                ));
                            }
                            None
                        },
                    }
                },
            }
        },
    }
}

fn decode_keys(objs: &Vec<Vec<u8>>) -> (r: Option<Vec<DeleteObject>>)
    ensures
        match r {
            Some(objects) => objects@.len() == objs@.len() && forall|m: int|
                0 <= m < objs@.len() ==> vstd::utf8::valid_utf8(byte_views(objs@)[m]) && (
                #[trigger] objects@[m]).key@ == vstd::utf8::decode_utf8(byte_views(objs@)[m]),
            None => exists|m: int|
                0 <= m < objs@.len() && !vstd::utf8::valid_utf8(#[trigger] byte_views(objs@)[m]),
        },
{
    let mut objects: Vec<DeleteObject> = Vec::new();
    let mut k: usize = 0;
    while k < objs.len()
        invariant
            k <= objs@.len(),
            objects@.len() == k,
            forall|m: int|
                0 <= m < k ==> vstd::utf8::valid_utf8((#[trigger] objs@[m])@) && objects@[m].key@
                    == vstd::utf8::decode_utf8(objs@[m]@),
        decreases objs@.len() - k,
    {
        let kb = crate::data::copy_bytes(&objs[k]);
        let ghost objects0 = objects@;
        match crate::data::string_from_utf8(kb) {
            Ok(key) => {
                objects.push(DeleteObject { key });
                proof {
                    assert forall|m: int|
                        0 <= m < k + 1 implies vstd::utf8::valid_utf8((#[trigger] objs@[m])@)
                        && objects@[m].key@ == vstd::utf8::decode_utf8(objs@[m]@) by {
                        if m < k {
                            assert(objects@[m] == objects0[m]);
                            assert(vstd::utf8::valid_utf8(objs@[m]@));
                        } else {
                            assert(objects@[m] == objects@.last());
                        }
                    }
                }
            },
            Err(_) => {
                proof {
                    assert(byte_views(objs@)[k as int] == objs@[k as int]@);
                    assert(!vstd::utf8::valid_utf8(byte_views(objs@)[k as int]));
                }
                return None;
            },
        }
        k = k + 1;
    }
    proof {
        assert forall|m: int| 0 <= m < objs@.len() implies vstd::utf8::valid_utf8(
            #[trigger] byte_views(objs@)[m],
        ) && objects@[m].key@ == vstd::utf8::decode_utf8(byte_views(objs@)[m]) by {
            assert(byte_views(objs@)[m] == objs@[m]@);
            assert(vstd::utf8::valid_utf8(objs@[m]@));
        }
    }
    Some(objects)
}

/// One key named in a batch delete request.
#[derive(Debug)]
pub struct DeleteObject {
    pub key: String,
}

/// A parsed batch delete request.
#[derive(Debug)]
pub struct DeleteRequest {
    pub quiet: bool,
    pub objects: Vec<DeleteObject>,
}

/// One `<Deleted>` entry of a batch delete response.
#[derive(Debug)]
pub struct Deleted {
    pub key: String,
    pub version_id: String,
    pub delete_marker_version_id: String,
}

/// One `<Error>` entry of a batch delete response.
#[derive(Debug)]
pub struct DeleteError {
    pub code: String,
    pub key: String,
    pub message: String,
}

/// The `<Deleted>` entries owed for these per-key outcomes: one per
/// successful delete, with the shadowed and marker uuids in hexadecimal —
/// none at all in quiet mode.
pub open spec fn spec_deleted_list(
    items: Seq<(String, Result<(FixedBytes32, FixedBytes32), Error>)>,
    quiet: bool,
) -> Seq<(Seq<char>, Seq<char>, Seq<char>)>
    decreases items.len(),
{
    if items.len() == 0 {
        Seq::empty()
    } else {
        let rest = spec_deleted_list(items.drop_last(), quiet);
        match items.last().1 {
            Ok((dv, marker)) => if quiet {
                rest
            } else {
                rest.push((items.last().0@, spec_hex(dv@), spec_hex(marker@)))
            },
            Err(_) => rest,
        }
    }
}

/// The `<Error>` entries owed for these per-key outcomes: one per failed
/// delete, with its AWS code and message.
pub open spec fn spec_error_list(
    items: Seq<(String, Result<(FixedBytes32, FixedBytes32), Error>)>,
) -> Seq<(Seq<char>, Seq<char>, Seq<char>)>
    decreases items.len(),
{
    if items.len() == 0 {
        Seq::empty()
    } else {
        let rest = spec_error_list(items.drop_last());
        match items.last().1 {
            Ok(_) => rest,
            Err(e) => rest.push((e.spec_aws_code(), items.last().0@, e.spec_message())),
        }
    }
}

/// The views of `<Deleted>` entries.
pub open spec fn deleted_views(s: Seq<Deleted>) -> Seq<(Seq<char>, Seq<char>, Seq<char>)> {
    s.map(|i: int, d: Deleted| (d.key@, d.version_id@, d.delete_marker_version_id@))
}

/// The views of `<Error>` entries.
pub open spec fn error_views(s: Seq<DeleteError>) -> Seq<(Seq<char>, Seq<char>, Seq<char>)> {
    s.map(|i: int, d: DeleteError| (d.code@, d.key@, d.message@))
}

/// Aggregate per-key delete outcomes into the two lists of a batch delete
/// response: successes (omitted in quiet mode) and per-item errors, the
/// batch never failing as a whole.
pub fn collect_delete_responses(
    items: &Vec<(String, Result<(FixedBytes32, FixedBytes32), Error>)>,
    quiet: bool,
) -> (r: (Vec<Deleted>, Vec<DeleteError>))
    ensures
        deleted_views(r.0@) == spec_deleted_list(items@, quiet),
        error_views(r.1@) == spec_error_list(items@),
{
    let mut deleted: Vec<Deleted> = Vec::new();
    let mut errors: Vec<DeleteError> = Vec::new();
    let mut i: usize = 0;
    proof {
        assert(items@.take(0) =~= Seq::<(String, Result<(FixedBytes32, FixedBytes32), Error>)>::empty());
        assert(deleted_views(deleted@) =~= spec_deleted_list(items@.take(0), quiet));
        assert(error_views(errors@) =~= spec_error_list(items@.take(0)));
    }
    while i < items.len()
        invariant
            i <= items@.len(),
            deleted_views(deleted@) == spec_deleted_list(items@.take(i as int), quiet),
            error_views(errors@) == spec_error_list(items@.take(i as int)),
        decreases items@.len() - i,
    {
        let item = &items[i];
        proof {
            assert(items@.take(i + 1).drop_last() =~= items@.take(i as int));
            assert(items@.take(i + 1).last() == items@[i as int]);
        }
        match &item.1 {
            Ok(pair) => {
                if !quiet {
                    deleted.push(
                        Deleted {
                            key: item.0.clone(),
                            version_id: pair.0.to_hex(),
                            delete_marker_version_id: pair.1.to_hex(),
                        },
                    );
                    proof {
                        assert(deleted_views(deleted@) =~= spec_deleted_list(
                            items@.take(i + 1),
                            quiet,
                        ));
                    }
                }
            },
            Err(e) => {
                errors.push(
                    DeleteError { code: e.aws_code(), key: item.0.clone(), message: e.message() },
                );
                proof {
                    assert(error_views(errors@) =~= spec_error_list(items@.take(i + 1)));
                }
            },
        }
        i = i + 1;
    }
    proof {
        assert(items@.take(items@.len() as int) =~= items@);
    }
    (deleted, errors)
}

} // verus!
