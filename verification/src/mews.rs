//! Post envelopes: the typed wrapper that establishes what kind of post a
//! record is and which records it references.

use vstd::prelude::*;

verus! {

use crate::store::{
    Store,
    StoreV,
    Record,
    RecordV,
    LinkTag,
    put_store,
    put_hash,
    add_edge_spec,
    clone_bytes,
};
use crate::anchor::{key_posts, posts_key, ensure_anchor};
use crate::tags::{parse_mew_spec, parse_mew_text};

/// The kind of a post, a closed tagged union. Every referenced record is
/// named by its content hash:
/// - `Original(content)` wraps a fresh body,
/// - `Reply(original, content)` answers the post at `original`,
/// - `ReMew(original)` republishes `original` and carries no body of its own,
/// - `MewMew(original, content)` republishes `original` with a quoted body.
#[derive(Clone, Copy, Debug, PartialEq, Eq, Structural)]
pub enum MewType {
    Original(usize),
    Reply(usize, usize),
    ReMew(usize),
    MewMew(usize, usize),
}

/// A post envelope: an immutable record wrapping a post's semantics. The
/// envelope is stored separately from the body it references, so identical
/// text is stored once however many envelopes point at it.
#[derive(Clone, Copy, Debug, PartialEq, Eq, Structural)]
pub struct FullMew {
    pub mew_type: MewType,
}

/// Why an operation failed: the hash resolved to nothing, the record there
/// was not a post envelope, the request itself was ill-formed (text missing
/// where a body is required, or present on a remew), or the underlying
/// store call failed. The in-memory store's own calls always succeed, so
/// `StoreFailure` is reserved for hosts whose writes can fail.
#[derive(Clone, Copy, Debug, PartialEq, Eq, Structural)]
pub enum MewError {
    NotFound,
    Malformed,
    InvalidInput,
    StoreFailure,
}

/// The requested kind of post, naming the referenced post where one is
/// required; the body text travels separately in `CreateMewInput`.
#[derive(Clone, Copy, Debug, PartialEq, Eq, Structural)]
pub enum MewTypeInput {
    Original,
    Reply(usize),
    ReMew(usize),
    MewMew(usize),
}

/// A publish request: the kind of post and, for the kinds that carry a
/// body, its text.
#[derive(Debug)]
pub struct CreateMewInput {
    pub mew_type: MewTypeInput,
    pub mew: Option<Vec<u8>>,
}

/// View of an optional body text.
pub open spec fn opt_bytes_view(o: Option<Vec<u8>>) -> Option<Seq<u8>> {
    match o {
        Some(v) => Some(v@),
        None => None,
    }
}

/// Length of the body text of a request, zero when there is none.
pub open spec fn mew_text_len(input: CreateMewInput) -> int {
    match input.mew {
        Some(v) => v@.len() as int,
        None => 0,
    }
}

/// Store and envelope hash after publishing an original post: the body is
/// stored, an `Original` envelope referencing it is stored, the author's
/// posts anchor is ensured and wired to the envelope by an untagged edge,
/// and the text is scanned for tags.
pub open spec fn create_original_spec(s: StoreV, me: Seq<u8>, text: Seq<u8>) -> (StoreV, int) {
    let c = put_hash(s, RecordV::Blob(text));
    let s1 = put_store(s, RecordV::Blob(text));
    let env = RecordV::Envelope(FullMew { mew_type: MewType::Original(c as usize) });
    let h = put_hash(s1, env);
    let s2 = put_store(s1, env);
    let a = put_hash(s2, RecordV::Anchor(key_posts(me)));
    let s3 = put_store(s2, RecordV::Anchor(key_posts(me)));
    let s4 = add_edge_spec(s3, a as usize, h as usize, None);
    (parse_mew_spec(s4, text, h as usize), h)
}

/// As `create_original_spec`, with a `Reply` envelope and one more edge,
/// tagged `Reply`, from the original post to the new envelope.
pub open spec fn create_reply_spec(s: StoreV, me: Seq<u8>, text: Seq<u8>, original: usize) -> (
    StoreV,
    int,
) {
    let c = put_hash(s, RecordV::Blob(text));
    let s1 = put_store(s, RecordV::Blob(text));
    let env = RecordV::Envelope(FullMew { mew_type: MewType::Reply(original, c as usize) });
    let h = put_hash(s1, env);
    let s2 = put_store(s1, env);
    let a = put_hash(s2, RecordV::Anchor(key_posts(me)));
    let s3 = put_store(s2, RecordV::Anchor(key_posts(me)));
    let s4 = add_edge_spec(s3, a as usize, h as usize, None);
    let s5 = add_edge_spec(s4, original, h as usize, Some(LinkTag::Reply));
    (parse_mew_spec(s5, text, h as usize), h)
}

/// Store and envelope hash after republishing `original`: a `ReMew`
/// envelope with no body of its own, wired to the author's posts anchor,
/// plus an edge tagged `Remew` from the original post. No tag scan runs.
pub open spec fn create_remew_spec(s: StoreV, me: Seq<u8>, original: usize) -> (StoreV, int) {
    let env = RecordV::Envelope(FullMew { mew_type: MewType::ReMew(original) });
    let h = put_hash(s, env);
    let s1 = put_store(s, env);
    let a = put_hash(s1, RecordV::Anchor(key_posts(me)));
    let s2 = put_store(s1, RecordV::Anchor(key_posts(me)));
    let s3 = add_edge_spec(s2, a as usize, h as usize, None);
    let s4 = add_edge_spec(s3, original, h as usize, Some(LinkTag::Remew));
    (s4, h)
}

/// As `create_reply_spec`, with a `MewMew` (quote) envelope and the edge
/// from the original tagged `Remew`.
pub open spec fn create_mewmew_spec(s: StoreV, me: Seq<u8>, text: Seq<u8>, original: usize) -> (
    StoreV,
    int,
) {
    let c = put_hash(s, RecordV::Blob(text));
    let s1 = put_store(s, RecordV::Blob(text));
    let env = RecordV::Envelope(FullMew { mew_type: MewType::MewMew(original, c as usize) });
    let h = put_hash(s1, env);
    let s2 = put_store(s1, env);
    let a = put_hash(s2, RecordV::Anchor(key_posts(me)));
    let s3 = put_store(s2, RecordV::Anchor(key_posts(me)));
    let s4 = add_edge_spec(s3, a as usize, h as usize, None);
    let s5 = add_edge_spec(s4, original, h as usize, Some(LinkTag::Remew));
    (parse_mew_spec(s5, text, h as usize), h)
}

/// Publishes an original post by `me` with body `text`; returns the
/// envelope hash.
pub fn create_original_mew(store: &mut Store, me: &Vec<u8>, text: &Vec<u8>) -> (h: usize)
    requires
        old(store)@.wf(),
        old(store)@.next_edge_id + 2 * text@.len() + 1 <= u64::MAX,
    ensures
        final(store)@.wf(),
        final(store)@ == create_original_spec(old(store)@, me@, text@).0,
        h as int == create_original_spec(old(store)@, me@, text@).1,
{
    let body = clone_bytes(text);
    let c = store.put(Record::Blob(body));
    let h = store.put(Record::Envelope(FullMew { mew_type: MewType::Original(c) }));
    let key = posts_key(me);
    let a = ensure_anchor(store, key);
    store.create_edge(a, h, None);
    parse_mew_text(store, text, h);
    h
}

/// Publishes a reply by `me` to the post at `original`; returns the
/// envelope hash.
pub fn create_reply_mew(store: &mut Store, me: &Vec<u8>, text: &Vec<u8>, original: usize) -> (h:
    usize)
    requires
        old(store)@.wf(),
        old(store)@.next_edge_id + 2 * text@.len() + 2 <= u64::MAX,
    ensures
        final(store)@.wf(),
        final(store)@ == create_reply_spec(old(store)@, me@, text@, original).0,
        h as int == create_reply_spec(old(store)@, me@, text@, original).1,
{
    let body = clone_bytes(text);
    let c = store.put(Record::Blob(body));
    let h = store.put(Record::Envelope(FullMew { mew_type: MewType::Reply(original, c) }));
    let key = posts_key(me);
    let a = ensure_anchor(store, key);
    store.create_edge(a, h, None);
    store.create_edge(original, h, Some(LinkTag::Reply));
    parse_mew_text(store, text, h);
    h
}

/// Republishes the post at `original` as a remew by `me`; returns the
/// envelope hash.
pub fn create_remew(store: &mut Store, me: &Vec<u8>, original: usize) -> (h: usize)
    requires
        old(store)@.wf(),
        old(store)@.next_edge_id + 2 <= u64::MAX,
    ensures
        final(store)@.wf(),
        final(store)@ == create_remew_spec(old(store)@, me@, original).0,
        h as int == create_remew_spec(old(store)@, me@, original).1,
{
    let h = store.put(Record::Envelope(FullMew { mew_type: MewType::ReMew(original) }));
    let key = posts_key(me);
    let a = ensure_anchor(store, key);
    store.create_edge(a, h, None);
    store.create_edge(original, h, Some(LinkTag::Remew));
    h
}

/// Publishes a quote-remew by `me` of the post at `original`, with body
/// `text`; returns the envelope hash.
pub fn create_mewmew(store: &mut Store, me: &Vec<u8>, text: &Vec<u8>, original: usize) -> (h:
    usize)
    requires
        old(store)@.wf(),
        old(store)@.next_edge_id + 2 * text@.len() + 2 <= u64::MAX,
    ensures
        final(store)@.wf(),
        final(store)@ == create_mewmew_spec(old(store)@, me@, text@, original).0,
        h as int == create_mewmew_spec(old(store)@, me@, text@, original).1,
{
    let body = clone_bytes(text);
    let c = store.put(Record::Blob(body));
    let h = store.put(Record::Envelope(FullMew { mew_type: MewType::MewMew(original, c) }));
    let key = posts_key(me);
    let a = ensure_anchor(store, key);
    store.create_edge(a, h, None);
    store.create_edge(original, h, Some(LinkTag::Remew));
    parse_mew_text(store, text, h);
    h
}

/// What fetching a post returns: `NotFound` when the hash resolves to no
/// record, `Malformed` when the record there is not a post envelope, and
/// the envelope otherwise — exactly one of the three, for every hash.
pub open spec fn get_mew_spec(s: StoreV, h: usize) -> Result<FullMew, MewError> {
    if h >= s.records.len() {
        Err(MewError::NotFound)
    } else {
        match s.records[h as int] {
            RecordV::Envelope(fm) => Ok(fm),
            _ => Err(MewError::Malformed),
        }
    }
}

/// Fetches the post envelope at `h`.
pub fn get_mew(store: &Store, h: usize) -> (r: Result<FullMew, MewError>)
    ensures
        r == get_mew_spec(store@, h),
{
    match store.get(h) {
        None => Err(MewError::NotFound),
        Some(rec) => match rec {
            Record::Envelope(fm) => Ok(*fm),
            _ => Err(MewError::Malformed),
        },
    }
}

/// Store and result of a publish request: each kind that carries a body
/// is rejected with `InvalidInput` when the text is missing, a remew is
/// rejected when text is present, and a rejected request leaves the store
/// untouched; otherwise the matching publish runs.
pub open spec fn create_mew_spec(
    s: StoreV,
    me: Seq<u8>,
    input_type: MewTypeInput,
    text: Option<Seq<u8>>,
) -> (StoreV, Result<int, MewError>) {
    match input_type {
        MewTypeInput::Original => match text {
            Some(t) => ((create_original_spec(s, me, t).0, Ok(create_original_spec(s, me, t).1))),
            None => ((s, Err(MewError::InvalidInput))),
        },
        MewTypeInput::Reply(o) => match text {
            Some(t) => ((create_reply_spec(s, me, t, o).0, Ok(create_reply_spec(s, me, t, o).1))),
            None => ((s, Err(MewError::InvalidInput))),
        },
        MewTypeInput::ReMew(o) => match text {
            Some(_) => ((s, Err(MewError::InvalidInput))),
            None => ((create_remew_spec(s, me, o).0, Ok(create_remew_spec(s, me, o).1))),
        },
        MewTypeInput::MewMew(o) => match text {
            Some(t) => ((create_mewmew_spec(s, me, t, o).0, Ok(create_mewmew_spec(s, me, t, o).1))),
            None => ((s, Err(MewError::InvalidInput))),
        },
    }
}

/// Publishes a post for `me` according to the request, dispatching on its
/// kind and rejecting kind/text mismatches with `InvalidInput`.
pub fn create_mew(store: &mut Store, me: &Vec<u8>, input: CreateMewInput) -> (r: Result<
    usize,
    MewError,
>)
    requires
        old(store)@.wf(),
        old(store)@.next_edge_id + 2 * mew_text_len(input) + 2 <= u64::MAX,
    ensures
        final(store)@.wf(),
        final(store)@ == create_mew_spec(
            old(store)@,
            me@,
            input.mew_type,
            opt_bytes_view(input.mew),
        ).0,
        (match r {
            Ok(h) => create_mew_spec(
                old(store)@,
                me@,
                input.mew_type,
                opt_bytes_view(input.mew),
            ).1 == Ok::<int, MewError>(h as int),
            Err(e) => create_mew_spec(
                old(store)@,
                me@,
                input.mew_type,
                opt_bytes_view(input.mew),
            ).1 == Err::<int, MewError>(e),
        }),
{
    match input.mew_type {
        MewTypeInput::Original => match input.mew {
            Some(text) => Ok(create_original_mew(store, me, &text)),
            None => Err(MewError::InvalidInput),
        },
        MewTypeInput::Reply(original) => match input.mew {
            Some(text) => Ok(create_reply_mew(store, me, &text, original)),
            None => Err(MewError::InvalidInput),
        },
        MewTypeInput::ReMew(original) => match input.mew {
            Some(_) => Err(MewError::InvalidInput),
            None => Ok(create_remew(store, me, original)),
        },
        MewTypeInput::MewMew(original) => match input.mew {
            Some(text) => Ok(create_mewmew(store, me, &text, original)),
            None => Err(MewError::InvalidInput),
        },
    }
}

} // verus!
