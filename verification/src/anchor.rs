//! Anchor index: deterministic anchors derived from semantic string keys.
//!
//! The key grammar is `identity.<id>.posts`, `identity.<id>.following`,
//! `identity.<id>.followers`, `hashtag.<token>` and `cashtag.<token>`, as
//! byte strings. Equal keys always derive the same anchor; ensuring an
//! anchor that already exists is a no-op.

use vstd::prelude::*;

verus! {

use crate::store::{Store, StoreV, Record, RecordV, find_rec, put_store, put_hash};

/// The bytes of `"identity."`.
pub open spec fn ident_prefix() -> Seq<u8> {
    seq![
        'i' as u8,
        'd' as u8,
        'e' as u8,
        'n' as u8,
        't' as u8,
        'i' as u8,
        't' as u8,
        'y' as u8,
        '.' as u8,
    ]
}

/// The bytes of `".posts"`.
pub open spec fn posts_suffix() -> Seq<u8> {
    seq!['.' as u8, 'p' as u8, 'o' as u8, 's' as u8, 't' as u8, 's' as u8]
}

/// The bytes of `".following"`.
pub open spec fn following_suffix() -> Seq<u8> {
    seq![
        '.' as u8,
        'f' as u8,
        'o' as u8,
        'l' as u8,
        'l' as u8,
        'o' as u8,
        'w' as u8,
        'i' as u8,
        'n' as u8,
        'g' as u8,
    ]
}

/// The bytes of `".followers"`.
pub open spec fn followers_suffix() -> Seq<u8> {
    seq![
        '.' as u8,
        'f' as u8,
        'o' as u8,
        'l' as u8,
        'l' as u8,
        'o' as u8,
        'w' as u8,
        'e' as u8,
        'r' as u8,
        's' as u8,
    ]
}

/// The bytes of `"hashtag."`.
pub open spec fn hashtag_prefix() -> Seq<u8> {
    seq!['h' as u8, 'a' as u8, 's' as u8, 'h' as u8, 't' as u8, 'a' as u8, 'g' as u8, '.' as u8]
}

/// The bytes of `"cashtag."`.
pub open spec fn cashtag_prefix() -> Seq<u8> {
    seq!['c' as u8, 'a' as u8, 's' as u8, 'h' as u8, 't' as u8, 'a' as u8, 'g' as u8, '.' as u8]
}

/// Key of the anchor holding an identity's posts.
pub open spec fn key_posts(id: Seq<u8>) -> Seq<u8> {
    ident_prefix() + id + posts_suffix()
}

/// Key of the anchor holding whom an identity follows.
pub open spec fn key_following(id: Seq<u8>) -> Seq<u8> {
    ident_prefix() + id + following_suffix()
}

/// Key of the anchor holding an identity's followers.
pub open spec fn key_followers(id: Seq<u8>) -> Seq<u8> {
    ident_prefix() + id + followers_suffix()
}

/// Key of the anchor indexing a hashtag token.
pub open spec fn key_hashtag(tag: Seq<u8>) -> Seq<u8> {
    hashtag_prefix() + tag
}

/// Key of the anchor indexing a cashtag token.
pub open spec fn key_cashtag(tag: Seq<u8>) -> Seq<u8> {
    cashtag_prefix() + tag
}

/// Anchor hash for `key` after materializing it.
pub open spec fn ensure_spec(s: StoreV, key: Seq<u8>) -> (StoreV, int) {
    (put_store(s, RecordV::Anchor(key)), put_hash(s, RecordV::Anchor(key)))
}

/// Anchor hash for `key` without materializing: `None` when it was never
/// ensured.
pub open spec fn locate_spec(s: StoreV, key: Seq<u8>) -> Option<int> {
    find_rec(s.records, RecordV::Anchor(key))
}

/// Appends `src` to `dst`.
pub fn append_bytes(dst: &mut Vec<u8>, src: &Vec<u8>)
    ensures
        final(dst)@ == old(dst)@ + src@,
{
    let mut i: usize = 0;
    proof {
        assert(dst@ =~= dst@ + src@.take(0));
    }
    while i < src.len()
        invariant
            i <= src@.len(),
            dst@ == old(dst)@ + src@.take(i as int),
        decreases src@.len() - i,
    {
        let b = src[i];
        dst.push(b);
        proof {
            assert(src@.take(i + 1) =~= src@.take(i as int).push(src@[i as int]));
            assert(old(dst)@ + src@.take(i + 1) =~= (old(dst)@ + src@.take(i as int)).push(
                src@[i as int],
            ));
        }
        i += 1;
    }
    proof {
        assert(src@.take(src@.len() as int) =~= src@);
    }
}

/// Builds `identity.<id>.posts`.
pub fn posts_key(id: &Vec<u8>) -> (k: Vec<u8>)
    ensures
        k@ == key_posts(id@),
{
    let mut k: Vec<u8> = Vec::new();
    k.push('i' as u8);
    k.push('d' as u8);
    k.push('e' as u8);
    k.push('n' as u8);
    k.push('t' as u8);
    k.push('i' as u8);
    k.push('t' as u8);
    k.push('y' as u8);
    k.push('.' as u8);
    append_bytes(&mut k, id);
    k.push('.' as u8);
    k.push('p' as u8);
    k.push('o' as u8);
    k.push('s' as u8);
    k.push('t' as u8);
    k.push('s' as u8);
    proof {
        assert(k@ =~= key_posts(id@));
    }
    k
}

/// Builds `identity.<id>.following`.
pub fn following_key(id: &Vec<u8>) -> (k: Vec<u8>)
    ensures
        k@ == key_following(id@),
{
    let mut k: Vec<u8> = Vec::new();
    k.push('i' as u8);
    k.push('d' as u8);
    k.push('e' as u8);
    k.push('n' as u8);
    k.push('t' as u8);
    k.push('i' as u8);
    k.push('t' as u8);
    k.push('y' as u8);
    k.push('.' as u8);
    append_bytes(&mut k, id);
    k.push('.' as u8);
    k.push('f' as u8);
    k.push('o' as u8);
    k.push('l' as u8);
    k.push('l' as u8);
    k.push('o' as u8);
    k.push('w' as u8);
    k.push('i' as u8);
    k.push('n' as u8);
    k.push('g' as u8);
    proof {
        assert(k@ =~= key_following(id@));
    }
    k
}

/// Builds `identity.<id>.followers`.
pub fn followers_key(id: &Vec<u8>) -> (k: Vec<u8>)
    ensures
        k@ == key_followers(id@),
{
    let mut k: Vec<u8> = Vec::new();
    k.push('i' as u8);
    k.push('d' as u8);
    k.push('e' as u8);
    k.push('n' as u8);
    k.push('t' as u8);
    k.push('i' as u8);
    k.push('t' as u8);
    k.push('y' as u8);
    k.push('.' as u8);
    append_bytes(&mut k, id);
    k.push('.' as u8);
    k.push('f' as u8);
    k.push('o' as u8);
    k.push('l' as u8);
    k.push('l' as u8);
    k.push('o' as u8);
    k.push('w' as u8);
    k.push('e' as u8);
    k.push('r' as u8);
    k.push('s' as u8);
    proof {
        assert(k@ =~= key_followers(id@));
    }
    k
}

/// Builds `hashtag.<tag>`.
pub fn hashtag_key(tag: &Vec<u8>) -> (k: Vec<u8>)
    ensures
        k@ == key_hashtag(tag@),
{
    let mut k: Vec<u8> = Vec::new();
    k.push('h' as u8);
    k.push('a' as u8);
    k.push('s' as u8);
    k.push('h' as u8);
    k.push('t' as u8);
    k.push('a' as u8);
    k.push('g' as u8);
    k.push('.' as u8);
    append_bytes(&mut k, tag);
    proof {
        assert(k@ =~= key_hashtag(tag@));
    }
    k
}

/// Builds `cashtag.<tag>`.
pub fn cashtag_key(tag: &Vec<u8>) -> (k: Vec<u8>)
    ensures
        k@ == key_cashtag(tag@),
{
    let mut k: Vec<u8> = Vec::new();
    k.push('c' as u8);
    k.push('a' as u8);
    k.push('s' as u8);
    k.push('h' as u8);
    k.push('t' as u8);
    k.push('a' as u8);
    k.push('g' as u8);
    k.push('.' as u8);
    append_bytes(&mut k, tag);
    proof {
        assert(k@ =~= key_cashtag(tag@));
    }
    k
}

/// Materializes the anchor for `key` and returns its hash; a no-op when the
/// anchor already exists.
pub fn ensure_anchor(store: &mut Store, key: Vec<u8>) -> (h: usize)
    requires
        old(store)@.wf(),
    ensures
        final(store)@.wf(),
        final(store)@ == ensure_spec(old(store)@, key@).0,
        h as int == ensure_spec(old(store)@, key@).1,
        h < final(store)@.records.len(),
        final(store)@.records[h as int] == RecordV::Anchor(key@),
{
    store.put(Record::Anchor(key))
}

/// Derives the anchor for `key` without materializing it: `None` when the
/// anchor was never ensured, in which case listing its edges is empty.
pub fn locate_anchor(store: &Store, key: Vec<u8>) -> (h: Option<usize>)
    ensures
        match h {
            Some(i) => locate_spec(store@, key@) == Some(i as int),
            None => locate_spec(store@, key@) is None,
        },
{
    store.locate(&Record::Anchor(key))
}

/// Keys of different kinds never collide, whatever identities or tokens
/// they are built from: the identity keys end in distinct suffixes, and
/// tag keys start with a different prefix than identity keys.
pub proof fn lemma_keys_distinct(x: Seq<u8>, y: Seq<u8>)
    ensures
        key_following(x) != key_followers(y),
        key_following(x) != key_posts(y),
        key_followers(x) != key_posts(y),
        key_posts(x) != key_hashtag(y),
        key_posts(x) != key_cashtag(y),
        key_following(x) != key_hashtag(y),
        key_following(x) != key_cashtag(y),
        key_followers(x) != key_hashtag(y),
        key_followers(x) != key_cashtag(y),
        key_hashtag(x) != key_cashtag(y),
{
    let kg = key_following(x);
    let kw = key_followers(y);
    let kwx = key_followers(x);
    let kp = key_posts(y);
    assert(kg[kg.len() - 1] == 'g' as u8);
    assert(kw[kw.len() - 1] == 's' as u8);
    assert(kp[kp.len() - 1] == 's' as u8);
    if kg == kw {
        assert(kg[kg.len() - 1] == kw[kw.len() - 1]);
        assert(false);
    }
    if kg == kp {
        assert(false);
    }
    if kwx == key_posts(y) {
        assert(kwx[kwx.len() - 2] == 'r' as u8);
        assert(key_posts(y)[key_posts(y).len() - 2] == 't' as u8);
        assert(false);
    }
    assert(key_posts(x)[0] == 'i' as u8);
    assert(key_following(x)[0] == 'i' as u8);
    assert(key_followers(x)[0] == 'i' as u8);
    assert(key_hashtag(y)[0] == 'h' as u8);
    assert(key_cashtag(y)[0] == 'c' as u8);
    assert(key_hashtag(x)[0] == 'h' as u8);
}

/// Ensuring an anchor twice yields the same hash both times and leaves the
/// store exactly as after the first call: anchors are idempotent.
pub proof fn lemma_ensure_idempotent(s: StoreV, key: Seq<u8>)
    ensures
        ensure_spec(ensure_spec(s, key).0, key).0 == ensure_spec(s, key).0,
        ensure_spec(ensure_spec(s, key).0, key).1 == ensure_spec(s, key).1,
{
    let r = RecordV::Anchor(key);
    let s1 = put_store(s, r);
    match find_rec(s.records, r) {
        Some(i) => {
            crate::store::lemma_find_from_some(s.records, r, 0, i);
        },
        None => {
            crate::store::lemma_find_from_none(s.records, r, 0);
            crate::store::lemma_find_pushed(s.records, r, 0);
        },
    }
}

} // verus!
