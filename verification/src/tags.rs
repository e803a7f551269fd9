//! Tag indexer: scans post text for hashtag and cashtag tokens and attaches
//! index edges from the per-tag anchors to the post.
//!
//! A token is a maximal run `#<word-bytes>` or `$<word-bytes>`, marker
//! included, where a word byte is an ASCII letter, digit or underscore.
//! Matching is case-sensitive and tokens are not deduplicated: a tag that
//! occurs twice in the same text produces two edges.

use vstd::prelude::*;

verus! {

use crate::store::{Store, StoreV, Record, RecordV, put_store, put_hash, add_edge_spec};
use crate::anchor::{key_hashtag, key_cashtag, hashtag_key, cashtag_key, ensure_anchor};

/// Whether `b` is a word byte: ASCII letter, digit or underscore.
pub open spec fn is_word_byte(b: u8) -> bool {
    ||| ('0' as u8) <= b && b <= ('9' as u8)
    ||| ('a' as u8) <= b && b <= ('z' as u8)
    ||| ('A' as u8) <= b && b <= ('Z' as u8)
    ||| b == ('_' as u8)
}

/// Runtime check for `is_word_byte`.
pub fn word_byte(b: u8) -> (r: bool)
    ensures
        r == is_word_byte(b),
{
    (('0' as u8) <= b && b <= ('9' as u8)) || (('a' as u8) <= b && b <= ('z' as u8)) || (('A'
        as u8) <= b && b <= ('Z' as u8)) || b == ('_' as u8)
}

/// First position at or after `i` that ends a run of word bytes: the end of
/// the text or the first non-word byte.
pub open spec fn word_end(s: Seq<u8>, i: int) -> int
    decreases s.len() - i,
    when 0 <= i <= s.len()
{
    if i >= s.len() || !is_word_byte(s[i]) {
        i
    } else {
        word_end(s, i + 1)
    }
}

/// The end of a word run lies between its start and the end of the text,
/// every byte before it is a word byte, and it stops only at the end of the
/// text or at a non-word byte.
pub proof fn lemma_word_end(s: Seq<u8>, i: int)
    requires
        0 <= i <= s.len(),
    ensures
        i <= word_end(s, i) <= s.len(),
        forall|j: int| i <= j < word_end(s, i) ==> is_word_byte(s[j]),
        word_end(s, i) == s.len() || !is_word_byte(s[word_end(s, i)]),
    decreases s.len() - i,
{
    if i < s.len() && is_word_byte(s[i]) {
        lemma_word_end(s, i + 1);
    }
}

/// All tokens `<marker><word-bytes>` found scanning from position `i`,
/// leftmost first, each maximal, marker included. After a match the scan
/// resumes at the first byte past it.
pub open spec fn tags_from(s: Seq<u8>, marker: u8, i: int) -> Seq<Seq<u8>>
    decreases s.len() - i,
    when 0 <= i <= s.len()
    via tags_from_dec
{
    if i >= s.len() {
        Seq::empty()
    } else if s[i] == marker && i + 1 < s.len() && is_word_byte(s[i + 1]) {
        seq![s.subrange(i, word_end(s, i + 1))] + tags_from(s, marker, word_end(s, i + 1))
    } else {
        tags_from(s, marker, i + 1)
    }
}

#[via_fn]
proof fn tags_from_dec(s: Seq<u8>, marker: u8, i: int) {
    if i < s.len() && s[i] == marker && i + 1 < s.len() && is_word_byte(s[i + 1]) {
        lemma_word_end(s, i + 1);
    }
}

/// There are never more tokens than bytes left to scan.
pub proof fn lemma_tags_from_count(s: Seq<u8>, marker: u8, i: int)
    requires
        0 <= i <= s.len(),
    ensures
        tags_from(s, marker, i).len() <= s.len() - i,
    decreases s.len() - i,
{
    if i < s.len() {
        if s[i] == marker && i + 1 < s.len() && is_word_byte(s[i + 1]) {
            lemma_word_end(s, i + 1);
            lemma_tags_from_count(s, marker, word_end(s, i + 1));
        } else {
            lemma_tags_from_count(s, marker, i + 1);
        }
    }
}

/// The byte sequences of a vector of tokens.
pub open spec fn tag_views(ts: Seq<Vec<u8>>) -> Seq<Seq<u8>> {
    ts.map_values(|t: Vec<u8>| t@)
}

/// Extracts every `<marker><word-bytes>` token of `text`, in order.
pub fn find_tags(text: &Vec<u8>, marker: u8) -> (tags: Vec<Vec<u8>>)
    ensures
        tag_views(tags@) == tags_from(text@, marker, 0),
{
    let mut tags: Vec<Vec<u8>> = Vec::new();
    let mut i: usize = 0;
    let n = text.len();
    proof {
        assert(tag_views(tags@) + tags_from(text@, marker, 0) =~= tags_from(text@, marker, 0));
    }
    while i < n
        invariant
            i <= n,
            n == text@.len(),
            tags_from(text@, marker, 0) == tag_views(tags@) + tags_from(
                text@,
                marker,
                i as int,
            ),
        decreases n - i,
    {
        if text[i] == marker && i + 1 < n && word_byte(text[i + 1]) {
            let mut j = i + 1;
            while j < n && word_byte(text[j])
                invariant
                    i + 1 <= j <= n,
                    n == text@.len(),
                    word_end(text@, i + 1 as int) == word_end(text@, j as int),
                decreases n - j,
            {
                j += 1;
            }
            proof {
                assert(word_end(text@, j as int) == j);
                assert(j >= i + 2);
            }
            let mut tag: Vec<u8> = Vec::new();
            let mut k = i;
            while k < j
                invariant
                    i <= k <= j <= n,
                    n == text@.len(),
                    tag@ == text@.subrange(i as int, k as int),
                decreases j - k,
            {
                let b = text[k];
                tag.push(b);
                proof {
                    assert(text@.subrange(i as int, k + 1) =~= text@.subrange(
                        i as int,
                        k as int,
                    ).push(text@[k as int]));
                }
                k += 1;
            }
            let ghost pre = tags@;
            tags.push(tag);
            proof {
                assert(tag_views(tags@) =~= tag_views(pre).push(tag@));
                assert(tag_views(pre) + tags_from(text@, marker, i as int) =~= tag_views(tags@)
                    + tags_from(text@, marker, j as int));
            }
            i = j;
        } else {
            proof {
                assert(tags_from(text@, marker, i as int) == tags_from(
                    text@,
                    marker,
                    i + 1,
                ));
            }
            i += 1;
        }
    }
    proof {
        assert(tag_views(tags@) + tags_from(text@, marker, i as int) =~= tag_views(tags@));
    }
    tags
}

/// Which of the two tag families a token belongs to.
#[derive(Clone, Copy, Debug, PartialEq, Eq, Structural)]
pub enum TagKind {
    Hashtag,
    Cashtag,
}

/// Anchor key of a token of the given family.
pub open spec fn tag_anchor_key(kind: TagKind, tag: Seq<u8>) -> Seq<u8> {
    match kind {
        TagKind::Hashtag => key_hashtag(tag),
        TagKind::Cashtag => key_cashtag(tag),
    }
}

/// Builds the anchor key of a token.
pub fn tag_key(kind: TagKind, tag: &Vec<u8>) -> (k: Vec<u8>)
    ensures
        k@ == tag_anchor_key(kind, tag@),
{
    match kind {
        TagKind::Hashtag => hashtag_key(tag),
        TagKind::Cashtag => cashtag_key(tag),
    }
}

/// Store after indexing one token against `mew`: the tag anchor is ensured
/// and one untagged edge runs from it to the post.
pub open spec fn index_one_tag(s: StoreV, kind: TagKind, tag: Seq<u8>, mew: usize) -> StoreV {
    let key = tag_anchor_key(kind, tag);
    let s1 = put_store(s, RecordV::Anchor(key));
    add_edge_spec(s1, put_hash(s, RecordV::Anchor(key)) as usize, mew, None)
}

/// Store after indexing a list of tokens against `mew`, in order.
pub open spec fn index_tags_spec(s: StoreV, kind: TagKind, tags: Seq<Seq<u8>>, mew: usize) -> StoreV
    decreases tags.len(),
{
    if tags.len() == 0 {
        s
    } else {
        index_one_tag(index_tags_spec(s, kind, tags.drop_last(), mew), kind, tags.last(), mew)
    }
}

/// Indexes every token of `tags` against `mew`.
fn index_tags(store: &mut Store, kind: TagKind, tags: &Vec<Vec<u8>>, mew: usize)
    requires
        old(store)@.wf(),
        old(store)@.next_edge_id + tags@.len() <= u64::MAX,
    ensures
        final(store)@.wf(),
        final(store)@ == index_tags_spec(old(store)@, kind, tag_views(tags@), mew),
        final(store)@.next_edge_id == old(store)@.next_edge_id + tags@.len(),
{
    let mut k: usize = 0;
    proof {
        assert(tag_views(tags@).take(0) =~= Seq::<Seq<u8>>::empty());
    }
    while k < tags.len()
        invariant
            k <= tags@.len(),
            store@.wf(),
            store@ == index_tags_spec(old(store)@, kind, tag_views(tags@).take(k as int), mew),
            store@.next_edge_id == old(store)@.next_edge_id + k,
            old(store)@.next_edge_id + tags@.len() <= u64::MAX,
        decreases tags@.len() - k,
    {
        let ghost prev = store@;
        let key = tag_key(kind, &tags[k]);
        let a = ensure_anchor(store, key);
        store.create_edge(a, mew, None);
        proof {
            let tv = tag_views(tags@);
            assert(tv.take(k + 1).drop_last() =~= tv.take(k as int));
            assert(tv.take(k + 1).last() == tags@[k as int]@);
            assert(store@ == index_one_tag(prev, kind, tags@[k as int]@, mew));
        }
        k += 1;
    }
    proof {
        assert(tag_views(tags@).take(tags@.len() as int) =~= tag_views(tags@));
    }
}

/// Store after the whole tag scan of `text` against `mew`: every hashtag
/// token is indexed, then every cashtag token.
pub open spec fn parse_mew_spec(s: StoreV, text: Seq<u8>, mew: usize) -> StoreV {
    let s1 = index_tags_spec(s, TagKind::Hashtag, tags_from(text, '#' as u8, 0), mew);
    index_tags_spec(s1, TagKind::Cashtag, tags_from(text, '$' as u8, 0), mew)
}

/// Scans `text` and indexes every hashtag and cashtag token against
/// `mew_hash`. Purely additive: one edge per occurrence, never removing
/// prior index edges.
pub fn parse_mew_text(store: &mut Store, text: &Vec<u8>, mew_hash: usize)
    requires
        old(store)@.wf(),
        old(store)@.next_edge_id + 2 * text@.len() <= u64::MAX,
    ensures
        final(store)@.wf(),
        final(store)@ == parse_mew_spec(old(store)@, text@, mew_hash),
{
    proof {
        lemma_tags_from_count(text@, '#' as u8, 0);
        lemma_tags_from_count(text@, '$' as u8, 0);
    }
    let hashtags = find_tags(text, '#' as u8);
    index_tags(store, TagKind::Hashtag, &hashtags, mew_hash);
    let cashtags = find_tags(text, '$' as u8);
    index_tags(store, TagKind::Cashtag, &cashtags, mew_hash);
}

} // verus!
