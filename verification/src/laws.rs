//! Laws of the graph index, stated over the spec-level store transitions
//! and proved once and for all: what tag indexing adds and preserves, what
//! following makes visible, what unfollowing removes, and what a reply
//! leaves behind.

use vstd::prelude::*;

verus! {

use crate::store::{
    StoreV,
    RecordV,
    Edge,
    find_rec,
    put_store,
    put_hash,
    add_edge_spec,
    edges_from_spec,
    leaves_from,
    keeps_id,
    remove_edge_spec,
    find_from,
    lemma_put_props,
    lemma_add_edge_props,
    lemma_find_from_extend,
    lemma_find_from_some,
    lemma_find_from_none,
    lemma_find_from_hit,
    lemma_filter_push,
    lemma_filter_is_subset,
};
use crate::tags::{TagKind, tag_anchor_key, index_tags_spec, tags_from, parse_mew_spec};
use crate::anchor::{
    key_posts,
    key_following,
    key_followers,
    key_hashtag,
    key_cashtag,
    lemma_keys_distinct,
};
use crate::mews::{
    FullMew,
    MewType,
    MewError,
    create_original_spec,
    create_reply_spec,
    get_mew_spec,
};
use crate::feed::{FeedMew, feed_from_edges, feed_at_key, mews_by_spec};
use crate::store::LinkTag;
use crate::follows::{
    FollowBase,
    follow_spec,
    unfollow_spec,
    unfollow_half,
    find_edge_to,
    follow_list_spec,
    idents_from,
};

/// Record lists only ever grow: prefix order is transitive.
pub proof fn lemma_prefix_trans(a: Seq<RecordV>, b: Seq<RecordV>, c: Seq<RecordV>)
    requires
        a.is_prefix_of(b),
        b.is_prefix_of(c),
    ensures
        a.is_prefix_of(c),
{
    assert(a =~= c.subrange(0, a.len() as int));
}

/// The `k`-th edge that indexing `tags` appended to `s` (whose edge list
/// had `base` entries) is an untagged edge, stamped with `s`'s clock, from
/// the anchor of the `k`-th token's key to the post `mew`.
pub open spec fn tag_edge_ok(
    s: StoreV,
    t: StoreV,
    kind: TagKind,
    tags: Seq<Seq<u8>>,
    mew: usize,
    k: int,
) -> bool {
    let e = t.edges[s.edges.len() + k];
    &&& e.to == mew
    &&& e.tag is None
    &&& e.created_at == s.now
    &&& (e.from as int) < t.records.len()
    &&& t.records[e.from as int] == RecordV::Anchor(tag_anchor_key(kind, tags[k]))
}

/// What indexing a token list does to the store: exactly one new edge per
/// token — occurrences are not deduplicated — each untagged, from the
/// token's anchor to the post; prior records and edges are untouched and
/// the clock does not move.
pub proof fn lemma_index_tags_props(s: StoreV, kind: TagKind, tags: Seq<Seq<u8>>, mew: usize)
    requires
        s.wf(),
        s.next_edge_id + tags.len() <= u64::MAX,
        s.records.len() + tags.len() <= usize::MAX,
    ensures
        index_tags_spec(s, kind, tags, mew).wf(),
        s.records.is_prefix_of(index_tags_spec(s, kind, tags, mew).records),
        index_tags_spec(s, kind, tags, mew).records.len() <= s.records.len() + tags.len(),
        index_tags_spec(s, kind, tags, mew).now == s.now,
        index_tags_spec(s, kind, tags, mew).next_edge_id == s.next_edge_id + tags.len(),
        index_tags_spec(s, kind, tags, mew).edges.len() == s.edges.len() + tags.len(),
        forall|j: int|
            0 <= j < s.edges.len() ==> index_tags_spec(s, kind, tags, mew).edges[j] == s.edges[j],
        forall|k: int|
            0 <= k < tags.len() ==> tag_edge_ok(s, index_tags_spec(s, kind, tags, mew), kind, tags, mew, k),
    decreases tags.len(),
{
    if tags.len() > 0 {
        let front = tags.drop_last();
        let prev = index_tags_spec(s, kind, front, mew);
        lemma_index_tags_props(s, kind, front, mew);
        let key = tag_anchor_key(kind, tags.last());
        let anchor = RecordV::Anchor(key);
        let mid = put_store(prev, anchor);
        let a = put_hash(prev, anchor);
        lemma_put_props(prev, anchor);
        lemma_add_edge_props(mid, a as usize, mew, None);
        let t = index_tags_spec(s, kind, tags, mew);
        assert(t == add_edge_spec(mid, a as usize, mew, None));
        lemma_prefix_trans(s.records, prev.records, t.records);
        assert forall|k: int| 0 <= k < tags.len() implies tag_edge_ok(s, t, kind, tags, mew, k) by {
            if k < tags.len() - 1 {
                assert(tag_edge_ok(s, prev, kind, front, mew, k));
                let e = prev.edges[s.edges.len() + k];
                assert(t.edges[s.edges.len() + k] == e);
                assert(prev.records.is_prefix_of(t.records));
                assert(prev.records =~= t.records.subrange(0, prev.records.len() as int));
                assert(t.records[e.from as int] == prev.records[e.from as int]);
                assert(front[k] == tags[k]);
            } else {
                let e = t.edges[s.edges.len() + k];
                assert(e == Edge {
                    id: mid.next_edge_id,
                    from: a as usize,
                    to: mew,
                    tag: None,
                    created_at: mid.now,
                });
                assert(0 <= a < mid.records.len());
                assert(a as int == a);
                assert(t.records[a as int] == anchor);
            }
        }
    }
}

/// What the whole tag scan of `text` does to the store: one edge per
/// hashtag occurrence and one per cashtag occurrence — `n` occurrences of
/// the same token give `n` edges — and nothing else: prior records and
/// edges stay, the clock does not move.
pub proof fn lemma_parse_props(s: StoreV, text: Seq<u8>, mew: usize)
    requires
        s.wf(),
        s.next_edge_id + 2 * text.len() <= u64::MAX,
        s.records.len() + 2 * text.len() <= usize::MAX,
    ensures
        parse_mew_spec(s, text, mew).wf(),
        s.records.is_prefix_of(parse_mew_spec(s, text, mew).records),
        parse_mew_spec(s, text, mew).records.len() <= s.records.len() + 2 * text.len(),
        parse_mew_spec(s, text, mew).now == s.now,
        parse_mew_spec(s, text, mew).edges.len() == s.edges.len() + tags_from(
            text,
            '#' as u8,
            0,
        ).len() + tags_from(text, '$' as u8, 0).len(),
        forall|j: int|
            0 <= j < s.edges.len() ==> parse_mew_spec(s, text, mew).edges[j] == s.edges[j],
{
    let hs = tags_from(text, '#' as u8, 0);
    let cs = tags_from(text, '$' as u8, 0);
    crate::tags::lemma_tags_from_count(text, '#' as u8, 0);
    crate::tags::lemma_tags_from_count(text, '$' as u8, 0);
    let s1 = index_tags_spec(s, TagKind::Hashtag, hs, mew);
    lemma_index_tags_props(s, TagKind::Hashtag, hs, mew);
    lemma_index_tags_props(s1, TagKind::Cashtag, cs, mew);
    lemma_prefix_trans(s.records, s1.records, parse_mew_spec(s, text, mew).records);
}

/// What publishing an original post adds to the edge list: one edge from
/// the author's posts anchor, then exactly one tag edge per hashtag
/// occurrence and one per cashtag occurrence of the body — a token that
/// occurs `n` times gives `n` edges. Prior edges are untouched.
pub proof fn lemma_original_edge_count(s: StoreV, me: Seq<u8>, text: Seq<u8>)
    requires
        s.wf(),
        s.records.len() + 3 + 2 * text.len() <= usize::MAX,
        s.next_edge_id + 2 * text.len() + 1 <= u64::MAX,
    ensures
        create_original_spec(s, me, text).0.wf(),
        create_original_spec(s, me, text).0.edges.len() == s.edges.len() + 1 + tags_from(
            text,
            '#' as u8,
            0,
        ).len() + tags_from(text, '$' as u8, 0).len(),
        forall|j: int|
            0 <= j < s.edges.len() ==> create_original_spec(s, me, text).0.edges[j] == s.edges[j],
{
    let blob = RecordV::Blob(text);
    let c = put_hash(s, blob);
    let s1 = put_store(s, blob);
    lemma_put_props(s, blob);
    let env = RecordV::Envelope(FullMew { mew_type: MewType::Original(c as usize) });
    let h = put_hash(s1, env);
    let s2 = put_store(s1, env);
    lemma_put_props(s1, env);
    let anp = RecordV::Anchor(key_posts(me));
    let ap = put_hash(s2, anp);
    let s3 = put_store(s2, anp);
    lemma_put_props(s2, anp);
    let s4 = add_edge_spec(s3, ap as usize, h as usize, None);
    lemma_add_edge_props(s3, ap as usize, h as usize, None);
    lemma_parse_props(s4, text, h as usize);
    assert(create_original_spec(s, me, text).0 == parse_mew_spec(s4, text, h as usize));
    assert(s4.edges.len() == s.edges.len() + 1);
    assert forall|j: int|
        0 <= j < s.edges.len() implies create_original_spec(s, me, text).0.edges[j]
        == s.edges[j] by {
        assert(parse_mew_spec(s4, text, h as usize).edges[j] == s4.edges[j]);
        assert(s4.edges[j] == s.edges[j]);
    }
}

/// An edge of `es` whose target is the identity record `recs[e.to]` puts
/// that identity into the listing.
pub proof fn lemma_idents_from_contains(recs: Seq<RecordV>, es: Seq<Edge>, e: Edge)
    requires
        es.contains(e),
        e.to < recs.len(),
        recs[e.to as int] is Ident,
    ensures
        idents_from(recs, es).contains(recs[e.to as int]->Ident_0),
    decreases es.len(),
{
    let v = recs[e.to as int]->Ident_0;
    let i = choose|i: int| 0 <= i < es.len() && es[i] == e;
    let dl = es.drop_last();
    if i == es.len() - 1 {
        let prev = idents_from(recs, dl);
        assert(idents_from(recs, es)[prev.len() as int] == v);
    } else {
        assert(dl[i] == e);
        assert(dl.contains(e));
        lemma_idents_from_contains(recs, dl, e);
        let prev = idents_from(recs, dl);
        let j = choose|j: int| 0 <= j < prev.len() && prev[j] == v;
        assert(idents_from(recs, es)[j] == v);
    }
}

/// An identity is listed only through some edge whose target is its
/// record: a listing that contains `v` exhibits such an edge.
pub proof fn lemma_idents_from_only(recs: Seq<RecordV>, es: Seq<Edge>, v: Seq<u8>)
    requires
        idents_from(recs, es).contains(v),
    ensures
        exists|i: int|
            0 <= i < es.len() && (#[trigger] es[i]).to < recs.len() && recs[es[i].to as int]
                == RecordV::Ident(v),
    decreases es.len(),
{
    let dl = es.drop_last();
    let e = es.last();
    let prev = idents_from(recs, dl);
    if e.to < recs.len() && recs[e.to as int] is Ident {
        let l = prev.push(recs[e.to as int]->Ident_0);
        let j = choose|j: int| 0 <= j < l.len() && l[j] == v;
        if j < prev.len() {
            assert(prev.contains(v));
            lemma_idents_from_only(recs, dl, v);
            let i = choose|i: int|
                0 <= i < dl.len() && (#[trigger] dl[i]).to < recs.len() && recs[dl[i].to as int]
                    == RecordV::Ident(v);
            assert(es[i] == dl[i]);
            assert((es[i]).to < recs.len() && recs[es[i].to as int] == RecordV::Ident(v));
        } else {
            assert(recs[e.to as int] == RecordV::Ident(v));
            assert(es[es.len() - 1] == e);
            assert((es[es.len() - 1]).to < recs.len() && recs[es[es.len() - 1].to as int]
                == RecordV::Ident(v));
        }
    } else {
        lemma_idents_from_only(recs, dl, v);
        let i = choose|i: int|
            0 <= i < dl.len() && (#[trigger] dl[i]).to < recs.len() && recs[dl[i].to as int]
                == RecordV::Ident(v);
        assert(es[i] == dl[i]);
        assert((es[i]).to < recs.len() && recs[es[i].to as int] == RecordV::Ident(v));
    }
}

/// After `a` follows `b`, `b` is in `a`'s following list and `a` is in
/// `b`'s followers list: one call makes both sides visible, each through
/// its own anchor.
pub proof fn lemma_follow_lists(s: StoreV, a: Seq<u8>, b: Seq<u8>)
    requires
        s.wf(),
        s.next_edge_id + 2 <= u64::MAX,
        s.records.len() + 4 <= usize::MAX,
    ensures
        follow_spec(s, a, b).wf(),
        follow_list_spec(follow_spec(s, a, b), a, FollowBase::Following).contains(b),
        follow_list_spec(follow_spec(s, a, b), b, FollowBase::Followers).contains(a),
{
    broadcast use vstd::seq_lib::group_filter_ensures;

    let ia = RecordV::Ident(a);
    let ib = RecordV::Ident(b);
    let ma = put_hash(s, ia);
    let s1 = put_store(s, ia);
    lemma_put_props(s, ia);
    let mb = put_hash(s1, ib);
    let s2 = put_store(s1, ib);
    lemma_put_props(s1, ib);
    let anf = RecordV::Anchor(key_following(a));
    let a1 = put_hash(s2, anf);
    let s3 = put_store(s2, anf);
    lemma_put_props(s2, anf);
    let s4 = add_edge_spec(s3, a1 as usize, mb as usize, None);
    lemma_add_edge_props(s3, a1 as usize, mb as usize, None);
    let anw = RecordV::Anchor(key_followers(b));
    let a2 = put_hash(s4, anw);
    let s5 = put_store(s4, anw);
    lemma_put_props(s4, anw);
    let t = add_edge_spec(s5, a2 as usize, ma as usize, None);
    lemma_add_edge_props(s5, a2 as usize, ma as usize, None);
    assert(t == follow_spec(s, a, b));

    // the two anchors are found in the final record list
    lemma_find_from_extend(s3.records, t.records, anf, 0);
    lemma_find_from_extend(s5.records, t.records, anw, 0);
    assert(find_rec(t.records, anf) == Some(a1));
    assert(find_rec(t.records, anw) == Some(a2));

    // the two identity records stay where they were put
    assert(s2.records.is_prefix_of(t.records)) by {
        lemma_prefix_trans(s2.records, s3.records, s5.records);
    }
    assert(s2.records =~= t.records.subrange(0, s2.records.len() as int));
    assert(t.records[ma as int] == ia);
    assert(t.records[mb as int] == ib);

    // the following edge reaches b
    let e4 = Edge {
        id: s3.next_edge_id,
        from: a1 as usize,
        to: mb as usize,
        tag: None,
        created_at: s3.now,
    };
    assert(t.edges[s.edges.len() as int] == e4);
    assert(crate::store::leaves_from(a1 as usize)(e4));
    assert(edges_from_spec(t, a1 as usize).contains(e4));
    lemma_idents_from_contains(t.records, edges_from_spec(t, a1 as usize), e4);
    assert(follow_list_spec(t, a, FollowBase::Following).contains(b));

    // the followers edge reaches a
    let e6 = Edge {
        id: s5.next_edge_id,
        from: a2 as usize,
        to: ma as usize,
        tag: None,
        created_at: s5.now,
    };
    assert(t.edges[s.edges.len() + 1int] == e6);
    assert(crate::store::leaves_from(a2 as usize)(e6));
    assert(edges_from_spec(t, a2 as usize).contains(e6));
    lemma_idents_from_contains(t.records, edges_from_spec(t, a2 as usize), e6);
    assert(follow_list_spec(t, b, FollowBase::Followers).contains(a));
}

/// `e` is a follow edge of `s` from the anchor for `akey` to the identity
/// `ident`.
pub open spec fn links_to(s: StoreV, e: Edge, akey: Seq<u8>, ident: Seq<u8>) -> bool {
    &&& Some(e.from as int) == find_rec(s.records, RecordV::Anchor(akey))
    &&& e.to < s.records.len()
    &&& s.records[e.to as int] == RecordV::Ident(ident)
}

/// `s` holds no follow edge from the anchor for `akey` to `ident`.
pub open spec fn no_link(s: StoreV, akey: Seq<u8>, ident: Seq<u8>) -> bool {
    forall|i: int| 0 <= i < s.edges.len() ==> !links_to(s, #[trigger] s.edges[i], akey, ident)
}

/// In a store whose records are pairwise distinct, the search finds a
/// record exactly at the one position that holds it.
pub proof fn lemma_find_exact(recs: Seq<RecordV>, r: RecordV, k: int)
    requires
        forall|i: int, j: int| 0 <= i < j < recs.len() ==> recs[i] != recs[j],
        0 <= k < recs.len(),
        recs[k] == r,
    ensures
        find_rec(recs, r) == Some(k),
{
    lemma_find_from_hit(recs, r, 0, k);
    let found = find_rec(recs, r);
    assert(found is Some);
    let i = found->Some_0;
    lemma_find_from_some(recs, r, 0, i);
}

/// A filter that every element satisfies changes nothing.
pub proof fn lemma_filter_all<A>(es: Seq<A>, pred: spec_fn(A) -> bool)
    requires
        forall|i: int| 0 <= i < es.len() ==> pred(#[trigger] es[i]),
    ensures
        es.filter(pred) == es,
    decreases es.len(),
{
    reveal(Seq::filter);
    if es.len() > 0 {
        let dl = es.drop_last();
        assert(forall|i: int| 0 <= i < dl.len() ==> pred(#[trigger] dl[i]));
        lemma_filter_all(dl, pred);
        assert(es =~= dl.push(es.last()));
        lemma_filter_push(dl, es.last(), pred);
        assert(es.filter(pred) =~= es);
    }
}

/// Searching for a target that no edge has fails.
pub proof fn lemma_find_edge_none(es: Seq<Edge>, t: usize, i: int)
    requires
        0 <= i <= es.len(),
        forall|j: int| i <= j < es.len() ==> (#[trigger] es[j]).to != t,
    ensures
        find_edge_to(es, t, i) is None,
    decreases es.len() - i,
{
    if i < es.len() {
        lemma_find_edge_none(es, t, i + 1);
    }
}

/// Searching finds the first edge with the target.
pub proof fn lemma_find_edge_hit(es: Seq<Edge>, t: usize, i: int, k: int)
    requires
        0 <= i <= k < es.len(),
        es[k].to == t,
        forall|j: int| i <= j < k ==> (#[trigger] es[j]).to != t,
    ensures
        find_edge_to(es, t, i) == Some(es[k]),
    decreases es.len() - i,
{
    if i < k {
        lemma_find_edge_hit(es, t, i + 1, k);
    }
}

/// Where `s` holds no follow edge from the anchor for `akey` to `ident`,
/// none of `s`'s edges that leave that anchor — located in any store
/// `big` extending `s` — targets that identity's record.
pub proof fn lemma_no_match_filtered(
    s: StoreV,
    big: StoreV,
    akey: Seq<u8>,
    ident: Seq<u8>,
    ah: int,
    th: int,
)
    requires
        s.wf(),
        s.closed(),
        no_link(s, akey, ident),
        s.records.is_prefix_of(big.records),
        0 <= ah < big.records.len(),
        big.records[ah] == RecordV::Anchor(akey),
        0 <= th < big.records.len(),
        th <= usize::MAX,
        ah <= usize::MAX,
        big.records[th] == RecordV::Ident(ident),
    ensures
        forall|j: int|
            0 <= j < s.edges.filter(leaves_from(ah as usize)).len() ==> (#[trigger] s.edges.filter(
                leaves_from(ah as usize),
            )[j]).to != th as usize,
{
    broadcast use vstd::seq_lib::group_filter_ensures;

    let pred = leaves_from(ah as usize);
    let f = s.edges.filter(pred);
    lemma_filter_is_subset(s.edges, pred);
    assert(s.records =~= big.records.subrange(0, s.records.len() as int));
    assert forall|j: int| 0 <= j < f.len() implies (#[trigger] f[j]).to != th as usize by {
        let e = f[j];
        assert(pred(e));
        assert(s.edges.contains(e));
        let i = choose|i: int| 0 <= i < s.edges.len() && s.edges[i] == e;
        if e.to == th as usize {
            assert(e.to < s.records.len());
            assert(e.from < s.records.len());
            assert(th == e.to as int);
            assert(s.records[th] == RecordV::Ident(ident));
            assert(ah == e.from as int);
            assert(s.records[ah] == RecordV::Anchor(akey));
            lemma_find_exact(s.records, RecordV::Anchor(akey), ah);
            assert(links_to(s, s.edges[i], akey, ident));
            assert(false);
        }
    }
}

/// After `a` follows `b` from a state with no follow edge between them in
/// either direction, one unfollow removes both sides again, and a second
/// unfollow changes nothing at all.
pub proof fn lemma_unfollow_round_trip(s: StoreV, a: Seq<u8>, b: Seq<u8>)
    requires
        s.wf(),
        s.closed(),
        s.next_edge_id + 2 <= u64::MAX,
        s.records.len() + 4 <= usize::MAX,
        no_link(s, key_following(a), b),
        no_link(s, key_followers(b), a),
    ensures
        !follow_list_spec(
            unfollow_spec(follow_spec(s, a, b), a, b),
            a,
            FollowBase::Following,
        ).contains(b),
        !follow_list_spec(
            unfollow_spec(follow_spec(s, a, b), a, b),
            b,
            FollowBase::Followers,
        ).contains(a),
        unfollow_spec(unfollow_spec(follow_spec(s, a, b), a, b), a, b) == unfollow_spec(
            follow_spec(s, a, b),
            a,
            b,
        ),
{
    broadcast use vstd::seq_lib::group_filter_ensures;

    let ia = RecordV::Ident(a);
    let ib = RecordV::Ident(b);
    let anf = RecordV::Anchor(key_following(a));
    let anw = RecordV::Anchor(key_followers(b));
    let ma = put_hash(s, ia);
    let s1 = put_store(s, ia);
    lemma_put_props(s, ia);
    let mb = put_hash(s1, ib);
    let s2 = put_store(s1, ib);
    lemma_put_props(s1, ib);
    let a1 = put_hash(s2, anf);
    let s3 = put_store(s2, anf);
    lemma_put_props(s2, anf);
    let s4 = add_edge_spec(s3, a1 as usize, mb as usize, None);
    lemma_add_edge_props(s3, a1 as usize, mb as usize, None);
    let a2 = put_hash(s4, anw);
    let s5 = put_store(s4, anw);
    lemma_put_props(s4, anw);
    let u = add_edge_spec(s5, a2 as usize, ma as usize, None);
    lemma_add_edge_props(s5, a2 as usize, ma as usize, None);
    assert(u == follow_spec(s, a, b));

    let e4 = Edge {
        id: s3.next_edge_id,
        from: a1 as usize,
        to: mb as usize,
        tag: None,
        created_at: s3.now,
    };
    let e6 = Edge {
        id: s5.next_edge_id,
        from: a2 as usize,
        to: ma as usize,
        tag: None,
        created_at: s5.now,
    };
    assert(u.edges =~= s.edges.push(e4).push(e6));

    // where everything is found in the final record list
    lemma_prefix_trans(s.records, s1.records, s2.records);
    lemma_prefix_trans(s2.records, s3.records, s5.records);
    lemma_prefix_trans(s.records, s2.records, u.records);
    assert(s2.records =~= u.records.subrange(0, s2.records.len() as int));
    assert(s.records =~= u.records.subrange(0, s.records.len() as int));
    lemma_find_from_extend(s1.records, u.records, ia, 0);
    lemma_find_from_extend(s2.records, u.records, ib, 0);
    lemma_find_from_extend(s3.records, u.records, anf, 0);
    lemma_find_from_extend(s5.records, u.records, anw, 0);
    assert(find_rec(u.records, ia) == Some(ma));
    assert(find_rec(u.records, ib) == Some(mb));
    assert(find_rec(u.records, anf) == Some(a1));
    assert(find_rec(u.records, anw) == Some(a2));
    assert(u.records[ma as int] == ia);
    assert(u.records[mb as int] == ib);
    assert(u.records[a1 as int] == anf);
    assert(u.records[a2 as int] == anw);
    lemma_keys_distinct(a, b);
    assert(a1 != a2);
    assert(u.records.len() <= s.records.len() + 4);

    // ——— first half of the unfollow: drop the following edge ———
    let lv1 = leaves_from(a1 as usize);
    lemma_filter_push(s.edges.push(e4), e6, lv1);
    lemma_filter_push(s.edges, e4, lv1);
    assert(u.edges.filter(lv1) =~= s.edges.filter(lv1).push(e4));
    lemma_no_match_filtered(s, u, key_following(a), b, a1, mb);
    let es1 = edges_from_spec(u, a1 as usize);
    assert(es1 == s.edges.filter(lv1).push(e4));
    assert(es1[es1.len() - 1] == e4);
    assert(forall|j: int| 0 <= j < es1.len() - 1 ==> (#[trigger] es1[j]).to != mb as usize) by {
        assert(forall|j: int|
            0 <= j < s.edges.filter(lv1).len() ==> es1[j] == s.edges.filter(lv1)[j]);
    }
    lemma_find_edge_hit(es1, mb as usize, 0, es1.len() - 1);
    assert(find_edge_to(es1, mb as usize, 0) == Some(e4));
    let h1 = unfollow_half(u, key_following(a), b);
    assert(h1 == remove_edge_spec(u, e4.id));
    // which edges survive: everything but e4
    let k1 = keeps_id(e4.id);
    lemma_filter_push(s.edges.push(e4), e6, k1);
    lemma_filter_push(s.edges, e4, k1);
    assert(forall|i: int| 0 <= i < s.edges.len() ==> k1(#[trigger] s.edges[i]));
    lemma_filter_all(s.edges, k1);
    assert(h1.edges =~= s.edges.push(e6));
    assert(h1.records == u.records);

    // ——— second half: drop the followers edge ———
    let lv2 = leaves_from(a2 as usize);
    lemma_filter_push(s.edges, e6, lv2);
    assert(h1.edges.filter(lv2) =~= s.edges.filter(lv2).push(e6));
    lemma_no_match_filtered(s, u, key_followers(b), a, a2, ma);
    let es2 = edges_from_spec(h1, a2 as usize);
    assert(es2 == s.edges.filter(lv2).push(e6));
    assert(es2[es2.len() - 1] == e6);
    assert(forall|j: int| 0 <= j < es2.len() - 1 ==> (#[trigger] es2[j]).to != ma as usize) by {
        assert(forall|j: int|
            0 <= j < s.edges.filter(lv2).len() ==> es2[j] == s.edges.filter(lv2)[j]);
    }
    lemma_find_edge_hit(es2, ma as usize, 0, es2.len() - 1);
    assert(find_edge_to(es2, ma as usize, 0) == Some(e6));
    let w = unfollow_spec(u, a, b);
    assert(w == remove_edge_spec(h1, e6.id));
    let k2 = keeps_id(e6.id);
    lemma_filter_push(s.edges, e6, k2);
    assert(forall|i: int| 0 <= i < s.edges.len() ==> k2(#[trigger] s.edges[i]));
    lemma_filter_all(s.edges, k2);
    assert(w.edges =~= s.edges);
    assert(w.records == u.records);

    // ——— both listings are clean again ———
    let wf1 = w.edges.filter(lv1);
    assert(wf1 == s.edges.filter(lv1));
    if idents_from(w.records, wf1).contains(b) {
        lemma_idents_from_only(w.records, wf1, b);
        let j = choose|j: int|
            0 <= j < wf1.len() && (#[trigger] wf1[j]).to < w.records.len() && w.records[wf1[j].to
                as int] == RecordV::Ident(b);
        let e = wf1[j];
        lemma_filter_is_subset(s.edges, lv1);
        assert(s.edges.contains(e));
        assert(e.to < s.records.len());
        assert(e.to as int != mb);
        assert(w.records[e.to as int] == ib);
        assert(false);
    }
    assert(!follow_list_spec(w, a, FollowBase::Following).contains(b));
    let wf2 = w.edges.filter(lv2);
    assert(wf2 == s.edges.filter(lv2));
    if idents_from(w.records, wf2).contains(a) {
        lemma_idents_from_only(w.records, wf2, a);
        let j = choose|j: int|
            0 <= j < wf2.len() && (#[trigger] wf2[j]).to < w.records.len() && w.records[wf2[j].to
                as int] == RecordV::Ident(a);
        let e = wf2[j];
        lemma_filter_is_subset(s.edges, lv2);
        assert(s.edges.contains(e));
        assert(e.to < s.records.len());
        assert(e.to as int != ma);
        assert(w.records[e.to as int] == ia);
        assert(false);
    }
    assert(!follow_list_spec(w, b, FollowBase::Followers).contains(a));

    // ——— a second unfollow is the identity ———
    lemma_find_edge_none(wf1, mb as usize, 0);
    let g1 = unfollow_half(w, key_following(a), b);
    assert(g1 == w);
    lemma_find_edge_none(wf2, ma as usize, 0);
    let g2 = unfollow_half(g1, key_followers(b), a);
    assert(g2 == w);
    assert(unfollow_spec(w, a, b) == w);
}

/// Where no record at or after position `i` equals `r`, the search from
/// `i` fails.
pub proof fn lemma_find_from_all_diff(recs: Seq<RecordV>, r: RecordV, i: int)
    requires
        0 <= i <= recs.len(),
        forall|j: int| i <= j < recs.len() ==> recs[j] != r,
    ensures
        find_from(recs, r, i) is None,
    decreases recs.len() - i,
{
    if i < recs.len() {
        lemma_find_from_all_diff(recs, r, i + 1);
    }
}

/// Extending the record list with records that are no envelopes leaves
/// every feed unchanged: a target beyond the old records still resolves to
/// nothing a feed would list.
pub proof fn lemma_feed_unchanged(recs: Seq<RecordV>, recs2: Seq<RecordV>, es: Seq<Edge>)
    requires
        recs.is_prefix_of(recs2),
        forall|i: int| recs.len() <= i < recs2.len() ==> !((#[trigger] recs2[i]) is Envelope),
    ensures
        feed_from_edges(recs2, es) == feed_from_edges(recs, es),
    decreases es.len(),
{
    if es.len() > 0 {
        lemma_feed_unchanged(recs, recs2, es.drop_last());
        assert(recs =~= recs2.subrange(0, recs.len() as int));
        let e = es.last();
        if e.to < recs.len() {
            assert(recs2[e.to as int] == recs[e.to as int]);
        }
    }
}

/// Following someone changes no feed listing: only the two relation
/// anchors are touched, so the posts under any other anchor key — an
/// author's posts anchor, a hashtag or cashtag anchor — read the same
/// before and after.
pub proof fn lemma_follow_preserves_feed(s: StoreV, x: Seq<u8>, y: Seq<u8>, key: Seq<u8>)
    requires
        s.wf(),
        s.next_edge_id + 2 <= u64::MAX,
        s.records.len() + 4 <= usize::MAX,
        key != key_following(x),
        key != key_followers(y),
    ensures
        feed_at_key(follow_spec(s, x, y), key) == feed_at_key(s, key),
{
    broadcast use vstd::seq_lib::group_filter_ensures;

    let ia = RecordV::Ident(x);
    let ib = RecordV::Ident(y);
    let anf = RecordV::Anchor(key_following(x));
    let anw = RecordV::Anchor(key_followers(y));
    let anh = RecordV::Anchor(key);
    let ma = put_hash(s, ia);
    let s1 = put_store(s, ia);
    lemma_put_props(s, ia);
    let mb = put_hash(s1, ib);
    let s2 = put_store(s1, ib);
    lemma_put_props(s1, ib);
    let a1 = put_hash(s2, anf);
    let s3 = put_store(s2, anf);
    lemma_put_props(s2, anf);
    let s4 = add_edge_spec(s3, a1 as usize, mb as usize, None);
    lemma_add_edge_props(s3, a1 as usize, mb as usize, None);
    let a2 = put_hash(s4, anw);
    let s5 = put_store(s4, anw);
    lemma_put_props(s4, anw);
    let u = add_edge_spec(s5, a2 as usize, ma as usize, None);
    lemma_add_edge_props(s5, a2 as usize, ma as usize, None);
    assert(u == follow_spec(s, x, y));
    lemma_prefix_trans(s.records, s1.records, s2.records);
    lemma_prefix_trans(s2.records, s3.records, s5.records);
    lemma_prefix_trans(s.records, s2.records, u.records);
    assert(s.records =~= u.records.subrange(0, s.records.len() as int));
    assert(s1.records =~= u.records.subrange(0, s1.records.len() as int));
    assert(s2.records =~= u.records.subrange(0, s2.records.len() as int));
    assert(s3.records =~= u.records.subrange(0, s3.records.len() as int));
    assert(s5.records =~= u.records.subrange(0, s5.records.len() as int));
    assert(u.edges =~= s.edges.push(
        Edge {
            id: s3.next_edge_id,
            from: a1 as usize,
            to: mb as usize,
            tag: None,
            created_at: s3.now,
        },
    ).push(
        Edge {
            id: s5.next_edge_id,
            from: a2 as usize,
            to: ma as usize,
            tag: None,
            created_at: s5.now,
        },
    ));

    // every record the follow added is an identity or one of the two
    // relation anchors, so none of them is the anchor for `key`
    assert forall|i: int|
        s.records.len() <= i < u.records.len() implies !((#[trigger] u.records[i]) is Envelope)
        && u.records[i] != anh by {
        if i < s1.records.len() {
            assert(u.records[i] == s1.records[i]);
            assert(s1.records[i] == ia);
        } else if i < s2.records.len() {
            assert(u.records[i] == s2.records[i]);
            assert(s2.records[i] == ib);
        } else if i < s3.records.len() {
            assert(u.records[i] == s3.records[i]);
            assert(s3.records[i] == anf);
        } else {
            assert(u.records[i] == s5.records[i]);
            assert(s5.records[i] == anw);
        }
    }

    match find_rec(s.records, anh) {
        None => {
            lemma_find_from_none(s.records, anh, 0);
            lemma_find_from_all_diff(u.records, anh, 0);
        },
        Some(th) => {
            lemma_find_from_some(s.records, anh, 0, th);
            lemma_find_from_extend(s.records, u.records, anh, 0);
            // the two new edges leave the relation anchors, not this one
            assert(u.records[a1 as int] == anf);
            assert(u.records[a2 as int] == anw);
            assert(u.records[th] == anh);
            assert(a1 != th);
            assert(a2 != th);
            let lv = leaves_from(th as usize);
            lemma_filter_push(
                s.edges.push(
                    Edge {
                        id: s3.next_edge_id,
                        from: a1 as usize,
                        to: mb as usize,
                        tag: None,
                        created_at: s3.now,
                    },
                ),
                Edge {
                    id: s5.next_edge_id,
                    from: a2 as usize,
                    to: ma as usize,
                    tag: None,
                    created_at: s5.now,
                },
                lv,
            );
            lemma_filter_push(
                s.edges,
                Edge {
                    id: s3.next_edge_id,
                    from: a1 as usize,
                    to: mb as usize,
                    tag: None,
                    created_at: s3.now,
                },
                lv,
            );
            assert(edges_from_spec(u, th as usize) == edges_from_spec(s, th as usize));
            lemma_feed_unchanged(s.records, u.records, edges_from_spec(s, th as usize));
        },
    }
}

/// An edge whose target does not resolve to a post envelope changes no
/// listing: feeds drop unresolvable targets instead of failing, so a
/// dangling or mistyped edge is invisible to every reader.
pub proof fn lemma_unresolvable_target_not_listed(
    s: StoreV,
    from: usize,
    to: usize,
    tag: Option<LinkTag>,
    key: Seq<u8>,
)
    requires
        s.records.len() <= to as int || !(s.records[to as int] is Envelope),
    ensures
        feed_at_key(add_edge_spec(s, from, to, tag), key) == feed_at_key(s, key),
{
    let t = add_edge_spec(s, from, to, tag);
    let e = Edge { id: s.next_edge_id, from, to, tag, created_at: s.now };
    assert(t.edges =~= s.edges.push(e));
    match find_rec(s.records, RecordV::Anchor(key)) {
        None => {},
        Some(th) => {
            lemma_filter_push(s.edges, e, leaves_from(th as usize));
            if e.from == th as usize {
                let f = s.edges.filter(leaves_from(th as usize));
                assert(f.push(e).drop_last() =~= f);
                assert(feed_from_edges(s.records, f.push(e)) == feed_from_edges(s.records, f));
            }
        },
    }
}

/// The posts indexed under a hashtag or cashtag token are the same whoever
/// follows whom: a follow call moves no tag listing.
pub proof fn lemma_tag_listing_ignores_follows(s: StoreV, tag: Seq<u8>, x: Seq<u8>, y: Seq<u8>)
    requires
        s.wf(),
        s.next_edge_id + 2 <= u64::MAX,
        s.records.len() + 4 <= usize::MAX,
    ensures
        feed_at_key(follow_spec(s, x, y), key_hashtag(tag)) == feed_at_key(s, key_hashtag(tag)),
        feed_at_key(follow_spec(s, x, y), key_cashtag(tag)) == feed_at_key(s, key_cashtag(tag)),
{
    lemma_keys_distinct(x, tag);
    lemma_keys_distinct(y, tag);
    lemma_follow_preserves_feed(s, x, y, key_hashtag(tag));
    lemma_follow_preserves_feed(s, x, y, key_cashtag(tag));
}

/// An edge of `es` whose target is the envelope record `recs[e.to]` puts
/// that envelope, stamped with the edge's timestamp, into the feed.
pub proof fn lemma_feed_from_edges_contains(recs: Seq<RecordV>, es: Seq<Edge>, e: Edge)
    requires
        es.contains(e),
        e.to < recs.len(),
        recs[e.to as int] is Envelope,
    ensures
        feed_from_edges(recs, es).contains(
            FeedMew { mew: recs[e.to as int]->Envelope_0, published_at: e.created_at },
        ),
    decreases es.len(),
{
    let v = FeedMew { mew: recs[e.to as int]->Envelope_0, published_at: e.created_at };
    let i = choose|i: int| 0 <= i < es.len() && es[i] == e;
    let dl = es.drop_last();
    if i == es.len() - 1 {
        let prev = feed_from_edges(recs, dl);
        assert(feed_from_edges(recs, es)[prev.len() as int] == v);
    } else {
        assert(dl[i] == e);
        assert(dl.contains(e));
        lemma_feed_from_edges_contains(recs, dl, e);
        let prev = feed_from_edges(recs, dl);
        let j = choose|j: int| 0 <= j < prev.len() && prev[j] == v;
        assert(feed_from_edges(recs, es)[j] == v);
    }
}

/// What publishing a reply leaves behind: an edge tagged `Reply` from the
/// original post to the new envelope, a fetchable `Reply` envelope
/// referencing the original and the stored body, and the new post in its
/// author's listing, stamped with the publication clock.
pub proof fn lemma_reply_props(s: StoreV, me: Seq<u8>, text: Seq<u8>, original: usize)
    requires
        s.wf(),
        s.records.len() + 3 + 2 * text.len() <= usize::MAX,
        s.next_edge_id + 2 * text.len() + 2 <= u64::MAX,
    ensures
        create_reply_spec(s, me, text, original).0.wf(),
        create_reply_spec(s, me, text, original).0.edges[s.edges.len() + 1int] == (Edge {
            id: (s.next_edge_id + 1) as u64,
            from: original,
            to: create_reply_spec(s, me, text, original).1 as usize,
            tag: Some(LinkTag::Reply),
            created_at: s.now,
        }),
        get_mew_spec(
            create_reply_spec(s, me, text, original).0,
            create_reply_spec(s, me, text, original).1 as usize,
        ) == Ok::<FullMew, MewError>(
            FullMew {
                mew_type: MewType::Reply(original, put_hash(s, RecordV::Blob(text)) as usize),
            },
        ),
        mews_by_spec(create_reply_spec(s, me, text, original).0, me).contains(
            FeedMew {
                mew: FullMew {
                    mew_type: MewType::Reply(
                        original,
                        put_hash(s, RecordV::Blob(text)) as usize,
                    ),
                },
                published_at: s.now,
            },
        ),
{
    broadcast use vstd::seq_lib::group_filter_ensures;

    let blob = RecordV::Blob(text);
    let c = put_hash(s, blob);
    let s1 = put_store(s, blob);
    lemma_put_props(s, blob);
    let fm = FullMew { mew_type: MewType::Reply(original, c as usize) };
    let env = RecordV::Envelope(fm);
    let h = put_hash(s1, env);
    let s2 = put_store(s1, env);
    lemma_put_props(s1, env);
    let anp = RecordV::Anchor(key_posts(me));
    let ap = put_hash(s2, anp);
    let s3 = put_store(s2, anp);
    lemma_put_props(s2, anp);
    let s4 = add_edge_spec(s3, ap as usize, h as usize, None);
    lemma_add_edge_props(s3, ap as usize, h as usize, None);
    let s5 = add_edge_spec(s4, original, h as usize, Some(LinkTag::Reply));
    lemma_add_edge_props(s4, original, h as usize, Some(LinkTag::Reply));
    let t = parse_mew_spec(s5, text, h as usize);
    lemma_parse_props(s5, text, h as usize);
    assert(t == create_reply_spec(s, me, text, original).0);
    assert(h == create_reply_spec(s, me, text, original).1);

    // positions survive into the final store
    lemma_prefix_trans(s.records, s1.records, s2.records);
    lemma_prefix_trans(s2.records, s3.records, t.records);
    lemma_prefix_trans(s.records, s2.records, t.records);
    assert(s2.records =~= t.records.subrange(0, s2.records.len() as int));
    assert(t.records[h as int] == env);

    // the reply edge sits right after the anchor edge
    let e_base = Edge {
        id: s.next_edge_id,
        from: ap as usize,
        to: h as usize,
        tag: None,
        created_at: s.now,
    };
    let e_reply = Edge {
        id: (s.next_edge_id + 1) as u64,
        from: original,
        to: h as usize,
        tag: Some(LinkTag::Reply),
        created_at: s.now,
    };
    assert(s3.edges == s.edges);
    assert(s3.next_edge_id == s.next_edge_id);
    assert(s3.now == s.now);
    assert(s4.edges == s.edges.push(e_base));
    assert(s4.next_edge_id as int == s.next_edge_id + 1);
    assert(s5.edges =~= s.edges.push(e_base).push(e_reply));
    assert(s5.edges.len() == s.edges.len() + 2);
    assert(s5.edges[s.edges.len() as int] == e_base);
    assert(s5.edges[s.edges.len() + 1int] == e_reply);
    assert(t.edges[s.edges.len() as int] == s5.edges[s.edges.len() as int]);
    assert(t.edges[s.edges.len() + 1int] == s5.edges[s.edges.len() + 1int]);
    assert(t.edges[s.edges.len() as int] == e_base);
    assert(t.edges[s.edges.len() + 1int] == e_reply);

    // fetching the new hash decodes the reply envelope
    assert(get_mew_spec(t, h as usize) == Ok::<FullMew, MewError>(fm));

    // the author's listing contains the new post
    lemma_find_from_extend(s3.records, t.records, anp, 0);
    assert(find_rec(t.records, anp) == Some(ap));
    assert(leaves_from(ap as usize)(e_base));
    assert(edges_from_spec(t, ap as usize).contains(e_base));
    lemma_feed_from_edges_contains(t.records, edges_from_spec(t, ap as usize), e_base);
    assert(mews_by_spec(t, me).contains(FeedMew { mew: fm, published_at: s.now }));
}

} // verus!
