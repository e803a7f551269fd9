//! Feed aggregator: resolves an identity's posts anchor, fetches the
//! envelopes its edges reach, and merges several identities' lists into
//! one feed ordered by descending timestamp. Listings tolerate partial
//! failure: an edge whose target does not resolve to an envelope is
//! dropped, never an error.

use vstd::prelude::*;

verus! {

use vstd::multiset::Multiset;
use crate::store::{Store, StoreV, Record, RecordV, Edge, find_rec, edges_from_spec};
use crate::anchor::{
    key_posts,
    key_hashtag,
    key_cashtag,
    posts_key,
    hashtag_key,
    cashtag_key,
    locate_anchor,
};
use crate::mews::FullMew;
use crate::follows::{FollowBase, follow_list_spec, follow_inner, ident_views};

/// One feed entry: a post envelope paired with the creation timestamp of
/// the edge through which it was found.
#[derive(Clone, Copy, Debug, PartialEq, Eq, Structural)]
pub struct FeedMew {
    pub mew: FullMew,
    pub published_at: u64,
}

/// The feed entries reachable through `es`: each edge whose target
/// resolves to an envelope contributes it with the edge's timestamp, in
/// edge order; unresolvable or non-envelope targets are dropped.
pub open spec fn feed_from_edges(recs: Seq<RecordV>, es: Seq<Edge>) -> Seq<FeedMew>
    decreases es.len(),
{
    if es.len() == 0 {
        Seq::empty()
    } else {
        let prev = feed_from_edges(recs, es.drop_last());
        let e = es.last();
        if e.to < recs.len() && recs[e.to as int] is Envelope {
            prev.push(FeedMew { mew: recs[e.to as int]->Envelope_0, published_at: e.created_at })
        } else {
            prev
        }
    }
}

/// What listing the anchor for `key` yields: empty when the anchor was
/// never materialized, else the feed entries its edges reach.
pub open spec fn feed_at_key(s: StoreV, key: Seq<u8>) -> Seq<FeedMew> {
    match find_rec(s.records, RecordV::Anchor(key)) {
        None => Seq::empty(),
        Some(a) => feed_from_edges(s.records, edges_from_spec(s, a as usize)),
    }
}

/// The posts published by `agent`, in publication order.
pub open spec fn mews_by_spec(s: StoreV, agent: Seq<u8>) -> Seq<FeedMew> {
    feed_at_key(s, key_posts(agent))
}

/// Collects the feed entries of the anchor at hash `a`.
fn collect_feed(store: &Store, a: usize) -> (feed: Vec<FeedMew>)
    ensures
        feed@ == feed_from_edges(store@.records, edges_from_spec(store@, a)),
{
    let es = store.list_edges(a);
    let mut out: Vec<FeedMew> = Vec::new();
    let mut i: usize = 0;
    proof {
        assert(es@.take(0) =~= Seq::<Edge>::empty());
        assert(out@ =~= feed_from_edges(store@.records, es@.take(0)));
    }
    while i < es.len()
        invariant
            i <= es@.len(),
            out@ == feed_from_edges(store@.records, es@.take(i as int)),
        decreases es@.len() - i,
    {
        let e = es[i];
        match store.get(e.to) {
            Some(rec) => match rec {
                Record::Envelope(fm) => {
                    out.push(FeedMew { mew: *fm, published_at: e.created_at });
                },
                _ => (),
            },
            None => (),
        }
        proof {
            assert(es@.take(i + 1).drop_last() =~= es@.take(i as int));
            assert(es@.take(i + 1).last() == es@[i as int]);
        }
        i += 1;
    }
    proof {
        assert(es@.take(es@.len() as int) =~= es@);
    }
    out
}

/// Lists the feed entries of the anchor for `key`, without materializing
/// it: an anchor that was never ensured yields an empty listing.
pub fn get_mews_from_path(store: &Store, key: Vec<u8>) -> (feed: Vec<FeedMew>)
    ensures
        feed@ == feed_at_key(store@, key@),
{
    match locate_anchor(store, key) {
        None => {
            let r: Vec<FeedMew> = Vec::new();
            proof {
                assert(r@ =~= Seq::<FeedMew>::empty());
            }
            r
        },
        Some(a) => collect_feed(store, a),
    }
}

/// The posts published by `agent`, each paired with the timestamp of its
/// anchor edge.
pub fn mews_by(store: &Store, agent: &Vec<u8>) -> (feed: Vec<FeedMew>)
    ensures
        feed@ == mews_by_spec(store@, agent@),
{
    let key = posts_key(agent);
    get_mews_from_path(store, key)
}

/// The posts indexed under the hashtag token `tag`, whoever published
/// them.
pub fn get_mews_with_hashtag(store: &Store, tag: &Vec<u8>) -> (feed: Vec<FeedMew>)
    ensures
        feed@ == feed_at_key(store@, key_hashtag(tag@)),
{
    let key = hashtag_key(tag);
    get_mews_from_path(store, key)
}

/// The posts indexed under the cashtag token `tag`, whoever published
/// them.
pub fn get_mews_with_cashtag(store: &Store, tag: &Vec<u8>) -> (feed: Vec<FeedMew>)
    ensures
        feed@ == feed_at_key(store@, key_cashtag(tag@)),
{
    let key = cashtag_key(tag);
    get_mews_from_path(store, key)
}

/// The concatenated posts of `agents`, in listing order.
pub open spec fn feeds_of(s: StoreV, agents: Seq<Seq<u8>>) -> Seq<FeedMew>
    decreases agents.len(),
{
    if agents.len() == 0 {
        Seq::empty()
    } else {
        feeds_of(s, agents.drop_last()) + mews_by_spec(s, agents.last())
    }
}

/// Everything `me`'s timeline draws from, before ordering: `me`'s own
/// posts, then the posts of everyone `me` follows.
pub open spec fn timeline_items(s: StoreV, me: Seq<u8>) -> Seq<FeedMew> {
    mews_by_spec(s, me) + feeds_of(s, follow_list_spec(s, me, FollowBase::Following))
}

/// Ordered by non-increasing timestamp.
pub open spec fn sorted_desc(q: Seq<FeedMew>) -> bool {
    forall|i: int, j: int| 0 <= i <= j < q.len() ==> q[i].published_at >= q[j].published_at
}

/// Sorts a feed by descending timestamp; entries with equal timestamps
/// keep their relative order, so repeated calls on equal input agree.
fn sort_feed_desc(v: &mut Vec<FeedMew>)
    ensures
        sorted_desc(final(v)@),
        final(v)@.to_multiset() == old(v)@.to_multiset(),
{
    broadcast use vstd::seq_lib::group_to_multiset_ensures;

    let mut out: Vec<FeedMew> = Vec::new();
    proof {
        assert(out@.to_multiset() =~= Multiset::<FeedMew>::empty());
        assert(out@.to_multiset().add(v@.to_multiset()) =~= old(v)@.to_multiset());
    }
    while v.len() > 0
        invariant
            sorted_desc(out@),
            forall|i: int, j: int|
                0 <= i < out@.len() && 0 <= j < v@.len() ==> out@[i].published_at
                    >= v@[j].published_at,
            out@.to_multiset().add(v@.to_multiset()) == old(v)@.to_multiset(),
        decreases v@.len(),
    {
        let mut idx: usize = 0;
        let mut k: usize = 1;
        while k < v.len()
            invariant
                idx < k <= v@.len(),
                v@.len() > 0,
                forall|j: int| 0 <= j < k ==> v@[idx as int].published_at >= v@[j].published_at,
            decreases v@.len() - k,
        {
            if v[k].published_at > v[idx].published_at {
                idx = k;
            }
            k += 1;
        }
        let ghost prev = v@;
        let ghost prev_out = out@;
        let x = v.remove(idx);
        out.push(x);
        proof {
            prev.to_multiset_ensures();
            prev_out.to_multiset_ensures();
            assert(prev.contains(x));
            assert(prev.to_multiset().count(x) > 0);
            assert(prev_out.push(x).to_multiset() =~= prev_out.to_multiset().insert(x));
            assert(prev.remove(idx as int).to_multiset() =~= prev.to_multiset().remove(
                prev[idx as int],
            ));
            assert(out@.to_multiset().add(v@.to_multiset()) =~= old(v)@.to_multiset());
        }
    }
    proof {
        assert(v@.to_multiset() =~= Multiset::<FeedMew>::empty()) by {
            assert(v@ =~= Seq::<FeedMew>::empty());
        }
        assert(out@.to_multiset() =~= old(v)@.to_multiset());
    }
    *v = out;
}

/// `me`'s timeline: `me`'s own posts and those of everyone `me` follows,
/// merged and ordered by descending timestamp. Entries with equal
/// timestamps keep their listing order.
pub fn mews_feed(store: &Store, me: &Vec<u8>) -> (feed: Vec<FeedMew>)
    ensures
        sorted_desc(feed@),
        feed@.to_multiset() == timeline_items(store@, me@).to_multiset(),
{
    let mut feed = mews_by(store, me);
    let fl = follow_inner(store, me, FollowBase::Following);
    let mut i: usize = 0;
    proof {
        assert(ident_views(fl@).take(0) =~= Seq::<Seq<u8>>::empty());
        assert(feed@ =~= mews_by_spec(store@, me@) + feeds_of(store@, ident_views(fl@).take(0)));
    }
    while i < fl.len()
        invariant
            i <= fl@.len(),
            feed@ == mews_by_spec(store@, me@) + feeds_of(
                store@,
                ident_views(fl@).take(i as int),
            ),
        decreases fl@.len() - i,
    {
        let mut part = mews_by(store, &fl[i]);
        feed.append(&mut part);
        proof {
            let iv = ident_views(fl@);
            assert(iv.take(i + 1).drop_last() =~= iv.take(i as int));
            assert(iv.take(i + 1).last() == fl@[i as int]@);
            assert(feed@ =~= mews_by_spec(store@, me@) + feeds_of(store@, iv.take(i + 1)));
        }
        i += 1;
    }
    proof {
        assert(ident_views(fl@).take(fl@.len() as int) =~= ident_views(fl@));
    }
    sort_feed_desc(&mut feed);
    feed
}

} // verus!
