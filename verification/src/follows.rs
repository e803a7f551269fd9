//! Relationship graph: follow/follower relations between two identities'
//! anchors, kept as two independently written edges. There is no
//! transaction across the two writes: a failure between them leaves the
//! graph asymmetric, and each list is authoritative only for its own query.

use vstd::prelude::*;

verus! {

use crate::store::{
    Store,
    StoreV,
    Record,
    RecordV,
    Edge,
    find_rec,
    put_store,
    put_hash,
    add_edge_spec,
    remove_edge_spec,
    edges_from_spec,
    clone_bytes,
};
use crate::anchor::{
    key_following,
    key_followers,
    following_key,
    followers_key,
    ensure_anchor,
    locate_anchor,
};

/// Store after `me` follows `them`: both identities are addressable, `me`'s
/// following anchor gets an edge to `them`, and `them`'s followers anchor
/// gets an edge to `me` — two independent writes.
pub open spec fn follow_spec(s: StoreV, me: Seq<u8>, them: Seq<u8>) -> StoreV {
    let me_t = put_hash(s, RecordV::Ident(me));
    let s1 = put_store(s, RecordV::Ident(me));
    let them_t = put_hash(s1, RecordV::Ident(them));
    let s2 = put_store(s1, RecordV::Ident(them));
    let a1 = put_hash(s2, RecordV::Anchor(key_following(me)));
    let s3 = put_store(s2, RecordV::Anchor(key_following(me)));
    let s4 = add_edge_spec(s3, a1 as usize, them_t as usize, None);
    let a2 = put_hash(s4, RecordV::Anchor(key_followers(them)));
    let s5 = put_store(s4, RecordV::Anchor(key_followers(them)));
    add_edge_spec(s5, a2 as usize, me_t as usize, None)
}

/// Records that `me` follows `them`.
pub fn follow(store: &mut Store, me: &Vec<u8>, agent: &Vec<u8>)
    requires
        old(store)@.wf(),
        old(store)@.next_edge_id + 2 <= u64::MAX,
    ensures
        final(store)@.wf(),
        final(store)@ == follow_spec(old(store)@, me@, agent@),
{
    let me_t = store.put(Record::Ident(clone_bytes(me)));
    let them_t = store.put(Record::Ident(clone_bytes(agent)));
    let key1 = following_key(me);
    let a1 = ensure_anchor(store, key1);
    store.create_edge(a1, them_t, None);
    let key2 = followers_key(agent);
    let a2 = ensure_anchor(store, key2);
    store.create_edge(a2, me_t, None);
}

/// First edge at position `i` or later whose target is `t`.
pub open spec fn find_edge_to(es: Seq<Edge>, t: usize, i: int) -> Option<Edge>
    decreases es.len() - i,
    when 0 <= i <= es.len()
{
    if i >= es.len() {
        None
    } else if es[i].to == t {
        Some(es[i])
    } else {
        find_edge_to(es, t, i + 1)
    }
}

/// One half of an unfollow: the anchor for `akey` is ensured, and the first
/// of its edges targeting the identity `target` — if that identity is
/// addressable and such an edge exists — is deleted. At most one edge goes
/// per call; with none matching this is a no-op.
pub open spec fn unfollow_half(s: StoreV, akey: Seq<u8>, target: Seq<u8>) -> StoreV {
    let a = put_hash(s, RecordV::Anchor(akey));
    let s1 = put_store(s, RecordV::Anchor(akey));
    match find_rec(s1.records, RecordV::Ident(target)) {
        None => s1,
        Some(t) => match find_edge_to(edges_from_spec(s1, a as usize), t as usize, 0) {
            None => s1,
            Some(e) => remove_edge_spec(s1, e.id),
        },
    }
}

/// Store after `me` unfollows `them`: the first matching edge is removed
/// from `me`'s following anchor, then from `them`'s followers anchor.
pub open spec fn unfollow_spec(s: StoreV, me: Seq<u8>, them: Seq<u8>) -> StoreV {
    unfollow_half(unfollow_half(s, key_following(me), them), key_followers(them), me)
}

/// Finds the first edge of `es` targeting `t`.
fn first_edge_to(es: &Vec<Edge>, t: usize) -> (r: Option<Edge>)
    ensures
        r == find_edge_to(es@, t, 0),
{
    let mut i: usize = 0;
    while i < es.len()
        invariant
            i <= es@.len(),
            find_edge_to(es@, t, 0) == find_edge_to(es@, t, i as int),
        decreases es@.len() - i,
    {
        if es[i].to == t {
            return Some(es[i]);
        }
        i += 1;
    }
    None
}

/// Deletes the first edge of the anchor for `akey` that targets the
/// identity `target`, if any.
fn unfollow_from(store: &mut Store, akey: Vec<u8>, target: &Vec<u8>)
    requires
        old(store)@.wf(),
    ensures
        final(store)@.wf(),
        final(store)@ == unfollow_half(old(store)@, akey@, target@),
{
    let a = ensure_anchor(store, akey);
    let probe = Record::Ident(clone_bytes(target));
    match store.locate(&probe) {
        None => (),
        Some(t) => {
            let es = store.list_edges(a);
            match first_edge_to(&es, t) {
                None => (),
                Some(e) => {
                    store.delete_edge(e.id);
                },
            }
        },
    }
}

/// Removes the follow relation from `me` to `them`; a silent no-op where
/// no matching edge exists.
pub fn unfollow(store: &mut Store, me: &Vec<u8>, agent: &Vec<u8>)
    requires
        old(store)@.wf(),
    ensures
        final(store)@.wf(),
        final(store)@ == unfollow_spec(old(store)@, me@, agent@),
{
    let key1 = following_key(me);
    unfollow_from(store, key1, agent);
    let key2 = followers_key(agent);
    unfollow_from(store, key2, me);
}

/// Which side of the relation a listing reads.
#[derive(Clone, Copy, Debug, PartialEq, Eq, Structural)]
pub enum FollowBase {
    Following,
    Followers,
}

/// Anchor key of the chosen side for `id`.
pub open spec fn base_key(base: FollowBase, id: Seq<u8>) -> Seq<u8> {
    match base {
        FollowBase::Following => key_following(id),
        FollowBase::Followers => key_followers(id),
    }
}

/// The identities reachable through `es`: each edge whose target resolves
/// to an identity record contributes it, in edge order; unresolvable
/// targets are dropped.
pub open spec fn idents_from(recs: Seq<RecordV>, es: Seq<Edge>) -> Seq<Seq<u8>>
    decreases es.len(),
{
    if es.len() == 0 {
        Seq::empty()
    } else {
        let prev = idents_from(recs, es.drop_last());
        let e = es.last();
        if e.to < recs.len() && recs[e.to as int] is Ident {
            prev.push(recs[e.to as int]->Ident_0)
        } else {
            prev
        }
    }
}

/// The byte sequences of a vector of identities.
pub open spec fn ident_views(vs: Seq<Vec<u8>>) -> Seq<Seq<u8>> {
    vs.map_values(|v: Vec<u8>| v@)
}

/// What listing one side of the relation returns: empty when the anchor
/// was never materialized, else the identities its edges reach.
pub open spec fn follow_list_spec(s: StoreV, agent: Seq<u8>, base: FollowBase) -> Seq<Seq<u8>> {
    match find_rec(s.records, RecordV::Anchor(base_key(base, agent))) {
        None => Seq::empty(),
        Some(a) => idents_from(s.records, edges_from_spec(s, a as usize)),
    }
}

/// Lists the identities on one side of the relation for `agent`.
pub fn follow_inner(store: &Store, agent: &Vec<u8>, base: FollowBase) -> (r: Vec<Vec<u8>>)
    ensures
        ident_views(r@) == follow_list_spec(store@, agent@, base),
{
    let key = match base {
        FollowBase::Following => following_key(agent),
        FollowBase::Followers => followers_key(agent),
    };
    match locate_anchor(store, key) {
        None => {
            let r: Vec<Vec<u8>> = Vec::new();
            proof {
                assert(ident_views(r@) =~= Seq::<Seq<u8>>::empty());
            }
            r
        },
        Some(a) => {
            let es = store.list_edges(a);
            let mut out: Vec<Vec<u8>> = Vec::new();
            let mut i: usize = 0;
            proof {
                assert(es@.take(0) =~= Seq::<Edge>::empty());
                assert(ident_views(out@) =~= idents_from(store@.records, es@.take(0)));
            }
            while i < es.len()
                invariant
                    i <= es@.len(),
                    ident_views(out@) == idents_from(store@.records, es@.take(i as int)),
                decreases es@.len() - i,
            {
                let e = es[i];
                let ghost pre = out@;
                match store.get(e.to) {
                    Some(rec) => match rec {
                        Record::Ident(v) => {
                            out.push(clone_bytes(v));
                            proof {
                                assert(ident_views(out@) =~= ident_views(pre).push(v@));
                            }
                        },
                        _ => (),
                    },
                    None => (),
                }
                proof {
                    assert(es@.take(i + 1).drop_last() =~= es@.take(i as int));
                    assert(es@.take(i + 1).last() == es@[i as int]);
                }
                i += 1;
            }
            proof {
                assert(es@.take(es@.len() as int) =~= es@);
            }
            out
        },
    }
}

/// Whom `agent` follows.
pub fn following(store: &Store, agent: &Vec<u8>) -> (r: Vec<Vec<u8>>)
    ensures
        ident_views(r@) == follow_list_spec(store@, agent@, FollowBase::Following),
{
    follow_inner(store, agent, FollowBase::Following)
}

/// Who follows `agent`.
pub fn followers(store: &Store, agent: &Vec<u8>) -> (r: Vec<Vec<u8>>)
    ensures
        ident_views(r@) == follow_list_spec(store@, agent@, FollowBase::Followers),
{
    follow_inner(store, agent, FollowBase::Followers)
}

/// Whom the calling identity follows.
pub fn my_following(store: &Store, me: &Vec<u8>) -> (r: Vec<Vec<u8>>)
    ensures
        ident_views(r@) == follow_list_spec(store@, me@, FollowBase::Following),
{
    following(store, me)
}

/// Who follows the calling identity.
pub fn my_followers(store: &Store, me: &Vec<u8>) -> (r: Vec<Vec<u8>>)
    ensures
        ident_views(r@) == follow_list_spec(store@, me@, FollowBase::Followers),
{
    followers(store, me)
}

} // verus!
