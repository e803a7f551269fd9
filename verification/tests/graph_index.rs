use mewsfeed::store::{LinkTag, Record, Store};
use mewsfeed::anchor::{ensure_anchor, hashtag_key, locate_anchor, posts_key};
use mewsfeed::mews::{
    create_mew, create_mewmew, create_original_mew, create_remew, create_reply_mew, get_mew,
    CreateMewInput, MewError, MewType, MewTypeInput,
};
use mewsfeed::follows::{follow, followers, following, my_followers, my_following, unfollow};
use mewsfeed::feed::{
    get_mews_from_path, get_mews_with_cashtag, get_mews_with_hashtag, mews_by, mews_feed,
};
use mewsfeed::tags::find_tags;

#[test]
fn put_is_content_addressed() {
    let mut store = Store::new();
    let h1 = store.put(Record::Blob(b"hello".to_vec()));
    let h2 = store.put(Record::Blob(b"hello".to_vec()));
    let h3 = store.put(Record::Blob(b"other".to_vec()));
    assert_eq!(h1, h2);
    assert_ne!(h1, h3);
}

#[test]
fn ensure_anchor_is_idempotent() {
    let mut store = Store::new();
    let key = hashtag_key(&b"#foo".to_vec());
    let h1 = ensure_anchor(&mut store, key.clone());
    let h2 = ensure_anchor(&mut store, key);
    assert_eq!(h1, h2);
    assert!(store.list_edges(h1).is_empty());
    let h3 = ensure_anchor(&mut store, hashtag_key(&b"#bar".to_vec()));
    assert_ne!(h1, h3);
}

#[test]
fn locate_finds_only_materialized_anchors() {
    let mut store = Store::new();
    let key = hashtag_key(&b"#foo".to_vec());
    assert!(locate_anchor(&store, key.clone()).is_none());
    let h = ensure_anchor(&mut store, key.clone());
    assert_eq!(locate_anchor(&store, key), Some(h));
}

#[test]
fn delete_edge_removes_only_that_edge() {
    let mut store = Store::new();
    let a = store.put(Record::Blob(b"a".to_vec()));
    let e1 = store.create_edge(a, 10, None);
    let e2 = store.create_edge(a, 20, None);
    let e3 = store.create_edge(a, 30, None);
    store.delete_edge(e2);
    let es = store.list_edges(a);
    assert_eq!(es.len(), 2);
    assert_eq!(es[0].id, e1);
    assert_eq!(es[0].to, 10);
    assert_eq!(es[1].id, e3);
    assert_eq!(es[1].to, 30);
    // deleting an id that no longer exists changes nothing
    store.delete_edge(e2);
    assert_eq!(store.list_edges(a).len(), 2);
}

#[test]
fn tag_extraction_finds_maximal_tokens() {
    let text = b"hello #foo $BAR #foo".to_vec();
    assert_eq!(
        find_tags(&text, b'#'),
        vec![b"#foo".to_vec(), b"#foo".to_vec()]
    );
    assert_eq!(find_tags(&text, b'$'), vec![b"$BAR".to_vec()]);
}

#[test]
fn tag_extraction_edge_cases() {
    assert!(find_tags(&b"".to_vec(), b'#').is_empty());
    assert!(find_tags(&b"#".to_vec(), b'#').is_empty());
    assert!(find_tags(&b"##".to_vec(), b'#').is_empty());
    assert_eq!(find_tags(&b"##a".to_vec(), b'#'), vec![b"#a".to_vec()]);
    assert_eq!(
        find_tags(&b"#a#b_9 tail".to_vec(), b'#'),
        vec![b"#a".to_vec(), b"#b_9".to_vec()]
    );
    assert_eq!(find_tags(&b"x#A-z".to_vec(), b'#'), vec![b"#A".to_vec()]);
}

#[test]
fn repeated_hashtag_indexes_twice() {
    let mut store = Store::new();
    let me = b"alice".to_vec();
    let _h = create_original_mew(&mut store, &me, &b"hello #foo $BAR #foo".to_vec());
    let foo = get_mews_with_hashtag(&store, &b"#foo".to_vec());
    assert_eq!(foo.len(), 2);
    let bar = get_mews_with_cashtag(&store, &b"$BAR".to_vec());
    assert_eq!(bar.len(), 1);
    assert!(matches!(bar[0].mew.mew_type, MewType::Original(_)));
}

#[test]
fn follow_then_lists_both_sides() {
    let mut store = Store::new();
    let a = b"alice".to_vec();
    let b = b"bob".to_vec();
    follow(&mut store, &a, &b);
    assert!(following(&store, &a).contains(&b));
    assert!(followers(&store, &b).contains(&a));
    assert!(my_following(&store, &a).contains(&b));
    assert!(my_followers(&store, &b).contains(&a));
    assert!(following(&store, &b).is_empty());
    assert!(followers(&store, &a).is_empty());
}

#[test]
fn unfollow_removes_both_sides_and_is_idempotent() {
    let mut store = Store::new();
    let a = b"alice".to_vec();
    let b = b"bob".to_vec();
    follow(&mut store, &a, &b);
    unfollow(&mut store, &a, &b);
    assert!(!following(&store, &a).contains(&b));
    assert!(!followers(&store, &b).contains(&a));
    // a second unfollow is a silent no-op
    unfollow(&mut store, &a, &b);
    assert!(following(&store, &a).is_empty());
    assert!(followers(&store, &b).is_empty());
}

#[test]
fn unfollow_removes_at_most_one_duplicate_per_call() {
    let mut store = Store::new();
    let a = b"alice".to_vec();
    let b = b"bob".to_vec();
    follow(&mut store, &a, &b);
    follow(&mut store, &a, &b);
    unfollow(&mut store, &a, &b);
    assert!(following(&store, &a).contains(&b));
    assert!(followers(&store, &b).contains(&a));
    unfollow(&mut store, &a, &b);
    assert!(!following(&store, &a).contains(&b));
    assert!(!followers(&store, &b).contains(&a));
}

#[test]
fn timeline_merges_and_sorts_descending() {
    let mut store = Store::new();
    let a = b"alice".to_vec();
    let b = b"bob".to_vec();
    store.set_now(10);
    let p1 = create_original_mew(&mut store, &a, &b"first".to_vec());
    store.set_now(20);
    let p2 = create_original_mew(&mut store, &a, &b"second".to_vec());
    follow(&mut store, &a, &b);
    store.set_now(15);
    let p3 = create_original_mew(&mut store, &b, &b"between".to_vec());
    let feed = mews_feed(&store, &a);
    assert_eq!(feed.len(), 3);
    assert_eq!(feed[0].published_at, 20);
    assert_eq!(feed[1].published_at, 15);
    assert_eq!(feed[2].published_at, 10);
    assert_eq!(Ok(feed[0].mew), get_mew(&store, p2));
    assert_eq!(Ok(feed[1].mew), get_mew(&store, p3));
    assert_eq!(Ok(feed[2].mew), get_mew(&store, p1));
}

#[test]
fn reply_links_from_original() {
    let mut store = Store::new();
    let a = b"alice".to_vec();
    let b = b"bob".to_vec();
    store.set_now(5);
    let orig = create_original_mew(&mut store, &a, &b"root post".to_vec());
    store.set_now(6);
    let reply = create_reply_mew(&mut store, &b, &b"answer".to_vec(), orig);
    let es = store.list_edges(orig);
    assert_eq!(es.len(), 1);
    assert_eq!(es[0].tag, Some(LinkTag::Reply));
    assert_eq!(es[0].to, reply);
    let bobs = mews_by(&store, &b);
    assert_eq!(bobs.len(), 1);
    assert_eq!(bobs[0].published_at, 6);
    match get_mew(&store, es[0].to) {
        Ok(fm) => match fm.mew_type {
            MewType::Reply(o, _) => assert_eq!(o, orig),
            _ => panic!("expected a reply envelope"),
        },
        Err(_) => panic!("reply envelope must resolve"),
    }
}

#[test]
fn remew_carries_no_body_and_tags_nothing() {
    let mut store = Store::new();
    let a = b"alice".to_vec();
    let b = b"bob".to_vec();
    let orig = create_original_mew(&mut store, &a, &b"look #topic".to_vec());
    let re = create_remew(&mut store, &b, orig);
    let es = store.list_edges(orig);
    assert_eq!(es.len(), 1);
    assert_eq!(es[0].tag, Some(LinkTag::Remew));
    assert_eq!(es[0].to, re);
    assert!(matches!(
        get_mew(&store, re).unwrap().mew_type,
        MewType::ReMew(_)
    ));
    // the remew has no text, so the tag index gained nothing
    assert_eq!(get_mews_with_hashtag(&store, &b"#topic".to_vec()).len(), 1);
}

#[test]
fn mewmew_quotes_with_remew_tag_and_indexes_its_text() {
    let mut store = Store::new();
    let a = b"alice".to_vec();
    let b = b"bob".to_vec();
    let orig = create_original_mew(&mut store, &a, &b"original".to_vec());
    let q = create_mewmew(&mut store, &b, &b"so true #agreed".to_vec(), orig);
    let es = store.list_edges(orig);
    assert_eq!(es.len(), 1);
    assert_eq!(es[0].tag, Some(LinkTag::Remew));
    assert_eq!(es[0].to, q);
    assert!(matches!(
        get_mew(&store, q).unwrap().mew_type,
        MewType::MewMew(_, _)
    ));
    assert_eq!(get_mews_with_hashtag(&store, &b"#agreed".to_vec()).len(), 1);
}

#[test]
fn get_mew_unknown_hash_is_not_found() {
    let store = Store::new();
    assert_eq!(get_mew(&store, 7), Err(MewError::NotFound));
}

#[test]
fn get_mew_non_envelope_is_malformed() {
    let mut store = Store::new();
    let a = b"alice".to_vec();
    // the body blob is stored before the envelope, so hash 0 is the blob
    let post = create_original_mew(&mut store, &a, &b"text".to_vec());
    assert_eq!(get_mew(&store, 0), Err(MewError::Malformed));
    assert!(get_mew(&store, post).is_ok());
}

#[test]
fn listing_drops_unresolvable_targets() {
    let mut store = Store::new();
    let a = b"alice".to_vec();
    let _p1 = create_original_mew(&mut store, &a, &b"one".to_vec());
    let _p2 = create_original_mew(&mut store, &a, &b"two".to_vec());
    let anchor = ensure_anchor(&mut store, posts_key(&a));
    store.create_edge(anchor, 9999, None);
    assert_eq!(store.list_edges(anchor).len(), 3);
    let feed = mews_by(&store, &a);
    assert_eq!(feed.len(), 2);
}

#[test]
fn listing_unknown_anchor_is_empty() {
    let store = Store::new();
    assert!(mews_by(&store, &b"nobody".to_vec()).is_empty());
    assert!(get_mews_with_hashtag(&store, &b"#none".to_vec()).is_empty());
    assert!(get_mews_from_path(&store, hashtag_key(&b"#none".to_vec())).is_empty());
    assert!(mews_feed(&store, &b"nobody".to_vec()).is_empty());
}

#[test]
fn hashtag_index_spans_identities() {
    let mut store = Store::new();
    let a = b"alice".to_vec();
    let b = b"bob".to_vec();
    let _pa = create_original_mew(&mut store, &a, &b"#foo one".to_vec());
    let _pb = create_original_mew(&mut store, &b, &b"two #foo".to_vec());
    let feed = get_mews_with_hashtag(&store, &b"#foo".to_vec());
    assert_eq!(feed.len(), 2);
}

#[test]
fn create_mew_requires_text_where_a_body_is_due() {
    let mut store = Store::new();
    let me = b"alice".to_vec();
    let r = create_mew(
        &mut store,
        &me,
        CreateMewInput { mew_type: MewTypeInput::Original, mew: None },
    );
    assert_eq!(r, Err(MewError::InvalidInput));
    let r = create_mew(
        &mut store,
        &me,
        CreateMewInput { mew_type: MewTypeInput::Reply(0), mew: None },
    );
    assert_eq!(r, Err(MewError::InvalidInput));
    let r = create_mew(
        &mut store,
        &me,
        CreateMewInput { mew_type: MewTypeInput::MewMew(0), mew: None },
    );
    assert_eq!(r, Err(MewError::InvalidInput));
    // a rejected request leaves no trace
    assert!(mews_by(&store, &me).is_empty());
}

#[test]
fn create_mew_rejects_text_on_remew() {
    let mut store = Store::new();
    let me = b"alice".to_vec();
    let orig = create_original_mew(&mut store, &me, &b"root".to_vec());
    let r = create_mew(
        &mut store,
        &me,
        CreateMewInput {
            mew_type: MewTypeInput::ReMew(orig),
            mew: Some(b"cannot say this".to_vec()),
        },
    );
    assert_eq!(r, Err(MewError::InvalidInput));
}

#[test]
fn create_mew_dispatches_each_kind() {
    let mut store = Store::new();
    let me = b"alice".to_vec();
    let orig = create_mew(
        &mut store,
        &me,
        CreateMewInput { mew_type: MewTypeInput::Original, mew: Some(b"root".to_vec()) },
    )
    .unwrap();
    assert!(matches!(
        get_mew(&store, orig).unwrap().mew_type,
        MewType::Original(_)
    ));
    let reply = create_mew(
        &mut store,
        &me,
        CreateMewInput { mew_type: MewTypeInput::Reply(orig), mew: Some(b"re".to_vec()) },
    )
    .unwrap();
    assert!(matches!(
        get_mew(&store, reply).unwrap().mew_type,
        MewType::Reply(_, _)
    ));
    let re = create_mew(
        &mut store,
        &me,
        CreateMewInput { mew_type: MewTypeInput::ReMew(orig), mew: None },
    )
    .unwrap();
    assert!(matches!(
        get_mew(&store, re).unwrap().mew_type,
        MewType::ReMew(_)
    ));
    let q = create_mew(
        &mut store,
        &me,
        CreateMewInput { mew_type: MewTypeInput::MewMew(orig), mew: Some(b"q".to_vec()) },
    )
    .unwrap();
    assert!(matches!(
        get_mew(&store, q).unwrap().mew_type,
        MewType::MewMew(_, _)
    ));
    assert_eq!(mews_by(&store, &me).len(), 4);
}

#[test]
fn identical_text_is_stored_once_and_reusable() {
    let mut store = Store::new();
    let a = b"alice".to_vec();
    let b = b"bob".to_vec();
    let p1 = create_original_mew(&mut store, &a, &b"same words".to_vec());
    let p2 = create_original_mew(&mut store, &b, &b"same words".to_vec());
    // the two envelopes coincide (same variant, same content reference),
    // so the posts are one record listed under both authors
    assert_eq!(p1, p2);
    assert_eq!(mews_by(&store, &a).len(), 1);
    assert_eq!(mews_by(&store, &b).len(), 1);
}

#[test]
fn equal_timestamps_keep_listing_order() {
    let mut store = Store::new();
    let a = b"alice".to_vec();
    store.set_now(7);
    let p1 = create_original_mew(&mut store, &a, &b"one".to_vec());
    let p2 = create_original_mew(&mut store, &a, &b"two".to_vec());
    let p3 = create_original_mew(&mut store, &a, &b"three".to_vec());
    let feed = mews_feed(&store, &a);
    assert_eq!(feed.len(), 3);
    assert_eq!(Ok(feed[0].mew), get_mew(&store, p1));
    assert_eq!(Ok(feed[1].mew), get_mew(&store, p2));
    assert_eq!(Ok(feed[2].mew), get_mew(&store, p3));
}

#[test]
fn timeline_is_stable_across_repeated_calls() {
    let mut store = Store::new();
    let a = b"alice".to_vec();
    store.set_now(3);
    let _p1 = create_original_mew(&mut store, &a, &b"one".to_vec());
    let _p2 = create_original_mew(&mut store, &a, &b"two".to_vec());
    let _p3 = create_original_mew(&mut store, &a, &b"three".to_vec());
    let f1 = mews_feed(&store, &a);
    let f2 = mews_feed(&store, &a);
    assert_eq!(f1, f2);
    assert_eq!(f1.len(), 3);
}
