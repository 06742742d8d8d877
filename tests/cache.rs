use meme_api::cache::{ListingCache, Lookup};
use meme_api::error::MemeError;
use meme_api::post::{Listing, Post};
use meme_api::request::Gathering;
use meme_api::sampler::pick_one;
use meme_api::upstream::{classify_reply, UpstreamReply};

fn post(n: usize) -> Post {
    Post {
        id: format!("id{}", n),
        title: format!("title {}", n),
        url: format!("https://i.example/{}.png", n),
        author: format!("author{}", n),
        subreddit: "funny".to_string(),
        permalink: format!("/r/funny/comments/{}", n),
    }
}

fn listing(name: &str, posts: usize, at: u64) -> Listing {
    Listing { subreddit: name.to_string(), posts: (0..posts).map(post).collect(), fetched_at: at }
}

fn is_hit(l: &Lookup) -> bool {
    matches!(l, Lookup::Hit(_))
}

#[test]
fn concurrent_lookups_share_one_fetch() {
    let mut c = ListingCache::new(10, 3600);
    let key = "memes".to_string();
    assert!(matches!(c.begin_get(&key, 0), Lookup::Fetch));
    assert!(matches!(c.begin_get(&key, 0), Lookup::Wait));
    assert!(matches!(c.begin_get(&key, 1), Lookup::Wait));
    let done = c.finish_fetch(&key, Ok(listing("memes", 4, 2)), 2).unwrap();
    assert_eq!(done.posts.len(), 4);
    assert!(is_hit(&c.begin_get(&key, 3)));
}

#[test]
fn failed_fetch_is_shared_and_not_stored() {
    let mut c = ListingCache::new(10, 3600);
    let key = "gone".to_string();
    assert!(matches!(c.begin_get(&key, 0), Lookup::Fetch));
    assert!(matches!(c.begin_get(&key, 0), Lookup::Wait));
    let r = c.finish_fetch(&key, Err(MemeError::UpstreamUnavailable), 1);
    assert!(matches!(r, Err(MemeError::UpstreamUnavailable)));
    assert_eq!(c.len(), 0);
    assert!(matches!(c.begin_get(&key, 2), Lookup::Fetch));
}

#[test]
fn entry_served_until_ttl_then_refetched_once() {
    let mut c = ListingCache::new(10, 3600);
    let key = "funny".to_string();
    assert!(matches!(c.begin_get(&key, 100), Lookup::Fetch));
    c.finish_fetch(&key, Ok(listing("funny", 3, 100)), 100).unwrap();
    assert!(is_hit(&c.begin_get(&key, 100)));
    assert!(is_hit(&c.begin_get(&key, 3699)));
    assert!(matches!(c.begin_get(&key, 3700), Lookup::Fetch));
    assert!(matches!(c.begin_get(&key, 3701), Lookup::Wait));
    c.finish_fetch(&key, Ok(listing("funny", 5, 3702)), 3702).unwrap();
    match c.begin_get(&key, 3703) {
        Lookup::Hit(l) => assert_eq!(l.posts.len(), 5),
        _ => panic!("expected a stored listing"),
    }
}

#[test]
fn stale_entry_kept_when_refresh_fails() {
    let mut c = ListingCache::new(10, 10);
    let key = "memes".to_string();
    c.begin_get(&key, 0);
    c.finish_fetch(&key, Ok(listing("memes", 2, 0)), 0).unwrap();
    assert!(matches!(c.begin_get(&key, 10), Lookup::Fetch));
    assert!(c.finish_fetch(&key, Err(MemeError::UpstreamUnavailable), 11).is_err());
    assert_eq!(c.len(), 1);
    assert!(matches!(c.begin_get(&key, 12), Lookup::Fetch));
}

#[test]
fn overflow_evicts_oldest_refresh() {
    let mut c = ListingCache::new(3, 1000);
    let names = ["b", "a", "c"];
    let times = [5u64, 1, 9];
    for (n, t) in names.iter().zip(times.iter()) {
        let k = n.to_string();
        assert!(matches!(c.begin_get(&k, *t), Lookup::Fetch));
        c.finish_fetch(&k, Ok(listing(n, 1, *t)), *t).unwrap();
    }
    let d = "d".to_string();
    assert!(matches!(c.begin_get(&d, 10), Lookup::Fetch));
    c.finish_fetch(&d, Ok(listing("d", 1, 10)), 10).unwrap();
    assert_eq!(c.len(), 3);
    assert!(matches!(c.begin_get(&"a".to_string(), 11), Lookup::Fetch));
    assert!(is_hit(&c.begin_get(&"b".to_string(), 11)));
    assert!(is_hit(&c.begin_get(&"c".to_string(), 11)));
    assert!(is_hit(&c.begin_get(&"d".to_string(), 11)));
}

#[test]
fn refresh_of_stored_key_evicts_nothing() {
    let mut c = ListingCache::new(2, 5);
    for k in ["x", "y"] {
        let key = k.to_string();
        c.begin_get(&key, 0);
        c.finish_fetch(&key, Ok(listing(k, 1, 0)), 0).unwrap();
    }
    let x = "x".to_string();
    assert!(matches!(c.begin_get(&x, 6), Lookup::Fetch));
    c.finish_fetch(&x, Ok(listing("x", 2, 6)), 6).unwrap();
    assert_eq!(c.len(), 2);
    assert!(is_hit(&c.begin_get(&x, 7)));
}

#[test]
fn capacity_and_ttl_are_kept() {
    let c = ListingCache::new(10, 3600);
    assert_eq!(c.capacity(), 10);
    assert_eq!(c.ttl(), 3600);
    assert_eq!(c.len(), 0);
}

/// A named-subreddit request for three posts against an upstream holding ten
/// known posts: one fetch, three posts, each one of the ten.
#[test]
fn named_request_for_three_makes_one_fetch() {
    let known: Vec<Post> = (0..10).map(post).collect();
    let mut c = ListingCache::new(10, 3600);
    let key = "funny".to_string();
    let mut fetches = 0;
    let mut g = Gathering::for_subreddit(key.clone(), Some(3));
    while g.wants_more() {
        let name = g.next_subreddit();
        assert_eq!(name, "funny");
        let got = match c.begin_get(&name, 50) {
            Lookup::Hit(l) => Ok(l),
            Lookup::Wait => panic!("no other caller"),
            Lookup::Fetch => {
                fetches += 1;
                let reply = UpstreamReply::Answered { status: 200, posts: Some(known.clone()) };
                let outcome = classify_reply(&key, reply, 50);
                c.finish_fetch(&key, outcome, 50)
            }
        };
        g.record(pick_one(got));
    }
    let posts = g.finish().unwrap();
    assert_eq!(fetches, 1);
    assert_eq!(posts.len(), 3);
    for p in &posts {
        assert!(known.iter().any(|k| k.id == p.id && k.url == p.url));
    }
}

/// A named-subreddit request against an upstream that answers 404 ends in an
/// error whose message names the subreddit.
#[test]
fn missing_subreddit_request_reports_name() {
    let mut c = ListingCache::new(10, 3600);
    let key = "doesnotexist123".to_string();
    let mut g = Gathering::for_subreddit(key.clone(), None);
    while g.wants_more() {
        let got = match c.begin_get(&key, 0) {
            Lookup::Fetch => {
                let reply = UpstreamReply::Answered { status: 404, posts: None };
                c.finish_fetch(&key, classify_reply(&key, reply, 0), 0)
            }
            _ => panic!("the key was never stored"),
        };
        g.record(pick_one(got));
    }
    let err = g.finish().unwrap_err();
    assert!(matches!(err, MemeError::SubredditNotFound(_)));
    assert!(err.message().contains("doesnotexist123"));
}
