use meme_api::error::MemeError;
use meme_api::post::Post;
use meme_api::request::{default_subreddit, random_default_subreddit, requested_amount, Gathering, POOL_SIZE};

fn post(id: &str) -> Post {
    Post {
        id: id.to_string(),
        title: String::new(),
        url: String::new(),
        author: String::new(),
        subreddit: String::new(),
        permalink: String::new(),
    }
}

#[test]
fn amount_defaults_to_one() {
    assert_eq!(requested_amount(None), 1);
    assert_eq!(requested_amount(Some(7)), 7);
    assert_eq!(requested_amount(Some(0)), 0);
}

#[test]
fn pool_holds_six_names() {
    let names: Vec<String> = (0..POOL_SIZE).map(default_subreddit).collect();
    assert_eq!(names, vec!["memes", "dankmemes", "funny", "antimeme", "wholesomememes", "me_irl"]);
    for _ in 0..20 {
        assert!(names.contains(&random_default_subreddit()));
    }
}

#[test]
fn default_pool_skips_failures() {
    let mut g = Gathering::for_default_pool(Some(3));
    g.record(Ok(post("a")));
    assert!(g.wants_more());
    g.record(Err(MemeError::UpstreamUnavailable));
    assert!(g.wants_more());
    g.record(Ok(post("c")));
    assert!(!g.wants_more());
    let got = g.finish().unwrap();
    let ids: Vec<&str> = got.iter().map(|p| p.id.as_str()).collect();
    assert_eq!(ids, vec!["a", "c"]);
}

#[test]
fn default_pool_all_failures_give_empty() {
    let mut g = Gathering::for_default_pool(None);
    g.record(Err(MemeError::SubredditNotFound("x".to_string())));
    assert!(!g.wants_more());
    assert!(g.finish().unwrap().is_empty());
}

#[test]
fn named_request_stops_at_failure() {
    let mut g = Gathering::for_subreddit("memes".to_string(), Some(4));
    g.record(Ok(post("a")));
    g.record(Err(MemeError::EmptyListing));
    assert!(!g.wants_more());
    assert!(matches!(g.finish(), Err(MemeError::EmptyListing)));
}

#[test]
fn zero_amount_wants_nothing() {
    let g = Gathering::for_subreddit("memes".to_string(), Some(0));
    assert!(!g.wants_more());
    assert!(g.finish().unwrap().is_empty());
}

#[test]
fn named_request_asks_for_its_subreddit_each_time() {
    let mut g = Gathering::for_subreddit("aww".to_string(), Some(2));
    assert_eq!(g.next_subreddit(), "aww");
    g.record(Ok(post("a")));
    assert_eq!(g.next_subreddit(), "aww");
}

#[test]
fn default_request_draws_from_pool() {
    let g = Gathering::for_default_pool(Some(2));
    let names: Vec<String> = (0..POOL_SIZE).map(default_subreddit).collect();
    for _ in 0..20 {
        assert!(names.contains(&g.next_subreddit()));
    }
}
