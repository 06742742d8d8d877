use meme_api::error::MemeError;
use meme_api::post::{Listing, Post};
use meme_api::sampler::{pick_at, pick_one, sample};

fn post(n: usize) -> Post {
    Post {
        id: format!("p{}", n),
        title: format!("post {}", n),
        url: format!("https://i.example/p{}.jpg", n),
        author: "someone".to_string(),
        subreddit: "memes".to_string(),
        permalink: format!("/r/memes/comments/p{}", n),
    }
}

#[test]
fn five_draws_from_ten_posts() {
    let posts: Vec<Post> = (0..10).map(post).collect();
    let drawn = sample(&posts, 5).unwrap();
    assert_eq!(drawn.len(), 5);
    for d in &drawn {
        assert!(posts.iter().any(|p| p.id == d.id && p.title == d.title));
    }
}

#[test]
fn sampling_empty_listing_fails() {
    let posts: Vec<Post> = Vec::new();
    assert!(matches!(sample(&posts, 1), Err(MemeError::EmptyListing)));
}

#[test]
fn single_post_listing_repeats() {
    let posts = vec![post(7)];
    let drawn = sample(&posts, 4).unwrap();
    assert_eq!(drawn.len(), 4);
    assert!(drawn.iter().all(|d| d.id == "p7"));
}

#[test]
fn picks_follow_positions_with_repeats() {
    let posts: Vec<Post> = (0..4).map(post).collect();
    let got = pick_at(&posts, &vec![3, 0, 3, 1]);
    let ids: Vec<&str> = got.iter().map(|p| p.id.as_str()).collect();
    assert_eq!(ids, vec!["p3", "p0", "p3", "p1"]);
}

#[test]
fn clone_keeps_every_field() {
    let p = post(2);
    let q = p.clone();
    assert_eq!(q.id, "p2");
    assert_eq!(q.title, "post 2");
    assert_eq!(q.url, "https://i.example/p2.jpg");
    assert_eq!(q.author, "someone");
    assert_eq!(q.subreddit, "memes");
    assert_eq!(q.permalink, "/r/memes/comments/p2");
}

#[test]
fn pick_one_from_listing() {
    let posts: Vec<Post> = (0..3).map(post).collect();
    let l = Listing { subreddit: "memes".to_string(), posts: posts.clone(), fetched_at: 0 };
    let p = pick_one(Ok(l)).unwrap();
    assert!(posts.iter().any(|q| q.id == p.id));
}

#[test]
fn pick_one_passes_errors_on() {
    let r = pick_one(Err(MemeError::SubredditNotFound("x".to_string())));
    assert!(matches!(r, Err(MemeError::SubredditNotFound(n)) if n == "x"));
    let empty = Listing { subreddit: "memes".to_string(), posts: Vec::new(), fetched_at: 0 };
    assert!(matches!(pick_one(Ok(empty)), Err(MemeError::EmptyListing)));
}
