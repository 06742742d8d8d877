use vstd::prelude::*;

verus! {

/// One listing item: an identifier, a title, a media link and the fields the
/// service passes through.
#[derive(Debug)]
pub struct Post {
    pub id: String,
    pub title: String,
    pub url: String,
    pub author: String,
    pub subreddit: String,
    pub permalink: String,
}

impl Clone for Post {
    fn clone(&self) -> (r: Self)
        ensures
            r == *self,
    {
        Post {
            id: self.id.clone(),
            title: self.title.clone(),
            url: self.url.clone(),
            author: self.author.clone(),
            subreddit: self.subreddit.clone(),
            permalink: self.permalink.clone(),
        }
    }
}

/// Copies a sequence of posts element by element.
pub fn copy_posts(posts: &Vec<Post>) -> (r: Vec<Post>)
    ensures
        r@ == posts@,
{
    let mut r: Vec<Post> = Vec::new();
    let mut i: usize = 0;
    while i < posts.len()
        invariant
            i <= posts@.len(),
            r@ == posts@.subrange(0, i as int),
        decreases posts@.len() - i,
    {
        r.push(posts[i].clone());
        i = i + 1;
    }
    assert(r@ =~= posts@);
    r
}

/// The posts fetched for one subreddit in one upstream call, with the time of
/// the fetch.
#[derive(Debug)]
pub struct Listing {
    pub subreddit: String,
    pub posts: Vec<Post>,
    pub fetched_at: u64,
}

/// What a listing holds, as plain values.
pub struct ListingView {
    pub subreddit: Seq<char>,
    pub posts: Seq<Post>,
    pub fetched_at: u64,
}

impl View for Listing {
    type V = ListingView;

    open spec fn view(&self) -> ListingView {
        ListingView { subreddit: self.subreddit@, posts: self.posts@, fetched_at: self.fetched_at }
    }
}

impl Clone for Listing {
    fn clone(&self) -> (r: Self)
        ensures
            r@ == self@,
    {
        let posts = copy_posts(&self.posts);
        Listing { subreddit: self.subreddit.clone(), posts, fetched_at: self.fetched_at }
    }
}

} // verus!
