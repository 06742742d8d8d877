use vstd::prelude::*;
use vstd::string::*;
use crate::error::MemeError;
use crate::post::Post;
use crate::sampler::random_below;

verus! {

/// The number of subreddits in the default pool.
pub const POOL_SIZE: usize = 6;

/// The subreddits that serve a request that names none.
pub open spec fn pool_name(i: int) -> Seq<char> {
    if i == 0 {
        "memes"@
    } else if i == 1 {
        "dankmemes"@
    } else if i == 2 {
        "funny"@
    } else if i == 3 {
        "antimeme"@
    } else if i == 4 {
        "wholesomememes"@
    } else {
        "me_irl"@
    }
}

pub open spec fn in_default_pool(name: Seq<char>) -> bool {
    exists|i: int| 0 <= i < POOL_SIZE && pool_name(i) == name
}

/// The subreddit at position `i` of the default pool.
pub fn default_subreddit(i: usize) -> (r: String)
    requires
        i < POOL_SIZE,
    ensures
        r@ == pool_name(i as int),
{
    if i == 0 {
        String::from_str("memes")
    } else if i == 1 {
        String::from_str("dankmemes")
    } else if i == 2 {
        String::from_str("funny")
    } else if i == 3 {
        String::from_str("antimeme")
    } else if i == 4 {
        String::from_str("wholesomememes")
    } else {
        String::from_str("me_irl")
    }
}

/// A subreddit of the default pool, drawn uniformly.
pub fn random_default_subreddit() -> (r: String)
    ensures
        in_default_pool(r@),
{
    let i = random_below(POOL_SIZE);
    default_subreddit(i)
}

pub open spec fn amount_of(amount: Option<u8>) -> u8 {
    match amount {
        Some(n) => n,
        None => 1,
    }
}

/// The number of posts a request asks for: one unless it says otherwise.
pub fn requested_amount(amount: Option<u8>) -> (r: u8)
    ensures
        r == amount_of(amount),
{
    match amount {
        Some(n) => n,
        None => 1,
    }
}

/// The posts gathered for one request, one attempt per requested post. A
/// request on the default pool draws a subreddit for each attempt and leaves
/// out the attempts that failed; a request on a named subreddit asks for that
/// one on every attempt, and stops at the first failure and reports it.
pub struct Gathering {
    wanted: u8,
    attempts: u8,
    subreddit: Option<String>,
    posts: Vec<Post>,
    failure: Option<MemeError>,
}

impl Gathering {
    pub closed spec fn wanted(&self) -> nat {
        self.wanted as nat
    }

    pub closed spec fn attempts(&self) -> nat {
        self.attempts as nat
    }

    pub closed spec fn skips_failures(&self) -> bool {
        self.subreddit is None
    }

    /// The subreddit named by the request, if any.
    pub closed spec fn target(&self) -> Option<Seq<char>> {
        match self.subreddit {
            Some(n) => Some(n@),
            None => None,
        }
    }

    pub closed spec fn collected(&self) -> Seq<Post> {
        self.posts@
    }

    pub closed spec fn failure(&self) -> Option<MemeError> {
        self.failure
    }

    pub closed spec fn wf(&self) -> bool {
        &&& self.attempts <= self.wanted
        &&& self.posts@.len() <= self.attempts
        &&& self.subreddit is Some ==> self.failure is None ==> self.posts@.len() == self.attempts
        &&& self.subreddit is None ==> self.failure is None
    }

    /// A request on the default pool for `amount` posts (one by default).
    pub fn for_default_pool(amount: Option<u8>) -> (r: Gathering)
        ensures
            r.wf(),
            r.wanted() == amount_of(amount),
            r.attempts() == 0,
            r.skips_failures(),
            r.target() is None,
            r.collected() == Seq::<Post>::empty(),
            r.failure() is None,
    {
        Gathering {
            wanted: requested_amount(amount),
            attempts: 0,
            subreddit: None,
            posts: Vec::new(),
            failure: None,
        }
    }

    /// A request on one named subreddit for `amount` posts (one by default).
    pub fn for_subreddit(subreddit: String, amount: Option<u8>) -> (r: Gathering)
        ensures
            r.wf(),
            r.wanted() == amount_of(amount),
            r.attempts() == 0,
            !r.skips_failures(),
            r.target() == Some(subreddit@),
            r.collected() == Seq::<Post>::empty(),
            r.failure() is None,
    {
        Gathering {
            wanted: requested_amount(amount),
            attempts: 0,
            subreddit: Some(subreddit),
            posts: Vec::new(),
            failure: None,
        }
    }

    /// Whether another post is to be fetched.
    pub fn wants_more(&self) -> (r: bool)
        ensures
            r == (self.attempts() < self.wanted() && self.failure() is None),
    {
        self.attempts < self.wanted && self.failure.is_none()
    }

    /// The subreddit to ask for on the next attempt: the named one, or one
    /// drawn from the default pool.
    pub fn next_subreddit(&self) -> (r: String)
        ensures
            self.target() matches Some(n) ==> r@ == n,
            self.target() is None ==> in_default_pool(r@),
    {
        match &self.subreddit {
            Some(n) => n.clone(),
            None => random_default_subreddit(),
        }
    }

    /// Takes the outcome of one attempt: a post is kept; a failure is left out
    /// on the default pool, and ends a request on a named subreddit.
    pub fn record(&mut self, outcome: Result<Post, MemeError>)
        requires
            old(self).wf(),
            old(self).attempts() < old(self).wanted(),
            old(self).failure() is None,
        ensures
            final(self).wf(),
            final(self).wanted() == old(self).wanted(),
            final(self).skips_failures() == old(self).skips_failures(),
            final(self).target() == old(self).target(),
            final(self).attempts() == old(self).attempts() + 1,
            outcome matches Ok(p) ==> final(self).collected() == old(self).collected().push(p)
                && final(self).failure() is None,
            outcome matches Err(e) ==> final(self).collected() == old(self).collected() && (if old(
                self,
            ).skips_failures() {
                final(self).failure() is None
            } else {
                final(self).failure() == Some(e)
            }),
    {
        self.attempts = self.attempts + 1;
        match outcome {
            Ok(p) => {
                self.posts.push(p);
            },
            Err(e) => {
                if self.subreddit.is_some() {
                    self.failure = Some(e);
                }
            },
        }
    }

    /// The posts gathered, or the failure that ended the request.
    pub fn finish(self) -> (r: Result<Vec<Post>, MemeError>)
        requires
            self.wf(),
        ensures
            self.failure() matches Some(e) ==> r == Err::<Vec<Post>, MemeError>(e),
            self.failure() is None ==> (r matches Ok(v) && v@ == self.collected()),
            r matches Ok(v) ==> v@.len() <= self.attempts() && v@.len() <= self.wanted() && (
            !self.skips_failures() ==> v@.len() == self.attempts()),
    {
        match self.failure {
            Some(e) => Err(e),
            None => Ok(self.posts),
        }
    }
}

} // verus!
