use vstd::prelude::*;
use vstd::string::*;

verus! {

/// Why a listing or a sample could not be had.
#[derive(Debug)]
pub enum MemeError {
    /// The upstream answered with a non-success status for this subreddit.
    SubredditNotFound(String),
    /// The upstream could not be reached, or its reply could not be decoded.
    UpstreamUnavailable,
    /// The listing holds no post to sample from.
    EmptyListing,
}

/// The text shown to a client for each error.
pub open spec fn message_of(e: MemeError) -> Seq<char> {
    match e {
        MemeError::SubredditNotFound(name) => "subreddit r/"@ + name@ + " was not found"@,
        MemeError::UpstreamUnavailable => "upstream listing service unavailable"@,
        MemeError::EmptyListing => "listing has no posts"@,
    }
}

/// The message of a missing subreddit holds the subreddit's name, as a run of
/// its characters.
pub proof fn lemma_not_found_message_names_subreddit(name: String)
    ensures
        ({
            let m = message_of(MemeError::SubredditNotFound(name));
            let start = "subreddit r/"@.len() as int;
            start + name@.len() <= m.len() && m.subrange(start, start + name@.len() as int) == name@
        }),
{
    let m = message_of(MemeError::SubredditNotFound(name));
    let start = "subreddit r/"@.len() as int;
    assert(m.subrange(start, start + name@.len() as int) =~= name@);
}

impl Clone for MemeError {
    fn clone(&self) -> (r: Self)
        ensures
            r == *self,
    {
        match self {
            MemeError::SubredditNotFound(name) => MemeError::SubredditNotFound(name.clone()),
            MemeError::UpstreamUnavailable => MemeError::UpstreamUnavailable,
            MemeError::EmptyListing => MemeError::EmptyListing,
        }
    }
}

impl MemeError {
    /// Whether a later call may succeed where this one failed.
    pub fn is_retryable(&self) -> (r: bool)
        ensures
            r == (*self is UpstreamUnavailable),
    {
        match self {
            MemeError::UpstreamUnavailable => true,
            _ => false,
        }
    }

    /// The error's message, as shown to a client.
    pub fn message(&self) -> (r: String)
        ensures
            r@ == message_of(*self),
    {
        match self {
            MemeError::SubredditNotFound(name) => {
                let mut s = String::from_str("subreddit r/");
                s.append(name.as_str());
                s.append(" was not found");
                s
            },
            MemeError::UpstreamUnavailable => String::from_str("upstream listing service unavailable"),
            MemeError::EmptyListing => String::from_str("listing has no posts"),
        }
    }
}

} // verus!
