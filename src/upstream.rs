use vstd::prelude::*;
use vstd::string::*;
use crate::error::MemeError;
use crate::post::{Listing, Post};

verus! {

/// The number of posts asked of the upstream for one listing: the largest page
/// it serves.
pub const PAGE_SIZE: u32 = 100;

/// How the upstream answered one listing request.
pub enum UpstreamReply {
    /// The request did not get an answer (connection refused, time out).
    Unreachable,
    /// The upstream answered with this status, and with these posts when its
    /// body could be decoded.
    Answered { status: u16, posts: Option<Vec<Post>> },
}

/// Whether an HTTP status reports success.
pub open spec fn is_success(status: u16) -> bool {
    200 <= status < 300
}

/// The address of the listing of a subreddit, asking for a full page.
pub open spec fn listing_url_of(subreddit: Seq<char>) -> Seq<char> {
    "https://reddit.com/r/"@ + subreddit + "/hot.json?limit=100"@
}

/// The address from which the listing of `subreddit` is fetched.
pub fn listing_url(subreddit: &str) -> (r: String)
    ensures
        r@ == listing_url_of(subreddit@),
{
    let mut s = String::from_str("https://reddit.com/r/");
    s.append(subreddit);
    s.append("/hot.json?limit=100");
    s
}

/// A character of the Unicode White_Space property.
pub open spec fn is_white_space(c: char) -> bool {
    let v = c as u32;
    (0x9 <= v <= 0xd) || v == 0x20 || v == 0x85 || v == 0xa0 || v == 0x1680 || (0x2000 <= v
        <= 0x200a) || v == 0x2028 || v == 0x2029 || v == 0x202f || v == 0x205f || v == 0x3000
}

/// `s` without its leading white space.
pub open spec fn trim_start(s: Seq<char>) -> Seq<char>
    decreases s.len(),
{
    if s.len() > 0 && is_white_space(s[0]) {
        trim_start(s.drop_first())
    } else {
        s
    }
}

/// `s` without its trailing white space.
pub open spec fn trim_end(s: Seq<char>) -> Seq<char>
    decreases s.len(),
{
    if s.len() > 0 && is_white_space(s.last()) {
        trim_end(s.drop_last())
    } else {
        s
    }
}

/// `s` without its leading and trailing white space.
pub open spec fn trimmed(s: Seq<char>) -> Seq<char> {
    trim_end(trim_start(s))
}

proof fn lemma_trim_start(s: Seq<char>, a: int)
    requires
        0 <= a <= s.len(),
        forall|i: int| 0 <= i < a ==> is_white_space(#[trigger] s[i]),
        a == s.len() || !is_white_space(s[a]),
    ensures
        trim_start(s) == s.subrange(a, s.len() as int),
    decreases a,
{
    if a == 0 {
        assert(s.subrange(0, s.len() as int) =~= s);
    } else {
        assert(is_white_space(s[0]));
        let t = s.drop_first();
        assert forall|i: int| 0 <= i < a - 1 implies is_white_space(#[trigger] t[i]) by {
            assert(t[i] == s[i + 1]);
        }
        lemma_trim_start(t, a - 1);
        assert(t.subrange(a - 1, t.len() as int) =~= s.subrange(a, s.len() as int));
    }
}

proof fn lemma_trim_end(s: Seq<char>, b: int)
    requires
        0 <= b <= s.len(),
        forall|i: int| b <= i < s.len() ==> is_white_space(#[trigger] s[i]),
        b == 0 || !is_white_space(s[b - 1]),
    ensures
        trim_end(s) == s.subrange(0, b),
    decreases s.len() - b,
{
    if b == s.len() {
        assert(s.subrange(0, b) =~= s);
    } else {
        assert(is_white_space(s.last()));
        let t = s.drop_last();
        assert forall|i: int| b <= i < t.len() implies is_white_space(#[trigger] t[i]) by {
            assert(t[i] == s[i]);
        }
        lemma_trim_end(t, b);
        assert(t.subrange(0, b) =~= s.subrange(0, b));
    }
}

/// Whether `c` is a white space character.
pub fn white_space(c: char) -> (r: bool)
    ensures
        r == is_white_space(c),
{
    let v = c as u32;
    (0x9 <= v && v <= 0xd) || v == 0x20 || v == 0x85 || v == 0xa0 || v == 0x1680 || (0x2000 <= v
        && v <= 0x200a) || v == 0x2028 || v == 0x2029 || v == 0x202f || v == 0x205f || v == 0x3000
}

/// The text with its leading and trailing white space removed.
pub fn trim_white_space(s: &str) -> (r: String)
    ensures
        r@ == trimmed(s@),
{
    let n = s.unicode_len();
    let mut a: usize = 0;
    loop
        invariant
            n == s@.len(),
            a <= n,
            forall|i: int| 0 <= i < a ==> is_white_space(#[trigger] s@[i]),
        ensures
            a == n || !is_white_space(s@[a as int]),
        decreases n - a,
    {
        if a == n {
            break;
        }
        if !white_space(s.get_char(a)) {
            break;
        }
        a = a + 1;
    }
    let mut b: usize = n;
    loop
        invariant
            n == s@.len(),
            a <= b <= n,
            a == n || !is_white_space(s@[a as int]),
            forall|i: int| b <= i < n ==> is_white_space(#[trigger] s@[i]),
        ensures
            b == a || !is_white_space(s@[b - 1]),
        decreases b - a,
    {
        if b == a {
            break;
        }
        if !white_space(s.get_char(b - 1)) {
            break;
        }
        b = b - 1;
    }
    proof {
        lemma_trim_start(s@, a as int);
        let t = s@.subrange(a as int, n as int);
        let bb = b - a;
        assert forall|i: int| bb <= i < t.len() implies is_white_space(#[trigger] t[i]) by {
            assert(t[i] == s@[i + a]);
        }
        if bb > 0 {
            assert(t[bb - 1] == s@[b - 1]);
        }
        lemma_trim_end(t, bb);
        assert(t.subrange(0, bb) =~= s@.subrange(a as int, b as int));
    }
    String::from_str(s.substring_char(a, b))
}

/// A subreddit name as given by a client, with its surrounding white space
/// removed. A name that is blank names no subreddit.
pub fn subreddit_name(raw: &str) -> (r: Result<String, MemeError>)
    ensures
        r is Err <==> trimmed(raw@).len() == 0,
        r matches Ok(n) ==> n@ == trimmed(raw@),
        r matches Err(e) ==> e is SubredditNotFound && e->SubredditNotFound_0@ == raw@,
{
    let n = trim_white_space(raw);
    if n.as_str().unicode_len() == 0 {
        Err(MemeError::SubredditNotFound(String::from_str(raw)))
    } else {
        Ok(n)
    }
}

/// The listing, or the error, that an upstream reply amounts to: a non-success
/// status means that the subreddit does not exist; no answer, or a body that
/// could not be decoded, means that the upstream is unavailable.
pub fn classify_reply(subreddit: &String, reply: UpstreamReply, now: u64) -> (r: Result<Listing, MemeError>)
    ensures
        reply is Unreachable ==> r == Err::<Listing, MemeError>(MemeError::UpstreamUnavailable),
        reply matches UpstreamReply::Answered { status, posts } ==> {
            if !is_success(status) {
                r == Err::<Listing, MemeError>(MemeError::SubredditNotFound(*subreddit))
            } else if posts is None {
                r == Err::<Listing, MemeError>(MemeError::UpstreamUnavailable)
            } else {
                r matches Ok(l) && l.subreddit == *subreddit && l.posts == posts->Some_0
                    && l.fetched_at == now
            }
        },
{
    match reply {
        UpstreamReply::Unreachable => Err(MemeError::UpstreamUnavailable),
        UpstreamReply::Answered { status, posts } => {
            if status < 200 || status >= 300 {
                Err(MemeError::SubredditNotFound(subreddit.clone()))
            } else {
                match posts {
                    None => Err(MemeError::UpstreamUnavailable),
                    Some(posts) => Ok(Listing { subreddit: subreddit.clone(), posts, fetched_at: now }),
                }
            }
        },
    }
}

} // verus!
