use vstd::prelude::*;
use rand::Rng;
use crate::error::MemeError;
use crate::post::{Listing, Post};

verus! {

/// Relies on rand's `thread_rng().gen_range(0..n)`: a value in `0..n`, which it
/// draws uniformly; it panics on an empty range, so `n` is positive.
#[verifier::external_body]
pub(crate) fn random_below(n: usize) -> (r: usize)
    requires
        n > 0,
    ensures
        r < n,
{
    rand::thread_rng().gen_range(0..n)
}

/// Every post of `drawn` is one of `posts`.
pub open spec fn drawn_from(drawn: Seq<Post>, posts: Seq<Post>) -> bool {
    forall|i: int| 0 <= i < drawn.len() ==> posts.contains(#[trigger] drawn[i])
}

/// The posts at the given positions of a listing, in the order of the
/// positions; a position may repeat.
pub fn pick_at(posts: &Vec<Post>, draws: &Vec<usize>) -> (r: Vec<Post>)
    requires
        forall|i: int| 0 <= i < draws@.len() ==> #[trigger] draws@[i] < posts@.len(),
    ensures
        r@.len() == draws@.len(),
        forall|i: int| 0 <= i < draws@.len() ==> #[trigger] r@[i] == posts@[draws@[i] as int],
{
    let mut r: Vec<Post> = Vec::new();
    let mut i: usize = 0;
    while i < draws.len()
        invariant
            i <= draws@.len(),
            r@.len() == i,
            forall|i: int| 0 <= i < draws@.len() ==> #[trigger] draws@[i] < posts@.len(),
            forall|j: int| 0 <= j < i ==> #[trigger] r@[j] == posts@[draws@[j] as int],
        decreases draws@.len() - i,
    {
        r.push(posts[draws[i]].clone());
        i = i + 1;
    }
    r
}

/// `count` posts drawn from a listing independently and uniformly, with
/// replacement. An empty listing has nothing to draw from.
pub fn sample(posts: &Vec<Post>, count: usize) -> (r: Result<Vec<Post>, MemeError>)
    ensures
        posts@.len() == 0 <==> r is Err,
        r is Err ==> r == Err::<Vec<Post>, MemeError>(MemeError::EmptyListing),
        r matches Ok(v) ==> v@.len() == count && drawn_from(v@, posts@),
{
    if posts.len() == 0 {
        return Err(MemeError::EmptyListing);
    }
    let mut draws: Vec<usize> = Vec::new();
    let mut i: usize = 0;
    while i < count
        invariant
            i <= count,
            posts@.len() > 0,
            draws@.len() == i,
            forall|j: int| 0 <= j < i ==> #[trigger] draws@[j] < posts@.len(),
        decreases count - i,
    {
        draws.push(random_below(posts.len()));
        i = i + 1;
    }
    let v = pick_at(posts, &draws);
    assert forall|i: int| 0 <= i < v@.len() implies posts@.contains(#[trigger] v@[i]) by {
        assert(v@[i] == posts@[draws@[i] as int]);
    }
    Ok(v)
}

} // verus!

verus! {

/// One post drawn uniformly from a fetched listing; the error of a failed
/// fetch is handed on as it is.
pub fn pick_one(outcome: Result<Listing, MemeError>) -> (r: Result<Post, MemeError>)
    ensures
        outcome matches Err(e) ==> r == Err::<Post, MemeError>(e),
        outcome matches Ok(l) ==> {
            &&& (l.posts@.len() == 0 <==> r is Err)
            &&& (r is Err ==> r == Err::<Post, MemeError>(MemeError::EmptyListing))
            &&& (r matches Ok(p) ==> l.posts@.contains(p))
        },
{
    match outcome {
        Err(e) => Err(e),
        Ok(l) => {
            if l.posts.len() == 0 {
                Err(MemeError::EmptyListing)
            } else {
                let i = random_below(l.posts.len());
                let p = l.posts[i].clone();
                assert(l.posts@[i as int] == p);
                Ok(p)
            }
        },
    }
}

} // verus!
