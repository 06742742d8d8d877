//! A service core that serves random posts from cached subreddit listings:
//! a bounded, time-limited listing cache that shares one upstream fetch among
//! concurrent callers, a sampler over listings, and the classification of
//! upstream replies.
pub mod post;
pub mod error;
pub mod cache;
pub mod sampler;
pub mod upstream;
pub mod request;
