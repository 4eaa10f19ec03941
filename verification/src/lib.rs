//! The core of a web front end for browsing and editing the entries of a
//! Redis store, for many users who each bring the credentials of their own
//! store.
//!
//! - `session`: the cache that keeps one store client for each session.
//! - `redis_ops`: how a client is made, and how an entry of any type is read
//!   and written through one textual form, as commands to send and replies
//!   to take in.
//! - `round_trip`: what reading gives back of what was written.
//! - `handlers`: the requests, the listing of keys page by page, and the
//!   responses.
//! - `text`: splitting, trimming and joining of text.
//! - `errors`: what can go wrong.
//!
//! The library opens no connection and reads no clock. Its caller sends the
//! commands, hands back the replies, and says what time it is.

pub mod errors;
pub mod handlers;
pub mod redis_ops;
pub mod round_trip;
pub mod session;
pub mod text;
