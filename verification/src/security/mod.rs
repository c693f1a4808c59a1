//! What the server refuses: paths that are blocked, and requests that come too
//! fast.

pub mod path_guard;
pub mod rate_limiter;
