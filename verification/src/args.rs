//! What the client is started with.

use vstd::prelude::*;

verus! {

/// The settings of one run of the client.
#[derive(Clone, Debug)]
pub struct Arguments {
    /// Where the session is kept between runs.
    pub session_path: String,
    /// The application's id with the remote service.
    pub api_id: i32,
    /// The application's hash with the remote service.
    pub api_hash: String,
}

} // verus!
