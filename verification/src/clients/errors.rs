//! Errors of the clients.

use vstd::prelude::*;

verus! {

/// What a client call can fail with before any request is made.
#[derive(Debug)]
pub enum Error {
    /// No generation backend is configured to serve the model.
    ModelNotFound { model_id: String },
}

} // verus!
