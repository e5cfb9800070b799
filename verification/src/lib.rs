//! Daily step counts.
//!
//! A user submits a step count at most once per UTC day; the accepted
//! submissions are kept as records under `(user_id, step_id)`, and the total
//! over all records can be asked for at any time.
//!
//! - [`record`]: the record and its key.
//! - [`clock`]: the current time and the start of its UTC day.
//! - [`store`]: the record collection as a map, and a store in memory.
//! - [`codec`]: records as the attribute values that a table keeps.
//! - [`submit`]: the daily check and the write, step by step and as one call
//!   on the store in memory.
//! - [`total`]: the sum over a scan, page by page and as one call.
//! - [`error`]: the failures and the side that answers for each.
//! - [`response`]: the response that carries a result to the caller.
//! - [`signup`]: the rule for addresses that may sign up.

pub mod clock;
pub mod codec;
pub mod error;
pub mod record;
pub mod response;
pub mod signup;
pub mod store;
pub mod submit;
pub mod total;
