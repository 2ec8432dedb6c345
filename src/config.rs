use vstd::prelude::*;

verus! {

/// The maximum length of a candidate where none is given.
pub const DEFAULT_MAX_LENGTH: usize = 6;

/// The alphabet where none is given: ASCII letters, then digits.
pub const DEFAULT_ALPHABET: &'static str = "abcdefghijklmnopqrstuvwxyzABCDEFGHIJKLMNOPQRSTUVWXYZ0123456789";

/// What a run is given: the token, the maximum length of a candidate, and the
/// symbols to build candidates from.
pub struct Args {
    pub max_length: usize,
    pub token: String,
    pub alphabet: String,
}

} // verus!
