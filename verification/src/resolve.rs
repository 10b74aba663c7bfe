//! Name resolution as the validator sees it: the target it asks for and the
//! answer it gets.

use vstd::prelude::*;

verus! {

/// The text handed to the resolver for `host`: the host, a colon, and port
/// zero, which names no service.
pub open spec fn lookup_target_of(host: Seq<char>) -> Seq<char> {
    host + seq![':', '0']
}

/// What the resolver answered for a lookup target.
#[derive(Clone, Copy, Debug, PartialEq, Eq)]
pub enum Resolution {
    /// The lookup failed, for whatever reason: the target was malformed, the
    /// name is unknown, the network could not be reached, or time ran out.
    Failed,
    /// The lookup succeeded with this many addresses, possibly none.
    Addresses(usize),
}

impl Resolution {
    /// The answer holds at least one address.
    pub open spec fn names_host(&self) -> bool {
        match self {
            Resolution::Failed => false,
            Resolution::Addresses(n) => *n > 0,
        }
    }
}

} // verus!
