//! Validation of host addresses: whether a text is an IP address literal, and
//! whether a text names a host that a resolver found.

pub mod host;
pub mod ipv4;
pub mod ipv6;
pub mod laws;
pub mod resolve;
pub mod text;

use crate::host::{accepts_host, may_name_host};
use crate::ipv4::{accepts_ipv4, is_ipv4_literal};
use crate::ipv6::{accepts_ipv6, is_ipv6_literal};
use crate::laws::{lemma_literal_alphabet, lemma_literal_length};
use crate::resolve::{lookup_target_of, Resolution};
use vstd::prelude::*;
use vstd::string::*;

verus! {

/// The length of the longest address literal: six groups of four digits, an
/// IPv4 literal of four times three, and the separators between them.
pub const MAX_LITERAL_LENGTH: usize = 45;

/// `s` is an IP address literal, of either version.
pub open spec fn is_ip_literal(s: Seq<char>) -> bool {
    is_ipv4_literal(s) || is_ipv6_literal(s)
}

/// The address validator. It holds no state; its operations are associated
/// functions.
pub struct ValAddr;

impl ValAddr {
    /// The text to hand to the resolver in order to look `value` up.
    pub fn lookup_target(value: &str) -> (target: String)
        ensures
            target@ == lookup_target_of(value@),
    {
        proof {
            reveal_strlit(":0");
        }
        String::from_str(value).concat(":0")
    }

    /// Whether `value` may name a host at all: a text that may not is no
    /// domain whatever a resolver says, and need not be looked up.
    pub fn may_name_host(value: &str) -> (res: bool)
        ensures
            res == may_name_host(value@),
    {
        accepts_host(value)
    }

    /// Whether `value` is the name of a host, given what the resolver
    /// answered when the lookup target of `value` was handed to it. It is if
    /// `value` may name a host and the lookup gave at least one address. A
    /// failed lookup and an empty answer both say that it is not; of a text
    /// that may name no host, so does every answer.
    pub fn is_domain(value: &str, resolution: &Resolution) -> (res: bool)
        ensures
            res == (may_name_host(value@) && resolution.names_host()),
    {
        match resolution {
            Resolution::Failed => false,
            Resolution::Addresses(n) => *n > 0 && accepts_host(value),
        }
    }

    /// Whether `value`, all of it, is an IP address literal: an IPv4 address
    /// in dotted-decimal notation or an IPv6 address in colon-hexadecimal
    /// notation.
    pub fn is_ip(value: &str) -> (res: bool)
        ensures
            res == is_ip_literal(value@),
    {
        if value.as_bytes().len() > MAX_LITERAL_LENGTH || !value.is_ascii() {
            proof {
                broadcast use is_ascii_spec_bytes;

                if is_ip_literal(value@) {
                    lemma_literal_alphabet(value@);
                    lemma_literal_length(value@);
                    assert(is_ascii(value));
                }
            }
            return false;
        }
        accepts_ipv4(value) || accepts_ipv6(value)
    }
}

} // verus!
