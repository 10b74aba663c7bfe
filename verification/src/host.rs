//! The texts that may name a host at all, before any resolver is asked.

use crate::text::char_at;
use vstd::prelude::*;
use vstd::string::*;

verus! {

/// The length of the longest text that may name a host.
pub const MAX_HOST_LENGTH: usize = 255;

/// `c` may stand in a host name or in an address handed to a resolver: a
/// letter or a digit of ASCII, a hyphen, an underscore or a dot, as in names;
/// a colon, a square bracket or a percent sign, as in addresses and their
/// zones. A comma, a blank, a control character, a slash, a question mark, a
/// hash and an at sign may not, nor may anything beyond ASCII.
pub open spec fn is_host_char(c: char) -> bool {
    ||| 'a' <= c <= 'z'
    ||| 'A' <= c <= 'Z'
    ||| '0' <= c <= '9'
    ||| c == '-' || c == '_' || c == '.'
    ||| c == ':' || c == '[' || c == ']' || c == '%'
}

/// `c` is one of the marks that part a host from what stands around it in a
/// list, a line or a locator: a comma, a blank, a tab, a line feed, a NUL, a
/// slash, a question mark, a hash or an at sign.
pub open spec fn is_delimiter(c: char) -> bool {
    ||| c == ',' || c == ' ' || c == '\t' || c == '\n' || c == '\0'
    ||| c == '/' || c == '?' || c == '#' || c == '@'
}

/// `s` may name a host: it is not empty, not longer than a host's name or
/// address can be, and made of nothing but what may stand in one.
pub open spec fn may_name_host(s: Seq<char>) -> bool {
    &&& 0 < s.len() <= MAX_HOST_LENGTH
    &&& forall|i: int| 0 <= i < s.len() ==> is_host_char(#[trigger] s[i])
}

/// Whether a text may name a host.
pub(crate) fn accepts_host(text: &str) -> (res: bool)
    ensures
        res == may_name_host(text@),
{
    broadcast use is_ascii_spec_bytes;

    let n: usize = text.as_bytes().len();
    if n == 0 || n > MAX_HOST_LENGTH || !text.is_ascii() {
        assert(may_name_host(text@) ==> is_ascii(text));
        return false;
    }
    let mut at: usize = 0;
    while at < n
        invariant
            text.is_ascii(),
            0 < n == text@.len() <= MAX_HOST_LENGTH,
            at <= n,
            forall|i: int| 0 <= i < at ==> is_host_char(#[trigger] text@[i]),
        decreases n - at,
    {
        let c: char = char_at(text, at);
        let name: bool = ('a' <= c && c <= 'z') || ('A' <= c && c <= 'Z') || ('0' <= c && c <= '9')
            || c == '-' || c == '_' || c == '.';
        let address: bool = c == ':' || c == '[' || c == ']' || c == '%';
        if !name && !address {
            return false;
        }
        at += 1;
    }
    true
}

} // verus!
