//! Which origins a browser may call the todo service from.

use crate::text::{begins_with, starts_with};
use vstd::prelude::*;
use vstd::utf8::encode_utf8;

verus! {

/// The hosts that are allowed as origins, each as a sequence of characters.
pub open spec fn allowed_origins() -> Seq<Seq<char>> {
    seq!["localhost"@, "todo.ymgyt.io"@]
}

/// Whether a host is allowed as an origin: its name begins with one of the
/// allowed hosts.
pub open spec fn host_allowed(host: Seq<char>) -> bool {
    exists|i: int|
        0 <= i < allowed_origins().len() && begins_with(
            encode_utf8(host),
            #[trigger] encode_utf8(allowed_origins()[i]),
        )
}

/// The hosts that are allowed as origins.
pub fn cors_allowed_origins() -> (origins: [&'static str; 2])
    ensures
        origins@.len() == 2,
        origins@[0]@ == allowed_origins()[0],
        origins@[1]@ == allowed_origins()[1],
{
    ["localhost", "todo.ymgyt.io"]
}

/// Whether a request from the origin `host` is answered with the headers that
/// let a browser read the response.
pub fn origin_allowed(host: &str) -> (allowed: bool)
    ensures
        allowed == host_allowed(host@),
{
    let origins = cors_allowed_origins();
    let first = starts_with(host, origins[0]);
    let second = starts_with(host, origins[1]);
    first || second
}

} // verus!
