//! Host identity.
use vstd::prelude::*;
use crate::text::{trim, trimmed, opt_chars};

verus! {

/// The host name from the text of `/etc/hostname`, trimmed; `unknown`
/// when it could not be read.
pub open spec fn hostname_of(raw: Option<Seq<char>>) -> Seq<char> {
    match raw {
        Some(t) => trim(t),
        None => trim("unknown"@),
    }
}

/// The host name from the text of `/etc/hostname` (see `hostname_of`).
pub fn hostname(raw: Option<&str>) -> (r: String)
    ensures
        r@ == hostname_of(opt_chars(raw)),
{
    match raw {
        Some(t) => trimmed(t),
        None => trimmed("unknown"),
    }
}

/// The kernel release from the output of `uname -r`, trimmed; `?` when it
/// could not be run.
pub open spec fn release_of(out: Option<Seq<char>>) -> Seq<char> {
    match out {
        Some(t) => trim(t),
        None => "?"@,
    }
}

/// The kernel release from the output of `uname -r` (see `release_of`).
pub fn uname_r(out: Option<&str>) -> (r: String)
    ensures
        r@ == release_of(opt_chars(out)),
{
    match out {
        Some(t) => trimmed(t),
        None => crate::text::owned("?"),
    }
}

} // verus!
