//! The relays a client reaches its peers through.
use vstd::prelude::*;

verus! {

/// A relay, known by the URL of its WebSocket endpoint.
#[derive(Clone, Debug)]
pub struct RelayInfo {
    pub url: String,
}

impl RelayInfo {
    /// A relay at `url`.
    pub fn new(url: String) -> (r: Self)
        ensures
            r.url == url,
    {
        RelayInfo { url }
    }

    /// A copy of the relay.
    pub fn duplicate(&self) -> (r: Self)
        ensures
            r == *self,
    {
        RelayInfo { url: self.url.clone() }
    }
}

impl From<String> for RelayInfo {
    /// The relay at this URL.
    fn from(value: String) -> (r: Self) {
        RelayInfo { url: value }
    }
}

impl vstd::std_specs::convert::FromSpecImpl<String> for RelayInfo {
    open spec fn obeys_from_spec() -> bool {
        true
    }

    open spec fn from_spec(v: String) -> Self {
        RelayInfo { url: v }
    }
}

impl<'a> From<&'a str> for RelayInfo {
    /// The relay at this URL.
    fn from(value: &'a str) -> (r: Self)
        ensures
            r.url@ == value@,
    {
        RelayInfo { url: value.to_string() }
    }
}

impl<'a> vstd::std_specs::convert::FromSpecImpl<&'a str> for RelayInfo {
    open spec fn obeys_from_spec() -> bool {
        false
    }

    open spec fn from_spec(v: &'a str) -> Self {
        RelayInfo { url: choose|s: String| s@ == v@ }
    }
}

} // verus!
