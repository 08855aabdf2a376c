use vstd::prelude::*;

verus! {

/// A socket address as the relay sees it: the host text and a port.
#[derive(Debug, Clone, PartialEq, Eq, Hash)]
pub struct NetAddr {
    pub host: String,
    pub port: u16,
}

impl View for NetAddr {
    type V = (Seq<char>, u16);

    open spec fn view(&self) -> (Seq<char>, u16) {
        (self.host@, self.port)
    }
}

impl NetAddr {
    pub fn new(host: String, port: u16) -> (r: NetAddr)
        ensures
            r@ == (host@, port),
    {
        NetAddr { host, port }
    }

    /// The wildcard address `0.0.0.0` on the given port, where a leg's socket is bound.
    pub fn any_ipv4(port: u16) -> (r: NetAddr)
        ensures
            r@ == (any_host(), port),
    {
        NetAddr { host: String::from_str("0.0.0.0"), port }
    }

    pub fn same(&self, other: &NetAddr) -> (r: bool)
        ensures
            r == (self@ == other@),
    {
        self.port == other.port && self.host == other.host
    }

    pub fn duplicate(&self) -> (r: NetAddr)
        ensures
            r == *self,
            r@ == self@,
    {
        NetAddr { host: self.host.clone(), port: self.port }
    }
}

/// The host text of the IPv4 wildcard address.
pub open spec fn any_host() -> Seq<char> {
    "0.0.0.0"@
}

} // verus!
