//! Internet addresses as plain values, with their textual forms.

pub mod v4;
pub mod v6;

use crate::error::{ErrorView, StackAddrError};
pub use crate::ip::v4::Ipv4Addr;
pub use crate::ip::v6::Ipv6Addr;
use vstd::prelude::*;

verus! {

/// An address of either family.
#[derive(Clone, Copy, Debug, PartialEq, Eq, Structural, PartialOrd, Ord, Hash)]
pub enum IpAddr {
    V4(Ipv4Addr),
    V6(Ipv6Addr),
}

impl IpAddr {
    /// The text of the address, in the form of its family.
    pub open spec fn text(self) -> Seq<char> {
        match self {
            IpAddr::V4(a) => a.text(),
            IpAddr::V6(a) => a.text(),
        }
    }

    /// The address of either family that `t` writes.
    pub open spec fn from_text(t: Seq<char>) -> Option<IpAddr> {
        match Ipv4Addr::from_text(t) {
            Some(a) => Some(IpAddr::V4(a)),
            None => match Ipv6Addr::from_text(t) {
                Some(a) => Some(IpAddr::V6(a)),
                None => None,
            },
        }
    }

    /// Parses an address of either family; a dotted quad is an IPv4
    /// address.
    pub fn parse(s: &str) -> (r: Option<IpAddr>)
        ensures
            r == IpAddr::from_text(s@),
    {
        match Ipv4Addr::parse(s) {
            Some(a) => Some(IpAddr::V4(a)),
            None => match Ipv6Addr::parse(s) {
                Some(a) => Some(IpAddr::V6(a)),
                None => None,
            },
        }
    }

    /// The text of the address.
    pub fn to_string(&self) -> (r: String)
        ensures
            r@ == self.text(),
    {
        match self {
            IpAddr::V4(a) => a.to_string(),
            IpAddr::V6(a) => a.to_string(),
        }
    }
}

impl std::str::FromStr for IpAddr {
    type Err = StackAddrError;

    /// Parses an address of either family; a text that writes none gives
    /// the address error.
    fn from_str(s: &str) -> (r: Result<Self, Self::Err>)
        ensures
            match IpAddr::from_text(s@) {
                Some(a) => r matches Ok(x) && x == a,
                None => r matches Err(e) && e@ == ErrorView::InvalidAddress,
            },
    {
        match IpAddr::parse(s) {
            Some(a) => Ok(a),
            None => Err(StackAddrError::InvalidAddress),
        }
    }
}

} // verus!
