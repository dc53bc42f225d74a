//! Self-describing, layered addresses.
//!
//! An address is an ordered stack of segments: protocols of the link,
//! network, transport and application layers, identities, path components
//! and metadata. It has one canonical text, `/keyword/value/...`, such as
//! `/ip4/127.0.0.1/tcp/443/tls/http`, which parses back to the same address.

pub mod addr;
pub mod codec;
pub mod error;
pub mod grammar;
pub mod ip;
pub mod laws;
pub mod mac;
pub mod model;
pub mod numeral;
pub mod roundtrip;
pub mod segment;
pub mod text;
pub mod uid;

pub use addr::StackAddr;
pub use error::StackAddrError;
pub use ip::{IpAddr, Ipv4Addr, Ipv6Addr};
pub use mac::MacAddr;
pub use segment::identity::Identity;
pub use segment::protocol::{Protocol, TransportProtocol};
pub use segment::Segment;
pub use uid::Uuid;
