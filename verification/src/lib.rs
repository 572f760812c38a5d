//! DNS client: owned names, answers to queries, and host name lookups.
//!
//! Names are kept in canonical, uncompressed wire format. The network stack makes the
//! queries; this crate says which ones to make, and what their answers come to.

pub mod address;
pub mod answer;
pub mod error;
pub mod iter;
pub mod labels;
pub mod name;
pub mod socket;
pub mod text;
pub mod wire;

pub use address::IpAddress;
pub use answer::{DnsQueryType, DnsSrvRecord, QueryResult, SocketAnswer, SrvQueryResult};
pub use error::{Error, StartQueryError};
pub use iter::{QueryResultIter, Release};
pub use name::Name;
pub use socket::{AddrType, DnsSocket, Ipv6Cidr, Lookup, PendingLookup, Query, Stack};
pub use wire::DnsName;
