//! Building DNS query messages in wire format: domain name encoding, the
//! fixed 12-byte header, the question section and the assembled query.

pub mod error;
pub mod message;
pub mod name;
pub mod query;

pub use error::{DNSError, EncodeDNSNameError};
pub use message::{DNSHeader, DNSQuestion};
pub use name::encode_dns_name;
pub use query::build_query;
pub use message::{CLASS_IN, TYPE_A, TYPE_NS};
