//! IPv6 network prefixes and the question whether two of them share an address.

pub mod addr;
pub mod bits;
pub mod error;
pub mod grammar;
pub mod laws;
mod parse;
pub mod prefix;

pub use addr::IPv6Addr;
pub use error::ParseError;
pub use prefix::IPv6Prefix;
