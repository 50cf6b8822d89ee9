//! Resolve a hostname through several DNS-over-HTTPS resolvers, probe every
//! address that comes back, and merge the results into one comparison table.

pub mod decimal;
pub mod dns;
pub mod fanout;
pub mod ipv4;
pub mod lookup;
pub mod probe;
pub mod record;
