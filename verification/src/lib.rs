//! Finds the network address of the client behind a request that reverse
//! proxies, load balancers or CDNs may have forwarded, and coarsens IPv6
//! addresses to their routing prefix.

pub mod address;
pub mod parser;
pub mod request;
pub mod resolver;
pub mod service;
