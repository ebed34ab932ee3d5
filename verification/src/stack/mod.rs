//! Installation discovery, port policy, version policy, virtual hosts and
//! the `.test` name resolver.

pub mod discovery;
pub mod ports;
pub mod resolver;
pub mod versions;
pub mod vhosts;
