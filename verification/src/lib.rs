//! Local development-stack toolkit: service tables, port succession, version
//! policy, virtual-host generation and a small `.test` DNS responder.

pub mod cert;
pub mod dns;
pub mod host;
pub mod services;
pub mod stack;
pub mod text;
