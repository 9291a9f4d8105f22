//! Secret storage split across two peers as XOR shares, with a masked
//! wire format, a Diffie-Hellman mask agreement and proactive refresh.

pub mod util;
pub mod xor;
pub mod api;
pub mod dhke;
pub mod storage;
pub mod server;
pub mod client;
pub mod testkit;
