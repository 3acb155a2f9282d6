//! A SOCKS5 gateway core: the address model, the routing engine that picks a
//! direct or proxied path per destination, and the decision logic of the
//! SOCKS5 handshakes and the byte relay.

pub mod address;
pub mod filters;
pub mod protocol;
pub mod relay;
pub mod route;
