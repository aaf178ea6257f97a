//! The network side: addresses, the service map, DNS, the tunnel device and the resolver.
pub mod command;
pub mod dns;
pub mod ipv4;
pub mod resolver;
pub mod service_map;
pub mod tun;
