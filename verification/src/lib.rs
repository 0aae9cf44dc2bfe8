//! VPNGate link manager: the catalog of VPNGate relays, the OpenVPN session towards one of
//! them, and the local HTTP/SOCKS5 relay that sends traffic through it.
pub mod catalog;
pub mod config;
pub mod control;
pub mod model;
pub mod openvpn;
pub mod proxy;
pub mod text;
