//! The hydr proxy protocol: wire format, session logic and policy.

pub mod address;
pub mod auth;
pub mod bytes;
pub mod cc;
pub mod client;
pub mod config;
pub mod connection;
pub mod dial;
pub mod error;
pub mod flow;
pub mod fragment;
pub mod frame;
pub mod ip;
pub mod message;
pub mod metrics;
pub mod mux;
pub mod obfuscation;
pub mod outside;
pub mod quic;
pub mod server;
pub mod socks5;
pub mod text;
pub mod tls;
pub mod udp;
pub mod udp_relay;
pub mod varint;
pub mod wire;
pub mod ws;
