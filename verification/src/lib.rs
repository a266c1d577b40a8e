//! Verified core of the Snifake SNI-spoofing forwarder: packet parsing and
//! building, the kernel filter, the connection state the sniffer keeps, the
//! engine's input validation and the GUI's bookkeeping.
pub mod checksum;
pub mod netpkt;
pub mod proto;
pub mod sniffer;
pub mod filter;
pub mod bpf;
pub mod text;
pub mod hello;
pub mod validate;
pub mod logbuf;
pub mod profiles;
pub mod capture;
pub mod forward;
pub mod transport;
pub mod tray;
pub mod engine_host;
pub mod elevate;
pub mod windivert;
pub mod auth;
pub mod autostart;
pub mod engine;
