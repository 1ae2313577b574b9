//! PTP/IP (Picture Transfer Protocol over IP) protocol core: packet framing,
//! command encoding, response and dataset parsing, and device discovery
//! messages, with the decisions of the session and download logic.
pub mod error;
pub mod utils;
pub mod stream;
pub mod text;
pub mod types;
pub mod transport;
pub mod commands;
pub mod discovery;
pub mod session;
