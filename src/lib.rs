//! A userspace tunnel that multiplexes many logical TCP connections over one
//! carrier connection between a client peer and a server peer.
//!
//! The library holds the verified core: the wire codec, the parser of port
//! mappings, and the decision logic of the carrier sessions and of the
//! per-connection workers. The asynchronous plumbing that performs the
//! decisions lives outside the library.

pub mod address;
mod buffer;
pub mod client;
pub mod endian;
pub mod proto;
pub mod server;
pub mod port_mapping;
pub mod session;

pub use buffer::buffer_bytes;
pub use client::TcpWarpClient;
pub use port_mapping::TcpWarpPortConnection;
pub use proto::{TcpWarpMessage, TcpWarpProto, TcpWarpProtoClient, TcpWarpProtoHost};
pub use server::TcpWarpServer;
pub use session::TcpWarpConnection;
