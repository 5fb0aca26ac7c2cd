//! The Model Context Protocol: both sides of it, and the ways between them.

pub mod bridge;
pub mod client;
pub mod grpc_transport;
pub mod laws;
pub mod protocol;
pub mod server;
pub mod sse;
pub mod transport;
pub mod websocket;
pub mod ws_server;

pub use bridge::McpToolBridge;
pub use client::McpClient;
pub use grpc_transport::McpGrpcServer;
pub use server::McpServer;
pub use sse::SseTransport;
pub use transport::{HttpTransport, McpTransport};
pub use websocket::WebSocketTransport;
pub use ws_server::McpWsServer;
