//! HTTP building blocks: WebSocket frames and messages, static files, middleware, multipart
//! bodies and the decisions of a client.
pub mod client;
pub mod encoding;
pub mod error;
pub mod exchange;
pub mod headers;
pub mod http_date;
pub mod laws;
pub mod http_types;
pub mod middleware;
pub mod multipart;
pub mod octets;
pub mod static_files;
pub mod text;
pub mod tls;
pub mod transport;
pub mod uri;
pub mod ws;
pub mod ws_frame;
