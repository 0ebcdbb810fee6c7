//! Verified core of an HLS (HTTP Live Streaming) client: manifest parsing,
//! rendition selection, and ordered retrieval of initialization and media
//! segments over an injected transport capability.

pub mod errors;
pub mod text;
pub mod playlist;
pub mod parser;
pub mod http;
pub mod selector;
pub mod pipeline;
pub mod session;
pub mod laws;
