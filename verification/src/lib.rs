//! A minimal HTTP/1.1 client core: URL decomposition, request encoding and
//! response decoding over plain text, with every rule stated as a contract.

pub mod client;
pub mod error;
pub mod number;
pub mod request;
pub mod response;
pub mod text;
pub mod url;
