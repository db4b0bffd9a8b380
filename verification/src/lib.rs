//! A client-side codec for the RouterOS management API: length-prefixed
//! words, sentences, replies, the login handshake and reply records.
//!
//! The library never touches a socket. A [`client::Client`] keeps the bytes
//! that arrived and the bytes that are to be sent; the program around it
//! moves them to and from the connection.

pub mod errors;
pub mod utils;
pub mod models;
pub mod codec;
pub mod words;
pub mod sentence;
pub mod mapper;
pub mod auth;
pub mod client;

pub use client::Client;
pub use errors::{MikrotikError, UnhexlifyError};
