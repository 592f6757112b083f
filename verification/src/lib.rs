//! Client side of the PostgreSQL wire protocol, and the shape of HTTP queries.
#![allow(non_camel_case_types)]

pub mod address;
pub mod backend;
pub mod base64_text;
pub mod buffer;
pub mod frontend;
pub mod handshake;
pub mod http;
pub mod params;
pub mod postgres;
pub mod query;
pub mod reply;
pub mod sasl;
pub mod text;
pub mod wire;
