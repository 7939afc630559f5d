//! What the library knows about HTTP: how requests are authenticated.

pub mod auth;
