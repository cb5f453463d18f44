//! A small Redis-compatible key/value server core: RESP response encoding,
//! the connection read buffer, the key/value store behind `GET`/`SET`, and a
//! toy timer/select/executor model.

pub mod buffers;
pub mod frame;
pub mod resp;
pub mod connection;
pub mod command;
pub mod db;
pub mod timer;
pub mod executor;
pub mod tasks;
