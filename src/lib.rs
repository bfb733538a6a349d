//! The protocol core of a small HTTP/1.1 server: reading a request head from
//! bytes, choosing what to do with it, and the bytes of each reply. The
//! connection, the file system and the tasks stay with the caller.

pub mod text;
pub mod request;
pub mod response;
pub mod route;
pub mod upload;
pub mod laws;
