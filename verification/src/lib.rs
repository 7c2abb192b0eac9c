//! Verified core of a small unikernel user library: the file-descriptor
//! table and `select` bit sets of the C bindings, the directory iterator of
//! the file system API, and the decision logic of UDP sockets.

pub mod fd_table;
pub mod select;
pub mod dir;
pub mod udp;
pub mod http;
