//! Lease lifecycle core of a distributed-runtime client: the keep-alive state
//! machine that holds a server-granted lease, the decisions of the supervisor
//! around it, and a revision-stamped key-value bucket layered on the same
//! connection.

pub mod key;
pub mod lease;
pub mod manager;
pub mod memory;
pub mod remote;
pub mod store;
pub mod text;
