//! Admission, queueing and pool bookkeeping for a challenge gateway: teams
//! connect, present a token, wait for a free slot and are handed a virtual
//! machine whose port is forwarded to them.

pub mod forward;
pub mod pool;
pub mod queue;
pub mod registry;
pub mod session;
pub mod text;
pub mod token;
pub mod vm;
