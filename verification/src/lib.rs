//! A node of an in-memory key-value cluster: its tables, the commands that
//! nodes send one another, the subset of the Redis protocol it serves, and
//! the laws that tie what one node writes to what another reads.

pub mod text;
pub mod order;
pub mod store;
pub mod clock;
pub mod timing;
pub mod env;
pub mod messages;
pub mod internal;
pub mod resp;
pub mod dispatch;
pub mod peer_answer;
pub mod html;
pub mod laws;

pub use env::{Environment, State};
pub use messages::{expose_known_peers, generate_command_add, generate_command_flush_all, generate_commmand_copy};
pub use internal::identification_answer;
pub use timing::TimingStats;
