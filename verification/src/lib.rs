//! Auto-switch high-availability replication service for a message broker's
//! storage layer: a role state machine (master/slave) guarded by a
//! monotonically increasing epoch, per-replica acknowledgment tracking,
//! quorum arithmetic, and group-commit requests that are released when
//! replication progress reaches their target offset.

pub mod epoch;
pub mod ha_service;
pub mod group_commit;
pub mod remoting_command;
pub mod replica_connection;
pub mod send_message_header;
