//! Synchronization and task-dispatch engine of a fleet inventory agent and
//! its registry server.
pub mod task;
pub mod text;
pub mod identity;
pub mod server_task;
pub mod agent_task;
pub mod software;
pub mod registry;
pub mod reconcile;
pub mod profile;
pub mod license;
pub mod hardware;
pub mod system_status;
pub mod ms_magic;
pub mod endpoint;
pub mod scheduler;
pub mod inventory;
pub mod facts;

pub use task::{TaskStatus, status_rank, status_is_terminal, status_may_follow, TaskParameter, TaskPayload, Task, TaskFailure, TaskUpdate};
