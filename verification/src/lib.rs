//! Iris: the verified core of a distributed actor runtime.
pub mod pid;
pub mod registry;
pub mod supervisor;
pub mod network;
pub mod mailbox;
pub mod scheduler;
pub mod buffer;
pub mod routing;
pub mod timers;
