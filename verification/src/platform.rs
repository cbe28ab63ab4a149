//! Platform facts: processes, paths, the operating system, loopback
//! networking and lock files.

pub mod process;
pub mod paths;
pub mod os;
pub mod network;
pub mod lock;
