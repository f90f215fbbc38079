//! Verified core of a real-time bandwidth-reservation experiment suite.
//!
//! - `cgroup`: where a reservation domain's files live, the order in which
//!   its runtime and period are written so the runtime never exceeds the
//!   period, and how a domain is torn down.
//! - `policy`: scheduling policies and their mapping to the kernel's
//!   attribute record.
//! - `cpuset`: the CPU-list grammar and CPU sets checked against the CPUs
//!   that are online.
//! - `periodic`: the decisions of the cancellable periodic runtime.
//! - `taskset`: taskset, configuration and log formats, admissibility,
//!   generator arguments and deadline-miss statistics.
//! - `report`: batch verdicts.
//!
//! Every filesystem access, system call and clock reading is left to the
//! caller, which performs the steps these functions return.
pub mod cgroup;
pub mod cpuset;
pub mod order;
pub mod periodic;
pub mod policy;
pub mod report;
pub mod taskset;
pub mod text;
