//! The decision core of `rsrun`, a small OCI container runtime.

use vstd::prelude::*;

pub mod agent;
pub mod args;
pub mod bpf;
pub mod bytes;
pub mod cgroup;
pub mod child;
pub mod child_calls;
pub mod clone;
pub mod create;
pub mod deadline;
pub mod devices;
pub mod diff;
pub mod error;
pub mod exec;
pub mod ext;
pub mod hook_run;
pub mod hooks;
pub mod json;
pub mod lifecycle;
pub mod markers;
pub mod options;
pub mod order;
pub mod overlay;
pub mod path;
pub mod plan;
pub mod reexec;
pub mod report;
pub mod rollout;
pub mod seccomp;
pub mod signal;
pub mod snapshot;
pub mod spec;
pub mod state;
pub mod stats;
pub mod steps;
pub mod syscall_table_aarch64;
pub mod syscall_table_x86_64;
pub mod tar;
pub mod text;
pub mod tree;
pub mod unsupported;
pub mod validate;

verus! {

} // verus!
