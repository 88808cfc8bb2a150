//! The commands on a system that is not Linux: none of them works there.

use vstd::prelude::*;
use vstd::string::*;

use crate::error::Error;
use crate::text::owned;

verus! {

/// Why nothing works.
pub open spec fn linux_only() -> Seq<char> {
    "rsrun is Linux-only — namespaces, cgroups, capabilities, and pivot_root are Linux kernel features. Build and run on Linux."@
}

/// Why nothing works.
fn unsupported() -> (e: Error)
    ensures
        e@ == linux_only(),
{
    Error::new(
        owned(
            "rsrun is Linux-only — namespaces, cgroups, capabilities, and pivot_root are Linux kernel features. Build and run on Linux.",
        ),
    )
}

/// Refuses to make a container.
pub fn cmd_create(_id: &str, _bundle: &str, _pid_file: Option<&str>) -> (r: Result<(), Error>)
    ensures
        r is Err && (r->Err_0)@ == linux_only(),
{
    Err(unsupported())
}

/// Refuses to start a container.
pub fn cmd_start(_id: &str) -> (r: Result<(), Error>)
    ensures
        r is Err && (r->Err_0)@ == linux_only(),
{
    Err(unsupported())
}

/// Refuses to delete a container.
pub fn cmd_delete(_id: &str, _force: bool) -> (r: Result<(), Error>)
    ensures
        r is Err && (r->Err_0)@ == linux_only(),
{
    Err(unsupported())
}

/// Refuses to tell the state of a container.
pub fn cmd_state(_id: &str) -> (r: Result<(), Error>)
    ensures
        r is Err && (r->Err_0)@ == linux_only(),
{
    Err(unsupported())
}

/// Refuses to signal a container.
pub fn cmd_kill(_id: &str, _signal: &str) -> (r: Result<(), Error>)
    ensures
        r is Err && (r->Err_0)@ == linux_only(),
{
    Err(unsupported())
}

/// Refuses to run a process in a container.
pub fn cmd_exec(_id: &str, _process_json: &str, _pid_file: Option<&str>, _detach: bool) -> (r: Result<(), Error>)
    ensures
        r is Err && (r->Err_0)@ == linux_only(),
{
    Err(unsupported())
}

/// Refuses to list containers.
pub fn cmd_list() -> (r: Result<(), Error>)
    ensures
        r is Err && (r->Err_0)@ == linux_only(),
{
    Err(unsupported())
}

} // verus!
