//! What the container's first process does between its creation and the program it becomes, laid
//! out before it exists.

use vstd::prelude::*;
use vstd::string::*;
use vstd::utf8::*;

use crate::plan;
use crate::plan::CompiledPlan;
use crate::signal;
use crate::spec::NamespaceKind;
use crate::steps;

verus! {

/// One thing the process does. A number is a place in the list of the plan that it is about.
#[derive(Debug, Clone, Copy, PartialEq, Eq, Structural)]
pub enum ChildOp {
    /// Wait until the id maps are in place.
    AwaitIdMaps,
    /// Become group zero of the user namespace.
    RootGid,
    /// Become user zero of the user namespace.
    RootUid,
    /// Open the namespace to join.
    OpenNamespace(usize),
    /// Hold its type against the declared one.
    CheckNamespace(usize),
    /// Join it.
    EnterNamespace(usize),
    /// Fork, so that the child is in the joined pid namespace.
    ForkIntoPidNamespace,
    /// Keep mounts from spreading to the host.
    MakePrivate,
    /// Bind the root filesystem onto itself.
    BindRoot,
    /// Make the directory to mount on.
    MakeMountPoint(usize),
    /// Mount.
    Mount(usize),
    /// Bind with mapped ids.
    IdmapMount(usize),
    /// Make the directory for the old root.
    MakeOldRoot,
    /// Swap the roots.
    PivotRoot,
    /// Change the root.
    Chroot,
    /// Go to the new root.
    ChdirRoot,
    /// Detach the old root.
    DetachOldRoot,
    /// Remove the directory of the old root.
    RemoveOldRoot,
    /// Set how mounts spread.
    SetPropagation,
    /// Set the host name.
    SetHostname,
    /// Run a createContainer hook.
    CreateHook(usize),
    /// Let modes through unmasked.
    ClearUmask,
    /// Make a device node.
    MakeDevice(usize),
    /// Give the node its mode.
    ChmodDevice(usize),
    /// Make a file in place of the node.
    TouchDevice(usize),
    /// Bind the host's node there.
    BindDevice(usize),
    /// Mask modes as before.
    RestoreUmask,
    /// Remove what is in the way of a link.
    UnlinkDev(usize),
    /// Make the link.
    LinkDev(usize),
    /// Bind the null device over a path.
    MaskFile(usize),
    /// Mount an empty filesystem over a path.
    MaskDir(usize),
    /// Bind a path onto itself.
    BindReadonly(usize),
    /// Make the bind read-only.
    RemountReadonly(usize),
    /// Make the root read-only.
    RootReadonly,
    /// Write a kernel setting.
    WriteSysctl(usize),
    /// Go to the working directory.
    Chdir,
    /// Wait for `start`.
    AwaitStart,
    /// Set a resource limit.
    SetRlimit(usize),
    /// Set the further groups.
    SetGroups,
    /// Set the umask.
    SetUmask,
    /// Drop capabilities from the bounding set.
    DropBounding,
    /// Set the capability sets.
    SetCaps,
    /// Raise the ambient capabilities.
    RaiseAmbient,
    /// Become the group.
    SetGid,
    /// Keep capabilities across the change of user.
    KeepCaps,
    /// Become the user.
    SetUid,
    /// See which capabilities are left.
    ReadCaps,
    /// Make them effective again.
    RestoreCaps,
    /// Raise the ambient capabilities again.
    RaiseAmbientAgain,
    /// Rule out new privileges.
    NoNewPrivs,
    /// Install the system call filter.
    InstallSeccomp,
    /// Start a session.
    NewSession,
    /// Make the terminal its own.
    ClaimTerminal,
    /// Make the terminal a standard stream.
    DupTerminal(usize),
    /// Run a startContainer hook.
    StartHook(usize),
    /// See that the profile name fits.
    CheckAppArmorName,
    /// Open the profile attribute.
    OpenAppArmor,
    /// Ask for the profile.
    WriteAppArmor,
    /// Open the label attribute.
    OpenSelinux,
    /// Ask for the label.
    WriteSelinux,
    /// There is nothing to execute.
    RequireCommand,
    /// Execute the program.
    Exec,
}

/// A step: what to do, and how many of the following steps to leave out after a success or after
/// a failure that is not fatal.
#[derive(Debug, Clone, Copy, PartialEq, Eq, Structural)]
pub struct ChildStep {
    pub op: ChildOp,
    pub skip_ok: usize,
    pub skip_fail: usize,
}

/// The exit code with which a failure ends the process; a failure without one is passed over.
pub open spec fn fatal_code(op: ChildOp) -> Option<i32> {
    match op {
        ChildOp::AwaitIdMaps => Some(110i32),
        ChildOp::RootGid => Some(111i32),
        ChildOp::RootUid => Some(111i32),
        ChildOp::OpenNamespace(_) => Some(112i32),
        ChildOp::CheckNamespace(_) => Some(112i32),
        ChildOp::EnterNamespace(_) => Some(112i32),
        ChildOp::ForkIntoPidNamespace => Some(119i32),
        ChildOp::MakePrivate => Some(101i32),
        ChildOp::BindRoot => Some(102i32),
        ChildOp::IdmapMount(_) => Some(130i32),
        ChildOp::PivotRoot => Some(103i32),
        ChildOp::Chroot => Some(103i32),
        ChildOp::ChdirRoot => Some(104i32),
        ChildOp::DetachOldRoot => Some(105i32),
        ChildOp::AwaitStart => Some(107i32),
        ChildOp::SetCaps => Some(109i32),
        ChildOp::SetGid => Some(109i32),
        ChildOp::KeepCaps => Some(109i32),
        ChildOp::SetUid => Some(109i32),
        ChildOp::ReadCaps => Some(109i32),
        ChildOp::RestoreCaps => Some(109i32),
        ChildOp::InstallSeccomp => Some(109i32),
        ChildOp::NewSession => Some(116i32),
        ChildOp::ClaimTerminal => Some(117i32),
        ChildOp::DupTerminal(_) => Some(118i32),
        ChildOp::CheckAppArmorName => Some(120i32),
        ChildOp::OpenAppArmor => Some(120i32),
        ChildOp::WriteAppArmor => Some(120i32),
        ChildOp::OpenSelinux => Some(121i32),
        ChildOp::WriteSelinux => Some(121i32),
        ChildOp::RequireCommand => Some(108i32),
        ChildOp::Exec => Some(127i32),
        _ => None,
    }
}

/// What the process leaves behind as the reason of a fatal failure.
pub open spec fn fatal_reason(op: ChildOp) -> Seq<char> {
    match op {
        ChildOp::AwaitIdMaps => "read userns sync pipe failed"@,
        ChildOp::RootGid => "setresgid 0 failed"@,
        ChildOp::RootUid => "setresuid 0 failed"@,
        ChildOp::OpenNamespace(_) => "open namespace path failed"@,
        ChildOp::CheckNamespace(_) => "namespace path type mismatch"@,
        ChildOp::EnterNamespace(_) => "setns failed"@,
        ChildOp::ForkIntoPidNamespace => "fork after setns(NEWPID) failed"@,
        ChildOp::MakePrivate => "mount / private failed"@,
        ChildOp::BindRoot => "bind rootfs failed"@,
        ChildOp::IdmapMount(_) => "idmapped bind mount failed"@,
        ChildOp::PivotRoot => "pivot_root failed"@,
        ChildOp::Chroot => "chroot failed"@,
        ChildOp::ChdirRoot => "chdir / failed"@,
        ChildOp::DetachOldRoot => "umount old_root failed"@,
        ChildOp::AwaitStart => "read fifo failed"@,
        ChildOp::SetCaps => "capset failed"@,
        ChildOp::SetGid => "setresgid failed"@,
        ChildOp::KeepCaps => "prctl SET_KEEPCAPS failed"@,
        ChildOp::SetUid => "setresuid failed"@,
        ChildOp::ReadCaps => "capget after setresuid failed"@,
        ChildOp::RestoreCaps => "reapply effective caps failed"@,
        ChildOp::InstallSeccomp => "prctl PR_SET_SECCOMP failed"@,
        ChildOp::NewSession => "setsid failed"@,
        ChildOp::ClaimTerminal => "ioctl TIOCSCTTY failed"@,
        ChildOp::DupTerminal(_) => "dup2 pty slave failed"@,
        ChildOp::CheckAppArmorName => "apparmor profile name too long"@,
        ChildOp::OpenAppArmor => "open apparmor attr failed (kernel module loaded?)"@,
        ChildOp::WriteAppArmor => "write apparmor profile failed"@,
        ChildOp::OpenSelinux => "open selinux attr failed (kernel module loaded?)"@,
        ChildOp::WriteSelinux => "write selinux label failed"@,
        ChildOp::RequireCommand => "empty argv"@,
        ChildOp::Exec => "exec failed"@,
        _ => ""@,
    }
}

/// The stage a step belongs to. The stages come one after another.
pub open spec fn stage(op: ChildOp) -> int {
    match op {
        ChildOp::AwaitIdMaps => 0,
        ChildOp::RootGid => 0,
        ChildOp::RootUid => 0,
        ChildOp::OpenNamespace(_) => 1,
        ChildOp::CheckNamespace(_) => 1,
        ChildOp::EnterNamespace(_) => 1,
        ChildOp::ForkIntoPidNamespace => 2,
        ChildOp::MakePrivate => 3,
        ChildOp::BindRoot => 4,
        ChildOp::MakeMountPoint(_) => 5,
        ChildOp::Mount(_) => 5,
        ChildOp::IdmapMount(_) => 5,
        ChildOp::MakeOldRoot => 6,
        ChildOp::PivotRoot => 6,
        ChildOp::Chroot => 6,
        ChildOp::ChdirRoot => 6,
        ChildOp::DetachOldRoot => 6,
        ChildOp::RemoveOldRoot => 6,
        ChildOp::SetPropagation => 7,
        ChildOp::SetHostname => 8,
        ChildOp::CreateHook(_) => 9,
        ChildOp::ClearUmask => 10,
        ChildOp::MakeDevice(_) => 11,
        ChildOp::ChmodDevice(_) => 11,
        ChildOp::TouchDevice(_) => 11,
        ChildOp::BindDevice(_) => 11,
        ChildOp::RestoreUmask => 12,
        ChildOp::UnlinkDev(_) => 13,
        ChildOp::LinkDev(_) => 13,
        ChildOp::MaskFile(_) => 14,
        ChildOp::MaskDir(_) => 14,
        ChildOp::BindReadonly(_) => 15,
        ChildOp::RemountReadonly(_) => 15,
        ChildOp::RootReadonly => 16,
        ChildOp::WriteSysctl(_) => 17,
        ChildOp::Chdir => 18,
        ChildOp::AwaitStart => 19,
        ChildOp::SetRlimit(_) => 20,
        ChildOp::SetGroups => 21,
        ChildOp::SetUmask => 22,
        ChildOp::DropBounding => 23,
        ChildOp::SetCaps => 23,
        ChildOp::RaiseAmbient => 23,
        ChildOp::SetGid => 24,
        ChildOp::KeepCaps => 25,
        ChildOp::SetUid => 25,
        ChildOp::ReadCaps => 25,
        ChildOp::RestoreCaps => 25,
        ChildOp::RaiseAmbientAgain => 25,
        ChildOp::NoNewPrivs => 26,
        ChildOp::InstallSeccomp => 27,
        ChildOp::NewSession => 28,
        ChildOp::ClaimTerminal => 28,
        ChildOp::DupTerminal(_) => 28,
        ChildOp::StartHook(_) => 29,
        ChildOp::CheckAppArmorName => 30,
        ChildOp::OpenAppArmor => 30,
        ChildOp::WriteAppArmor => 30,
        ChildOp::OpenSelinux => 31,
        ChildOp::WriteSelinux => 31,
        ChildOp::RequireCommand => 32,
        ChildOp::Exec => 33,
    }
}

/// The exit code with which a failure ends the process, if it does.
pub fn failure_code(op: ChildOp) -> (c: Option<i32>)
    ensures
        c == fatal_code(op),
{
    match op {
        ChildOp::AwaitIdMaps => Some(110i32),
        ChildOp::RootGid => Some(111i32),
        ChildOp::RootUid => Some(111i32),
        ChildOp::OpenNamespace(_) => Some(112i32),
        ChildOp::CheckNamespace(_) => Some(112i32),
        ChildOp::EnterNamespace(_) => Some(112i32),
        ChildOp::ForkIntoPidNamespace => Some(119i32),
        ChildOp::MakePrivate => Some(101i32),
        ChildOp::BindRoot => Some(102i32),
        ChildOp::IdmapMount(_) => Some(130i32),
        ChildOp::PivotRoot => Some(103i32),
        ChildOp::Chroot => Some(103i32),
        ChildOp::ChdirRoot => Some(104i32),
        ChildOp::DetachOldRoot => Some(105i32),
        ChildOp::AwaitStart => Some(107i32),
        ChildOp::SetCaps => Some(109i32),
        ChildOp::SetGid => Some(109i32),
        ChildOp::KeepCaps => Some(109i32),
        ChildOp::SetUid => Some(109i32),
        ChildOp::ReadCaps => Some(109i32),
        ChildOp::RestoreCaps => Some(109i32),
        ChildOp::InstallSeccomp => Some(109i32),
        ChildOp::NewSession => Some(116i32),
        ChildOp::ClaimTerminal => Some(117i32),
        ChildOp::DupTerminal(_) => Some(118i32),
        ChildOp::CheckAppArmorName => Some(120i32),
        ChildOp::OpenAppArmor => Some(120i32),
        ChildOp::WriteAppArmor => Some(120i32),
        ChildOp::OpenSelinux => Some(121i32),
        ChildOp::WriteSelinux => Some(121i32),
        ChildOp::RequireCommand => Some(108i32),
        ChildOp::Exec => Some(127i32),
        _ => None,
    }
}

/// The reason of a fatal failure.
pub fn failure_reason(op: ChildOp) -> (s: &'static str)
    ensures
        s@ == fatal_reason(op),
{
    match op {
        ChildOp::AwaitIdMaps => "read userns sync pipe failed",
        ChildOp::RootGid => "setresgid 0 failed",
        ChildOp::RootUid => "setresuid 0 failed",
        ChildOp::OpenNamespace(_) => "open namespace path failed",
        ChildOp::CheckNamespace(_) => "namespace path type mismatch",
        ChildOp::EnterNamespace(_) => "setns failed",
        ChildOp::ForkIntoPidNamespace => "fork after setns(NEWPID) failed",
        ChildOp::MakePrivate => "mount / private failed",
        ChildOp::BindRoot => "bind rootfs failed",
        ChildOp::IdmapMount(_) => "idmapped bind mount failed",
        ChildOp::PivotRoot => "pivot_root failed",
        ChildOp::Chroot => "chroot failed",
        ChildOp::ChdirRoot => "chdir / failed",
        ChildOp::DetachOldRoot => "umount old_root failed",
        ChildOp::AwaitStart => "read fifo failed",
        ChildOp::SetCaps => "capset failed",
        ChildOp::SetGid => "setresgid failed",
        ChildOp::KeepCaps => "prctl SET_KEEPCAPS failed",
        ChildOp::SetUid => "setresuid failed",
        ChildOp::ReadCaps => "capget after setresuid failed",
        ChildOp::RestoreCaps => "reapply effective caps failed",
        ChildOp::InstallSeccomp => "prctl PR_SET_SECCOMP failed",
        ChildOp::NewSession => "setsid failed",
        ChildOp::ClaimTerminal => "ioctl TIOCSCTTY failed",
        ChildOp::DupTerminal(_) => "dup2 pty slave failed",
        ChildOp::CheckAppArmorName => "apparmor profile name too long",
        ChildOp::OpenAppArmor => "open apparmor attr failed (kernel module loaded?)",
        ChildOp::WriteAppArmor => "write apparmor profile failed",
        ChildOp::OpenSelinux => "open selinux attr failed (kernel module loaded?)",
        ChildOp::WriteSelinux => "write selinux label failed",
        ChildOp::RequireCommand => "empty argv",
        ChildOp::Exec => "exec failed",
        _ => "",
    }
}

/// A step that leaves nothing out.
pub open spec fn plain(op: ChildOp) -> ChildStep {
    ChildStep { op, skip_ok: 0, skip_fail: 0 }
}

/// One such step.
pub open spec fn one(op: ChildOp) -> Seq<ChildStep> {
    seq![plain(op)]
}

/// Steps that are there only under a condition.
pub open spec fn when(b: bool, steps: Seq<ChildStep>) -> Seq<ChildStep> {
    if b {
        steps
    } else {
        Seq::empty()
    }
}

/// The steps for each of `n` things, one after another.
pub open spec fn for_each(n: nat, f: spec_fn(int) -> Seq<ChildStep>) -> Seq<ChildStep>
    decreases n,
{
    if n == 0 {
        Seq::empty()
    } else {
        for_each((n - 1) as nat, f) + f(n - 1)
    }
}

/// Whether a pid namespace is joined.
pub open spec fn joins_pid(p: CompiledPlan) -> bool {
    exists|i: int|
        0 <= i < p.join_namespaces@.len() && (#[trigger] p.join_namespaces@[i]).0
            == NamespaceKind::Pid
}

/// The steps that join one namespace.
pub open spec fn join_at() -> spec_fn(int) -> Seq<ChildStep> {
    |i: int|
        seq![
            plain(ChildOp::OpenNamespace(i as usize)),
            plain(ChildOp::CheckNamespace(i as usize)),
            plain(ChildOp::EnterNamespace(i as usize)),
        ]
}

/// The steps into the namespaces.
pub open spec fn enter_steps(p: CompiledPlan) -> Seq<ChildStep> {
    when(
        p.wants_userns,
        seq![plain(ChildOp::AwaitIdMaps), plain(ChildOp::RootGid), plain(ChildOp::RootUid)],
    ) + for_each(p.join_namespaces@.len(), join_at()) + when(
        joins_pid(p),
        one(ChildOp::ForkIntoPidNamespace),
    )
}

/// Whether a mount is made with mapped ids: it asks for it, and the namespace for it is there.
pub open spec fn idmapped(p: CompiledPlan, ready: Seq<bool>, i: int) -> bool {
    p.mounts@[i].idmap_uid@.len() > 0 && i < ready.len() && ready[i]
}

/// The steps of one mount.
pub open spec fn mount_at(p: CompiledPlan, ready: Seq<bool>) -> spec_fn(int) -> Seq<ChildStep> {
    |i: int|
        seq![
            plain(ChildOp::MakeMountPoint(i as usize)),
            plain(
                if idmapped(p, ready, i) {
                    ChildOp::IdmapMount(i as usize)
                } else {
                    ChildOp::Mount(i as usize)
                },
            ),
        ]
}

/// The steps that change the root.
pub open spec fn switch_steps(p: CompiledPlan) -> Seq<ChildStep> {
    if p.no_pivot {
        seq![plain(ChildOp::Chroot), plain(ChildOp::ChdirRoot)]
    } else {
        seq![
            plain(ChildOp::MakeOldRoot),
            plain(ChildOp::PivotRoot),
            plain(ChildOp::ChdirRoot),
            plain(ChildOp::DetachOldRoot),
            plain(ChildOp::RemoveOldRoot),
        ]
    }
}

/// The steps into the root filesystem.
pub open spec fn root_steps(p: CompiledPlan, ready: Seq<bool>) -> Seq<ChildStep> {
    one(ChildOp::MakePrivate) + one(ChildOp::BindRoot) + for_each(
        p.mounts@.len(),
        mount_at(p, ready),
    ) + switch_steps(p)
}

/// The step of one createContainer hook.
pub open spec fn create_hook_at() -> spec_fn(int) -> Seq<ChildStep> {
    |i: int| one(ChildOp::CreateHook(i as usize))
}

/// The steps of one device node: made and given its mode, or else bound from the host.
pub open spec fn device_at(p: CompiledPlan) -> spec_fn(int) -> Seq<ChildStep> {
    |i: int|
        when(
            p.default_devices@[i].kind == 'c' || p.default_devices@[i].kind == 'b',
            seq![
                ChildStep { op: ChildOp::MakeDevice(i as usize), skip_ok: 0, skip_fail: 1 },
                ChildStep { op: ChildOp::ChmodDevice(i as usize), skip_ok: 2, skip_fail: 2 },
                plain(ChildOp::TouchDevice(i as usize)),
                plain(ChildOp::BindDevice(i as usize)),
            ],
        )
}

/// The steps of one link below `/dev`.
pub open spec fn link_at() -> spec_fn(int) -> Seq<ChildStep> {
    |i: int|
        seq![plain(ChildOp::UnlinkDev(i as usize)), plain(ChildOp::LinkDev(i as usize))]
}

/// The steps of one masked path: as a file, or else as a directory.
pub open spec fn mask_at() -> spec_fn(int) -> Seq<ChildStep> {
    |i: int|
        seq![
            ChildStep { op: ChildOp::MaskFile(i as usize), skip_ok: 1, skip_fail: 0 },
            plain(ChildOp::MaskDir(i as usize)),
        ]
}

/// The steps of one read-only path; the second only where the first went well.
pub open spec fn readonly_at() -> spec_fn(int) -> Seq<ChildStep> {
    |i: int|
        seq![
            ChildStep { op: ChildOp::BindReadonly(i as usize), skip_ok: 0, skip_fail: 1 },
            plain(ChildOp::RemountReadonly(i as usize)),
        ]
}

/// The step of one kernel setting.
pub open spec fn sysctl_at() -> spec_fn(int) -> Seq<ChildStep> {
    |i: int| one(ChildOp::WriteSysctl(i as usize))
}

/// The steps that fit the root filesystem out, up to the wait for `start`.
pub open spec fn fit_out_steps(p: CompiledPlan) -> Seq<ChildStep> {
    when(p.rootfs_propagation != 0, one(ChildOp::SetPropagation)) + when(
        p.set_hostname,
        one(ChildOp::SetHostname),
    ) + for_each(p.ext.hooks.create_container@.len(), create_hook_at()) + one(ChildOp::ClearUmask)
        + for_each(p.default_devices@.len(), device_at(p)) + one(ChildOp::RestoreUmask) + for_each(
        p.default_symlinks@.len(),
        link_at(),
    ) + for_each(p.masked_paths@.len(), mask_at()) + for_each(
        p.readonly_paths@.len(),
        readonly_at(),
    ) + when(p.root_readonly, one(ChildOp::RootReadonly)) + for_each(p.sysctls@.len(), sysctl_at())
        + one(ChildOp::Chdir) + one(ChildOp::AwaitStart)
}

/// The step of one resource limit.
pub open spec fn rlimit_at() -> spec_fn(int) -> Seq<ChildStep> {
    |i: int| one(ChildOp::SetRlimit(i as usize))
}

/// The steps that set the capability sets.
pub open spec fn cap_steps() -> Seq<ChildStep> {
    seq![plain(ChildOp::DropBounding), plain(ChildOp::SetCaps), plain(ChildOp::RaiseAmbient)]
}

/// The steps of the change of user.
pub open spec fn user_steps(p: CompiledPlan) -> Seq<ChildStep> {
    seq![plain(ChildOp::KeepCaps), plain(ChildOp::SetUid)] + when(
        p.caps is Some,
        seq![
            plain(ChildOp::ReadCaps),
            plain(ChildOp::RestoreCaps),
            plain(ChildOp::RaiseAmbientAgain),
        ],
    )
}

/// The steps that take rights away.
pub open spec fn restrict_steps(p: CompiledPlan) -> Seq<ChildStep> {
    for_each(p.rlimits@.len(), rlimit_at()) + when(
        p.user_additional_gids@.len() > 0,
        one(ChildOp::SetGroups),
    ) + when(p.user_umask is Some, one(ChildOp::SetUmask)) + when(p.caps is Some, cap_steps())
        + when(p.user_gid != 0, one(ChildOp::SetGid)) + when(p.user_uid != 0, user_steps(p)) + when(
        p.no_new_privileges,
        one(ChildOp::NoNewPrivs),
    ) + when(p.ext.seccomp_bpf@.len() > 0, one(ChildOp::InstallSeccomp))
}

/// The step of one startContainer hook.
pub open spec fn start_hook_at() -> spec_fn(int) -> Seq<ChildStep> {
    |i: int| one(ChildOp::StartHook(i as usize))
}

/// The steps that take the terminal over.
pub open spec fn terminal_steps() -> Seq<ChildStep> {
    seq![
        plain(ChildOp::NewSession),
        plain(ChildOp::ClaimTerminal),
        plain(ChildOp::DupTerminal(0)),
        plain(ChildOp::DupTerminal(1)),
        plain(ChildOp::DupTerminal(2)),
    ]
}

/// The steps that ask for the AppArmor profile.
pub open spec fn apparmor_steps() -> Seq<ChildStep> {
    seq![
        plain(ChildOp::CheckAppArmorName),
        plain(ChildOp::OpenAppArmor),
        plain(ChildOp::WriteAppArmor),
    ]
}

/// The steps that ask for the SELinux label.
pub open spec fn selinux_steps() -> Seq<ChildStep> {
    seq![plain(ChildOp::OpenSelinux), plain(ChildOp::WriteSelinux)]
}

/// The end: the program, if there is one.
pub open spec fn exec_op(p: CompiledPlan) -> ChildOp {
    if p.argv@.len() == 0 {
        ChildOp::RequireCommand
    } else {
        ChildOp::Exec
    }
}

/// The steps up to the program, with a terminal or without.
pub open spec fn last_steps(p: CompiledPlan, tty: bool) -> Seq<ChildStep> {
    when(tty, terminal_steps()) + for_each(
        p.ext.hooks.start_container@.len(),
        start_hook_at(),
    ) + when(p.apparmor_profile is Some, apparmor_steps()) + when(
        p.selinux_label is Some,
        selinux_steps(),
    ) + one(exec_op(p))
}

/// All steps of the process. `ready` says for which mounts a namespace with mapped ids is there.
pub open spec fn child_steps(p: CompiledPlan, ready: Seq<bool>, tty: bool) -> Seq<ChildStep> {
    enter_steps(p) + root_steps(p, ready) + fit_out_steps(p) + restrict_steps(p) + last_steps(
        p,
        tty,
    )
}

/// Adds a step that leaves nothing out.
fn push(v: &mut Vec<ChildStep>, op: ChildOp)
    ensures
        final(v)@ == old(v)@ + one(op),
{
    v.push(ChildStep { op, skip_ok: 0, skip_fail: 0 });
}

/// Adds a step under a condition.
fn push_when(v: &mut Vec<ChildStep>, b: bool, op: ChildOp)
    ensures
        final(v)@ == old(v)@ + when(b, one(op)),
{
    let ghost was = v@;
    if b {
        push(v, op);
    } else {
        proof {
            assert(v@ =~= was + when(b, one(op)));
        }
    }
}

/// Lays out the steps into the namespaces.
fn push_enter(v: &mut Vec<ChildStep>, p: &CompiledPlan)
    ensures
        final(v)@ == old(v)@ + enter_steps(*p),
{
    let ghost was = v@;
    if p.wants_userns {
        push(v, ChildOp::AwaitIdMaps);
        push(v, ChildOp::RootGid);
        push(v, ChildOp::RootUid);
    }
    let ghost base = v@;
    let mut pid = false;
    let mut i: usize = 0;
    proof {
        assert(base + for_each(0, join_at()) =~= base);
    }
    while i < p.join_namespaces.len()
        invariant
            i <= p.join_namespaces.len(),
            v@ == base + for_each(i as nat, join_at()),
            pid <==> exists|k: int|
                0 <= k < i && (#[trigger] p.join_namespaces@[k]).0 == NamespaceKind::Pid,
        decreases p.join_namespaces.len() - i,
    {
        let ghost here = v@;
        push(v, ChildOp::OpenNamespace(i));
        push(v, ChildOp::CheckNamespace(i));
        push(v, ChildOp::EnterNamespace(i));
        if p.join_namespaces[i].0 == NamespaceKind::Pid {
            pid = true;
        }
        proof {
            assert(v@ =~= here + join_at()(i as int));
            assert(v@ =~= base + for_each((i + 1) as nat, join_at()));
        }
        i = i + 1;
    }
    push_when(v, pid, ChildOp::ForkIntoPidNamespace);
    proof {
        assert(pid == joins_pid(*p));
        assert(v@ =~= was + enter_steps(*p));
    }
}

/// Lays out the steps into the root filesystem.
fn push_root(v: &mut Vec<ChildStep>, p: &CompiledPlan, ready: &Vec<bool>)
    ensures
        final(v)@ == old(v)@ + root_steps(*p, ready@),
{
    let ghost was = v@;
    push(v, ChildOp::MakePrivate);
    push(v, ChildOp::BindRoot);
    let ghost base = v@;
    let ghost f = mount_at(*p, ready@);
    let mut i: usize = 0;
    proof {
        assert(base + for_each(0, f) =~= base);
    }
    while i < p.mounts.len()
        invariant
            i <= p.mounts.len(),
            f == mount_at(*p, ready@),
            v@ == base + for_each(i as nat, f),
        decreases p.mounts.len() - i,
    {
        let ghost here = v@;
        push(v, ChildOp::MakeMountPoint(i));
        if p.mounts[i].idmap_uid.len() > 0 && i < ready.len() && ready[i] {
            push(v, ChildOp::IdmapMount(i));
        } else {
            push(v, ChildOp::Mount(i));
        }
        proof {
            assert(v@ =~= here + f(i as int));
            assert(v@ =~= base + for_each((i + 1) as nat, f));
        }
        i = i + 1;
    }
    let ghost mid = v@;
    if p.no_pivot {
        push(v, ChildOp::Chroot);
        push(v, ChildOp::ChdirRoot);
    } else {
        push(v, ChildOp::MakeOldRoot);
        push(v, ChildOp::PivotRoot);
        push(v, ChildOp::ChdirRoot);
        push(v, ChildOp::DetachOldRoot);
        push(v, ChildOp::RemoveOldRoot);
    }
    proof {
        assert(v@ =~= mid + switch_steps(*p));
        assert(v@ =~= was + root_steps(*p, ready@));
    }
}

/// Lays out the createContainer hooks.
fn push_create_hooks(v: &mut Vec<ChildStep>, n: usize)
    ensures
        final(v)@ == old(v)@ + for_each(n as nat, create_hook_at()),
{
    let ghost base = v@;
    let mut i: usize = 0;
    proof {
        assert(base + for_each(0, create_hook_at()) =~= base);
    }
    while i < n
        invariant
            i <= n,
            v@ == base + for_each(i as nat, create_hook_at()),
        decreases n - i,
    {
        let ghost here = v@;
        push(v, ChildOp::CreateHook(i));
        proof {
            assert(v@ =~= here + create_hook_at()(i as int));
            assert(v@ =~= base + for_each((i + 1) as nat, create_hook_at()));
        }
        i = i + 1;
    }
}

/// Lays out the links below `/dev`.
fn push_links(v: &mut Vec<ChildStep>, n: usize)
    ensures
        final(v)@ == old(v)@ + for_each(n as nat, link_at()),
{
    let ghost base = v@;
    let mut i: usize = 0;
    proof {
        assert(base + for_each(0, link_at()) =~= base);
    }
    while i < n
        invariant
            i <= n,
            v@ == base + for_each(i as nat, link_at()),
        decreases n - i,
    {
        let ghost here = v@;
        push(v, ChildOp::UnlinkDev(i));
        push(v, ChildOp::LinkDev(i));
        proof {
            assert(v@ =~= here + link_at()(i as int));
            assert(v@ =~= base + for_each((i + 1) as nat, link_at()));
        }
        i = i + 1;
    }
}

/// Lays out the masked paths.
fn push_masks(v: &mut Vec<ChildStep>, n: usize)
    ensures
        final(v)@ == old(v)@ + for_each(n as nat, mask_at()),
{
    let ghost base = v@;
    let mut i: usize = 0;
    proof {
        assert(base + for_each(0, mask_at()) =~= base);
    }
    while i < n
        invariant
            i <= n,
            v@ == base + for_each(i as nat, mask_at()),
        decreases n - i,
    {
        let ghost here = v@;
        v.push(ChildStep { op: ChildOp::MaskFile(i), skip_ok: 1, skip_fail: 0 });
        push(v, ChildOp::MaskDir(i));
        proof {
            assert(v@ =~= here + mask_at()(i as int));
            assert(v@ =~= base + for_each((i + 1) as nat, mask_at()));
        }
        i = i + 1;
    }
}

/// Lays out the read-only paths.
fn push_readonly(v: &mut Vec<ChildStep>, n: usize)
    ensures
        final(v)@ == old(v)@ + for_each(n as nat, readonly_at()),
{
    let ghost base = v@;
    let mut i: usize = 0;
    proof {
        assert(base + for_each(0, readonly_at()) =~= base);
    }
    while i < n
        invariant
            i <= n,
            v@ == base + for_each(i as nat, readonly_at()),
        decreases n - i,
    {
        let ghost here = v@;
        v.push(ChildStep { op: ChildOp::BindReadonly(i), skip_ok: 0, skip_fail: 1 });
        push(v, ChildOp::RemountReadonly(i));
        proof {
            assert(v@ =~= here + readonly_at()(i as int));
            assert(v@ =~= base + for_each((i + 1) as nat, readonly_at()));
        }
        i = i + 1;
    }
}

/// Lays out the kernel settings.
fn push_sysctls(v: &mut Vec<ChildStep>, n: usize)
    ensures
        final(v)@ == old(v)@ + for_each(n as nat, sysctl_at()),
{
    let ghost base = v@;
    let mut i: usize = 0;
    proof {
        assert(base + for_each(0, sysctl_at()) =~= base);
    }
    while i < n
        invariant
            i <= n,
            v@ == base + for_each(i as nat, sysctl_at()),
        decreases n - i,
    {
        let ghost here = v@;
        push(v, ChildOp::WriteSysctl(i));
        proof {
            assert(v@ =~= here + sysctl_at()(i as int));
            assert(v@ =~= base + for_each((i + 1) as nat, sysctl_at()));
        }
        i = i + 1;
    }
}

/// Lays out the resource limits.
fn push_rlimits(v: &mut Vec<ChildStep>, n: usize)
    ensures
        final(v)@ == old(v)@ + for_each(n as nat, rlimit_at()),
{
    let ghost base = v@;
    let mut i: usize = 0;
    proof {
        assert(base + for_each(0, rlimit_at()) =~= base);
    }
    while i < n
        invariant
            i <= n,
            v@ == base + for_each(i as nat, rlimit_at()),
        decreases n - i,
    {
        let ghost here = v@;
        push(v, ChildOp::SetRlimit(i));
        proof {
            assert(v@ =~= here + rlimit_at()(i as int));
            assert(v@ =~= base + for_each((i + 1) as nat, rlimit_at()));
        }
        i = i + 1;
    }
}

/// Lays out the startContainer hooks.
fn push_start_hooks(v: &mut Vec<ChildStep>, n: usize)
    ensures
        final(v)@ == old(v)@ + for_each(n as nat, start_hook_at()),
{
    let ghost base = v@;
    let mut i: usize = 0;
    proof {
        assert(base + for_each(0, start_hook_at()) =~= base);
    }
    while i < n
        invariant
            i <= n,
            v@ == base + for_each(i as nat, start_hook_at()),
        decreases n - i,
    {
        let ghost here = v@;
        push(v, ChildOp::StartHook(i));
        proof {
            assert(v@ =~= here + start_hook_at()(i as int));
            assert(v@ =~= base + for_each((i + 1) as nat, start_hook_at()));
        }
        i = i + 1;
    }
}

/// Lays out the device nodes.
fn push_devices(v: &mut Vec<ChildStep>, p: &CompiledPlan)
    ensures
        final(v)@ == old(v)@ + for_each(p.default_devices@.len(), device_at(*p)),
{
    let ghost base = v@;
    let ghost f = device_at(*p);
    let mut i: usize = 0;
    proof {
        assert(base + for_each(0, f) =~= base);
    }
    while i < p.default_devices.len()
        invariant
            i <= p.default_devices.len(),
            f == device_at(*p),
            v@ == base + for_each(i as nat, f),
        decreases p.default_devices.len() - i,
    {
        let ghost here = v@;
        let kind = p.default_devices[i].kind;
        if kind == 'c' || kind == 'b' {
            v.push(ChildStep { op: ChildOp::MakeDevice(i), skip_ok: 0, skip_fail: 1 });
            v.push(ChildStep { op: ChildOp::ChmodDevice(i), skip_ok: 2, skip_fail: 2 });
            push(v, ChildOp::TouchDevice(i));
            push(v, ChildOp::BindDevice(i));
        }
        proof {
            assert(v@ =~= here + f(i as int));
            assert(v@ =~= base + for_each((i + 1) as nat, f));
        }
        i = i + 1;
    }
}

/// Steps behind steps behind steps.
proof fn lemma_assoc(a: Seq<ChildStep>, b: Seq<ChildStep>, c: Seq<ChildStep>)
    ensures
        (a + b) + c == a + (b + c),
{
    assert((a + b) + c =~= a + (b + c));
}

/// Lays out the capability sets.
fn push_caps(v: &mut Vec<ChildStep>, p: &CompiledPlan)
    ensures
        final(v)@ == old(v)@ + when(p.caps is Some, cap_steps()),
{
    let ghost was = v@;
    if p.caps.is_some() {
        push(v, ChildOp::DropBounding);
        push(v, ChildOp::SetCaps);
        push(v, ChildOp::RaiseAmbient);
    }
    proof {
        assert(v@ =~= was + when(p.caps is Some, cap_steps()));
    }
}

/// Lays out the change of user.
fn push_user(v: &mut Vec<ChildStep>, p: &CompiledPlan)
    ensures
        final(v)@ == old(v)@ + when(p.user_uid != 0, user_steps(*p)),
{
    let ghost was = v@;
    if p.user_uid != 0 {
        push(v, ChildOp::KeepCaps);
        push(v, ChildOp::SetUid);
        if p.caps.is_some() {
            push(v, ChildOp::ReadCaps);
            push(v, ChildOp::RestoreCaps);
            push(v, ChildOp::RaiseAmbientAgain);
        }
    }
    proof {
        assert(v@ =~= was + when(p.user_uid != 0, user_steps(*p)));
    }
}

/// Lays out the terminal.
fn push_terminal(v: &mut Vec<ChildStep>, tty: bool)
    ensures
        final(v)@ == old(v)@ + when(tty, terminal_steps()),
{
    let ghost was = v@;
    if tty {
        push(v, ChildOp::NewSession);
        push(v, ChildOp::ClaimTerminal);
        push(v, ChildOp::DupTerminal(0));
        push(v, ChildOp::DupTerminal(1));
        push(v, ChildOp::DupTerminal(2));
    }
    proof {
        assert(v@ =~= was + when(tty, terminal_steps()));
    }
}

/// Lays out the AppArmor profile.
fn push_apparmor(v: &mut Vec<ChildStep>, p: &CompiledPlan)
    ensures
        final(v)@ == old(v)@ + when(p.apparmor_profile is Some, apparmor_steps()),
{
    let ghost was = v@;
    if p.apparmor_profile.is_some() {
        push(v, ChildOp::CheckAppArmorName);
        push(v, ChildOp::OpenAppArmor);
        push(v, ChildOp::WriteAppArmor);
    }
    proof {
        assert(v@ =~= was + when(p.apparmor_profile is Some, apparmor_steps()));
    }
}

/// Lays out the SELinux label.
fn push_selinux(v: &mut Vec<ChildStep>, p: &CompiledPlan)
    ensures
        final(v)@ == old(v)@ + when(p.selinux_label is Some, selinux_steps()),
{
    let ghost was = v@;
    if p.selinux_label.is_some() {
        push(v, ChildOp::OpenSelinux);
        push(v, ChildOp::WriteSelinux);
    }
    proof {
        assert(v@ =~= was + when(p.selinux_label is Some, selinux_steps()));
    }
}

/// Lays out the end.
fn push_exec(v: &mut Vec<ChildStep>, p: &CompiledPlan)
    ensures
        final(v)@ == old(v)@ + one(exec_op(*p)),
{
    if p.argv.len() == 0 {
        push(v, ChildOp::RequireCommand);
    } else {
        push(v, ChildOp::Exec);
    }
}

/// Lays out the steps that fit the root filesystem out.
fn push_fit_out(v: &mut Vec<ChildStep>, p: &CompiledPlan)
    ensures
        final(v)@ == old(v)@ + fit_out_steps(*p),
{
    let ghost was = v@;
    push_when(v, p.rootfs_propagation != 0, ChildOp::SetPropagation);
    let ghost s0 = when(p.rootfs_propagation != 0, one(ChildOp::SetPropagation));
    push_when(v, p.set_hostname, ChildOp::SetHostname);
    let ghost s1 = s0 + when(p.set_hostname, one(ChildOp::SetHostname));
    proof {
        lemma_assoc(was, s0, when(p.set_hostname, one(ChildOp::SetHostname)));
    }
    push_create_hooks(v, p.ext.hooks.create_container.len());
    let ghost s2 = s1 + for_each(p.ext.hooks.create_container@.len(), create_hook_at());
    proof {
        lemma_assoc(was, s1, for_each(p.ext.hooks.create_container@.len(), create_hook_at()));
    }
    push(v, ChildOp::ClearUmask);
    let ghost s3 = s2 + one(ChildOp::ClearUmask);
    proof {
        lemma_assoc(was, s2, one(ChildOp::ClearUmask));
    }
    push_devices(v, p);
    let ghost s4 = s3 + for_each(p.default_devices@.len(), device_at(*p));
    proof {
        lemma_assoc(was, s3, for_each(p.default_devices@.len(), device_at(*p)));
    }
    push(v, ChildOp::RestoreUmask);
    let ghost s5 = s4 + one(ChildOp::RestoreUmask);
    proof {
        lemma_assoc(was, s4, one(ChildOp::RestoreUmask));
    }
    push_links(v, p.default_symlinks.len());
    let ghost s6 = s5 + for_each(p.default_symlinks@.len(), link_at());
    proof {
        lemma_assoc(was, s5, for_each(p.default_symlinks@.len(), link_at()));
    }
    push_masks(v, p.masked_paths.len());
    let ghost s7 = s6 + for_each(p.masked_paths@.len(), mask_at());
    proof {
        lemma_assoc(was, s6, for_each(p.masked_paths@.len(), mask_at()));
    }
    push_readonly(v, p.readonly_paths.len());
    let ghost s8 = s7 + for_each(p.readonly_paths@.len(), readonly_at());
    proof {
        lemma_assoc(was, s7, for_each(p.readonly_paths@.len(), readonly_at()));
    }
    push_when(v, p.root_readonly, ChildOp::RootReadonly);
    let ghost s9 = s8 + when(p.root_readonly, one(ChildOp::RootReadonly));
    proof {
        lemma_assoc(was, s8, when(p.root_readonly, one(ChildOp::RootReadonly)));
    }
    push_sysctls(v, p.sysctls.len());
    let ghost s10 = s9 + for_each(p.sysctls@.len(), sysctl_at());
    proof {
        lemma_assoc(was, s9, for_each(p.sysctls@.len(), sysctl_at()));
    }
    push(v, ChildOp::Chdir);
    let ghost s11 = s10 + one(ChildOp::Chdir);
    proof {
        lemma_assoc(was, s10, one(ChildOp::Chdir));
    }
    push(v, ChildOp::AwaitStart);
    let ghost s12 = s11 + one(ChildOp::AwaitStart);
    proof {
        lemma_assoc(was, s11, one(ChildOp::AwaitStart));
    }
}

/// Lays out the steps that take rights away.
fn push_restrict(v: &mut Vec<ChildStep>, p: &CompiledPlan)
    ensures
        final(v)@ == old(v)@ + restrict_steps(*p),
{
    let ghost was = v@;
    push_rlimits(v, p.rlimits.len());
    let ghost s0 = for_each(p.rlimits@.len(), rlimit_at());
    push_when(v, p.user_additional_gids.len() > 0, ChildOp::SetGroups);
    let ghost s1 = s0 + when(p.user_additional_gids@.len() > 0, one(ChildOp::SetGroups));
    proof {
        lemma_assoc(was, s0, when(p.user_additional_gids@.len() > 0, one(ChildOp::SetGroups)));
    }
    push_when(v, p.user_umask.is_some(), ChildOp::SetUmask);
    let ghost s2 = s1 + when(p.user_umask is Some, one(ChildOp::SetUmask));
    proof {
        lemma_assoc(was, s1, when(p.user_umask is Some, one(ChildOp::SetUmask)));
    }
    push_caps(v, p);
    let ghost s3 = s2 + when(p.caps is Some, cap_steps());
    proof {
        lemma_assoc(was, s2, when(p.caps is Some, cap_steps()));
    }
    push_when(v, p.user_gid != 0, ChildOp::SetGid);
    let ghost s4 = s3 + when(p.user_gid != 0, one(ChildOp::SetGid));
    proof {
        lemma_assoc(was, s3, when(p.user_gid != 0, one(ChildOp::SetGid)));
    }
    push_user(v, p);
    let ghost s5 = s4 + when(p.user_uid != 0, user_steps(*p));
    proof {
        lemma_assoc(was, s4, when(p.user_uid != 0, user_steps(*p)));
    }
    push_when(v, p.no_new_privileges, ChildOp::NoNewPrivs);
    let ghost s6 = s5 + when(p.no_new_privileges, one(ChildOp::NoNewPrivs));
    proof {
        lemma_assoc(was, s5, when(p.no_new_privileges, one(ChildOp::NoNewPrivs)));
    }
    push_when(v, p.ext.seccomp_bpf.len() > 0, ChildOp::InstallSeccomp);
    let ghost s7 = s6 + when(p.ext.seccomp_bpf@.len() > 0, one(ChildOp::InstallSeccomp));
    proof {
        lemma_assoc(was, s6, when(p.ext.seccomp_bpf@.len() > 0, one(ChildOp::InstallSeccomp)));
    }
}

/// Lays out the steps up to the program.
fn push_last(v: &mut Vec<ChildStep>, p: &CompiledPlan, tty: bool)
    ensures
        final(v)@ == old(v)@ + last_steps(*p, tty),
{
    let ghost was = v@;
    push_terminal(v, tty);
    let ghost s0 = when(tty, terminal_steps());
    push_start_hooks(v, p.ext.hooks.start_container.len());
    let ghost s1 = s0 + for_each(p.ext.hooks.start_container@.len(), start_hook_at());
    proof {
        lemma_assoc(was, s0, for_each(p.ext.hooks.start_container@.len(), start_hook_at()));
    }
    push_apparmor(v, p);
    let ghost s2 = s1 + when(p.apparmor_profile is Some, apparmor_steps());
    proof {
        lemma_assoc(was, s1, when(p.apparmor_profile is Some, apparmor_steps()));
    }
    push_selinux(v, p);
    let ghost s3 = s2 + when(p.selinux_label is Some, selinux_steps());
    proof {
        lemma_assoc(was, s2, when(p.selinux_label is Some, selinux_steps()));
    }
    push_exec(v, p);
    let ghost s4 = s3 + one(exec_op(*p));
    proof {
        lemma_assoc(was, s3, one(exec_op(*p)));
    }
}

/// Lays out all steps of the process, before it exists.
pub fn child_run(p: &CompiledPlan, ready: &Vec<bool>, tty: bool) -> (v: Vec<ChildStep>)
    ensures
        v@ == child_steps(*p, ready@, tty),
        tight(v@),
{
    let mut v: Vec<ChildStep> = Vec::new();
    push_enter(&mut v, p);
    push_root(&mut v, p, ready);
    push_fit_out(&mut v, p);
    push_restrict(&mut v, p);
    push_last(&mut v, p, tty);
    proof {
        assert(Seq::<ChildStep>::empty() + enter_steps(*p) =~= enter_steps(*p));
        law_child_stages(*p, ready@, tty);
    }
    v
}

/// Whether the step leaves out no more than there is behind it, and nothing that must go well.
pub open spec fn spares(s: Seq<ChildStep>, i: int) -> bool {
    &&& i + 1 + s[i].skip_ok <= s.len()
    &&& i + 1 + s[i].skip_fail <= s.len()
    &&& forall|k: int|
        i < k && (k <= i + s[i].skip_ok || k <= i + s[i].skip_fail) ==> fatal_code(
            (#[trigger] s[k]).op,
        ) is None
}

/// Whether no step leaves out more than it may.
pub open spec fn tight(s: Seq<ChildStep>) -> bool {
    forall|i: int| 0 <= i < s.len() ==> #[trigger] spares(s, i)
}

/// Steps without gaps behind others stay so.
proof fn lemma_tight_concat(a: Seq<ChildStep>, b: Seq<ChildStep>)
    requires
        tight(a),
        tight(b),
    ensures
        tight(a + b),
{
    let s = a + b;
    assert forall|i: int| 0 <= i < s.len() implies #[trigger] spares(s, i) by {
        let n = a.len() as int;
        if i < n {
            assert(spares(a, i));
            assert(s[i] == a[i]);
            assert forall|k: int|
                i < k && (k <= i + s[i].skip_ok || k <= i + s[i].skip_fail) implies fatal_code(
                (#[trigger] s[k]).op,
            ) is None by {
                assert(s[k] == a[k]);
            }
        } else {
            assert(spares(b, i - n));
            assert(s[i] == b[i - n]);
            assert forall|k: int|
                i < k && (k <= i + s[i].skip_ok || k <= i + s[i].skip_fail) implies fatal_code(
                (#[trigger] s[k]).op,
            ) is None by {
                assert(s[k] == b[k - n]);
            }
        }
    }
}

/// Steps that are in the order of their stages, all between the two given.
pub open spec fn staged(s: Seq<ChildStep>, lo: int, hi: int) -> bool {
    &&& forall|i: int| 0 <= i < s.len() ==> lo <= stage((#[trigger] s[i]).op) <= hi
    &&& forall|i: int, j: int|
        0 <= i <= j < s.len() ==> stage((#[trigger] s[i]).op) <= stage((#[trigger] s[j]).op)
}

/// Steps of later stages behind steps of earlier ones.
proof fn lemma_behind(a: Seq<ChildStep>, b: Seq<ChildStep>, lo: int, k: int, l: int, hi: int)
    requires
        tight(a),
        tight(b),
        staged(a, lo, k),
        staged(b, l, hi),
        lo <= k <= l <= hi,
    ensures
        tight(a + b),
        staged(a + b, lo, hi),
{
    let s = a + b;
    lemma_tight_concat(a, b);
    assert forall|i: int| 0 <= i < s.len() implies lo <= stage((#[trigger] s[i]).op) <= hi by {
        if i < a.len() {
            assert(s[i] == a[i]);
        } else {
            assert(s[i] == b[i - a.len()]);
        }
    }
    assert forall|i: int, j: int| 0 <= i <= j < s.len() implies stage((#[trigger] s[i]).op)
        <= stage((#[trigger] s[j]).op) by {
        if j < a.len() {
            assert(s[i] == a[i] && s[j] == a[j]);
        } else if i < a.len() {
            assert(s[i] == a[i] && s[j] == b[j - a.len()]);
        } else {
            assert(s[i] == b[i - a.len()] && s[j] == b[j - a.len()]);
        }
    }
}

/// The steps for each of several things, all of one stage.
proof fn lemma_each(n: nat, f: spec_fn(int) -> Seq<ChildStep>, k: int)
    requires
        forall|i: int| 0 <= i < n ==> tight(#[trigger] f(i)) && staged(f(i), k, k),
    ensures
        tight(for_each(n, f)),
        staged(for_each(n, f), k, k),
    decreases n,
{
    if n > 0 {
        lemma_each((n - 1) as nat, f, k);
        assert(tight(f(n - 1)) && staged(f(n - 1), k, k));
        lemma_behind(for_each((n - 1) as nat, f), f(n - 1), k, k, k, k);
    }
}

/// The steps into the namespaces but for the fork, in their stages.
proof fn lemma_enter_head(p: CompiledPlan)
    ensures
        tight(
            when(
                p.wants_userns,
                seq![plain(ChildOp::AwaitIdMaps), plain(ChildOp::RootGid), plain(ChildOp::RootUid)],
            ) + for_each(p.join_namespaces@.len(), join_at()),
        ),
        staged(
            when(
                p.wants_userns,
                seq![plain(ChildOp::AwaitIdMaps), plain(ChildOp::RootGid), plain(ChildOp::RootUid)],
            ) + for_each(p.join_namespaces@.len(), join_at()),
            0,
            1,
        ),
{
    let s0 = when(
        p.wants_userns,
        seq![plain(ChildOp::AwaitIdMaps), plain(ChildOp::RootGid), plain(ChildOp::RootUid)],
    );
    assert(tight(s0) && staged(s0, 0, 0));
    lemma_each(p.join_namespaces@.len(), join_at(), 1);
    let x1 = for_each(p.join_namespaces@.len(), join_at());
    assert(tight(x1) && staged(x1, 1, 1));
    lemma_behind(s0, x1, 0, 0, 1, 1);
}

/// The steps into the namespaces, in their stages.
proof fn lemma_enter(p: CompiledPlan)
    ensures
        tight(enter_steps(p)),
        staged(enter_steps(p), 0, 2),
{
    lemma_enter_head(p);
    let s1 = when(
        p.wants_userns,
        seq![plain(ChildOp::AwaitIdMaps), plain(ChildOp::RootGid), plain(ChildOp::RootUid)],
    ) + for_each(p.join_namespaces@.len(), join_at());
    let x2 = when(joins_pid(p), one(ChildOp::ForkIntoPidNamespace));
    assert(tight(x2) && staged(x2, 2, 2));
    let s2 = s1 + x2;
    lemma_behind(s1, x2, 0, 1, 2, 2);
}

/// The steps into the root filesystem, in their stages.
proof fn lemma_root(p: CompiledPlan, ready: Seq<bool>)
    ensures
        tight(root_steps(p, ready)),
        staged(root_steps(p, ready), 3, 6),
{
    let s0 = one(ChildOp::MakePrivate);
    assert(tight(s0) && staged(s0, 3, 3));
    let x1 = one(ChildOp::BindRoot);
    assert(tight(x1) && staged(x1, 4, 4));
    let s1 = s0 + x1;
    lemma_behind(s0, x1, 3, 3, 4, 4);
    lemma_each(p.mounts@.len(), mount_at(p, ready), 5);
    let x2 = for_each(p.mounts@.len(), mount_at(p, ready));
    assert(tight(x2) && staged(x2, 5, 5));
    let s2 = s1 + x2;
    lemma_behind(s1, x2, 3, 4, 5, 5);
    let x3 = switch_steps(p);
    assert(tight(x3) && staged(x3, 6, 6));
    let s3 = s2 + x3;
    lemma_behind(s2, x3, 3, 5, 6, 6);
}

/// The steps that fit the container out, in their stages.
proof fn lemma_fit_out(p: CompiledPlan)
    ensures
        tight(fit_out_steps(p)),
        staged(fit_out_steps(p), 7, 19),
{
    let s0 = when(p.rootfs_propagation != 0, one(ChildOp::SetPropagation));
    assert(tight(s0) && staged(s0, 7, 7));
    let x1 = when(p.set_hostname, one(ChildOp::SetHostname));
    assert(tight(x1) && staged(x1, 8, 8));
    let s1 = s0 + x1;
    lemma_behind(s0, x1, 7, 7, 8, 8);
    lemma_each(p.ext.hooks.create_container@.len(), create_hook_at(), 9);
    let x2 = for_each(p.ext.hooks.create_container@.len(), create_hook_at());
    assert(tight(x2) && staged(x2, 9, 9));
    let s2 = s1 + x2;
    lemma_behind(s1, x2, 7, 8, 9, 9);
    let x3 = one(ChildOp::ClearUmask);
    assert(tight(x3) && staged(x3, 10, 10));
    let s3 = s2 + x3;
    lemma_behind(s2, x3, 7, 9, 10, 10);
    lemma_each(p.default_devices@.len(), device_at(p), 11);
    let x4 = for_each(p.default_devices@.len(), device_at(p));
    assert(tight(x4) && staged(x4, 11, 11));
    let s4 = s3 + x4;
    lemma_behind(s3, x4, 7, 10, 11, 11);
    let x5 = one(ChildOp::RestoreUmask);
    assert(tight(x5) && staged(x5, 12, 12));
    let s5 = s4 + x5;
    lemma_behind(s4, x5, 7, 11, 12, 12);
    lemma_each(p.default_symlinks@.len(), link_at(), 13);
    let x6 = for_each(p.default_symlinks@.len(), link_at());
    assert(tight(x6) && staged(x6, 13, 13));
    let s6 = s5 + x6;
    lemma_behind(s5, x6, 7, 12, 13, 13);
    lemma_each(p.masked_paths@.len(), mask_at(), 14);
    let x7 = for_each(p.masked_paths@.len(), mask_at());
    assert(tight(x7) && staged(x7, 14, 14));
    let s7 = s6 + x7;
    lemma_behind(s6, x7, 7, 13, 14, 14);
    lemma_each(p.readonly_paths@.len(), readonly_at(), 15);
    let x8 = for_each(p.readonly_paths@.len(), readonly_at());
    assert(tight(x8) && staged(x8, 15, 15));
    let s8 = s7 + x8;
    lemma_behind(s7, x8, 7, 14, 15, 15);
    let x9 = when(p.root_readonly, one(ChildOp::RootReadonly));
    assert(tight(x9) && staged(x9, 16, 16));
    let s9 = s8 + x9;
    lemma_behind(s8, x9, 7, 15, 16, 16);
    lemma_each(p.sysctls@.len(), sysctl_at(), 17);
    let x10 = for_each(p.sysctls@.len(), sysctl_at());
    assert(tight(x10) && staged(x10, 17, 17));
    let s10 = s9 + x10;
    lemma_behind(s9, x10, 7, 16, 17, 17);
    let x11 = one(ChildOp::Chdir);
    assert(tight(x11) && staged(x11, 18, 18));
    let s11 = s10 + x11;
    lemma_behind(s10, x11, 7, 17, 18, 18);
    let x12 = one(ChildOp::AwaitStart);
    assert(tight(x12) && staged(x12, 19, 19));
    let s12 = s11 + x12;
    lemma_behind(s11, x12, 7, 18, 19, 19);
}

/// The steps of the change of user.
proof fn lemma_user(p: CompiledPlan)
    ensures
        tight(when(p.user_uid != 0, user_steps(p))),
        staged(when(p.user_uid != 0, user_steps(p)), 25, 25),
{
    let a = seq![plain(ChildOp::KeepCaps), plain(ChildOp::SetUid)];
    let b = when(
        p.caps is Some,
        seq![
            plain(ChildOp::ReadCaps),
            plain(ChildOp::RestoreCaps),
            plain(ChildOp::RaiseAmbientAgain),
        ],
    );
    assert(tight(a) && staged(a, 25, 25));
    assert(tight(b) && staged(b, 25, 25));
    lemma_behind(a, b, 25, 25, 25, 25);
}

/// The steps of the limits, the groups and the capabilities.
proof fn lemma_restrict_front(p: CompiledPlan)
    ensures
        ({
            let x = for_each(p.rlimits@.len(), rlimit_at()) + when(
                p.user_additional_gids@.len() > 0,
                one(ChildOp::SetGroups),
            ) + when(p.user_umask is Some, one(ChildOp::SetUmask)) + when(
                p.caps is Some,
                cap_steps(),
            );
            tight(x) && staged(x, 20, 23)
        }),
{
    lemma_each(p.rlimits@.len(), rlimit_at(), 20);
    let s0 = for_each(p.rlimits@.len(), rlimit_at());
    let x1 = when(p.user_additional_gids@.len() > 0, one(ChildOp::SetGroups));
    assert(tight(x1) && staged(x1, 21, 21));
    lemma_behind(s0, x1, 20, 20, 21, 21);
    let x2 = when(p.user_umask is Some, one(ChildOp::SetUmask));
    assert(tight(x2) && staged(x2, 22, 22));
    lemma_behind(s0 + x1, x2, 20, 21, 22, 22);
    let x3 = when(p.caps is Some, cap_steps());
    assert(tight(x3) && staged(x3, 23, 23));
    lemma_behind(s0 + x1 + x2, x3, 20, 22, 23, 23);
}

/// The steps that restrict the process, in their stages.
proof fn lemma_restrict(p: CompiledPlan)
    ensures
        tight(restrict_steps(p)),
        staged(restrict_steps(p), 20, 27),
{
    lemma_restrict_front(p);
    let s3 = for_each(p.rlimits@.len(), rlimit_at()) + when(
        p.user_additional_gids@.len() > 0,
        one(ChildOp::SetGroups),
    ) + when(p.user_umask is Some, one(ChildOp::SetUmask)) + when(p.caps is Some, cap_steps());
    let x4 = when(p.user_gid != 0, one(ChildOp::SetGid));
    assert(tight(x4) && staged(x4, 24, 24));
    lemma_behind(s3, x4, 20, 23, 24, 24);
    let x5 = when(p.user_uid != 0, user_steps(p));
    lemma_user(p);
    lemma_behind(s3 + x4, x5, 20, 24, 25, 25);
    let x6 = when(p.no_new_privileges, one(ChildOp::NoNewPrivs));
    assert(tight(x6) && staged(x6, 26, 26));
    lemma_behind(s3 + x4 + x5, x6, 20, 25, 26, 26);
    let x7 = when(p.ext.seccomp_bpf@.len() > 0, one(ChildOp::InstallSeccomp));
    assert(tight(x7) && staged(x7, 27, 27));
    lemma_behind(s3 + x4 + x5 + x6, x7, 20, 26, 27, 27);
}

/// What is between the restrictions and the program.
pub open spec fn before_program(p: CompiledPlan, tty: bool) -> Seq<ChildStep> {
    when(tty, terminal_steps()) + for_each(
        p.ext.hooks.start_container@.len(),
        start_hook_at(),
    ) + when(p.apparmor_profile is Some, apparmor_steps()) + when(
        p.selinux_label is Some,
        selinux_steps(),
    )
}

/// The steps between the restrictions and the program, in their stages.
proof fn lemma_before_exec(p: CompiledPlan, tty: bool)
    ensures
        tight(before_program(p, tty)),
        staged(before_program(p, tty), 28, 31),
{
    let s0 = when(tty, terminal_steps());
    assert(tight(s0) && staged(s0, 28, 28));
    lemma_each(p.ext.hooks.start_container@.len(), start_hook_at(), 29);
    let x1 = for_each(p.ext.hooks.start_container@.len(), start_hook_at());
    lemma_behind(s0, x1, 28, 28, 29, 29);
    let s1 = s0 + x1;
    let x2 = when(p.apparmor_profile is Some, apparmor_steps());
    assert(tight(x2) && staged(x2, 30, 30));
    lemma_behind(s1, x2, 28, 29, 30, 30);
    let s2 = s1 + x2;
    let x3 = when(p.selinux_label is Some, selinux_steps());
    assert(tight(x3) && staged(x3, 31, 31));
    lemma_behind(s2, x3, 28, 30, 31, 31);
}

/// The steps up to the program, in their stages.
proof fn lemma_last(p: CompiledPlan, tty: bool)
    ensures
        tight(last_steps(p, tty)),
        staged(last_steps(p, tty), 28, 33),
{
    let x = one(exec_op(p));
    assert(tight(x) && staged(x, 32, 33));
    lemma_before_exec(p, tty);
    lemma_behind(before_program(p, tty), x, 28, 31, 32, 33);
}

/// The steps up to the restrictions.
proof fn lemma_before_last(p: CompiledPlan, ready: Seq<bool>)
    ensures
        ({
            let x = enter_steps(p) + root_steps(p, ready) + fit_out_steps(p) + restrict_steps(p);
            tight(x) && staged(x, 0, 27)
        }),
{
    lemma_enter(p);
    lemma_root(p, ready);
    lemma_fit_out(p);
    lemma_restrict(p);
    let a = enter_steps(p) + root_steps(p, ready);
    lemma_behind(enter_steps(p), root_steps(p, ready), 0, 2, 3, 6);
    let b = a + fit_out_steps(p);
    lemma_behind(a, fit_out_steps(p), 0, 6, 7, 19);
    lemma_behind(b, restrict_steps(p), 0, 19, 20, 27);
}

/// The process sets itself up stage after stage: namespaces, mounts, the new root, the wait for
/// `start`; then groups, capabilities, user, no-new-privileges and seccomp; then the security
/// labels; and the program last of all.
pub proof fn law_child_stages(p: CompiledPlan, ready: Seq<bool>, tty: bool)
    ensures
        staged(child_steps(p, ready, tty), 0, 33),
        tight(child_steps(p, ready, tty)),
{
    lemma_before_last(p, ready);
    lemma_last(p, tty);
    let c = enter_steps(p) + root_steps(p, ready) + fit_out_steps(p) + restrict_steps(p);
    lemma_behind(c, last_steps(p, tty), 0, 27, 28, 33);
}

/// Why a step failed.
#[derive(Debug, Clone, Copy, PartialEq, Eq, Structural)]
pub enum Cause {
    /// The call of the step returned an error.
    Call,
    /// The pipe for the id maps was closed with nothing in it.
    PipeClosed,
    /// Waiting on the fifo failed.
    Poll,
    /// No process could be made for a hook.
    HookFork,
    /// A hook took too long and was killed.
    HookTimeout,
    /// Waiting on a hook with a timeout failed.
    HookPoll,
    /// Waiting on a hook failed.
    HookWait,
    /// A hook exited with another code than zero.
    HookExit,
    /// A hook was ended by a signal.
    HookSignal,
}

/// How a step went.
#[derive(Debug, Clone, Copy, PartialEq, Eq, Structural)]
pub enum StepOutcome {
    Done,
    Failed(Cause),
}

/// The exit code a failure ends the process with, if it does.
pub open spec fn death_code(op: ChildOp, cause: Cause) -> Option<i32> {
    match cause {
        Cause::Call => fatal_code(op),
        Cause::PipeClosed => Some(110i32),
        Cause::Poll => Some(107i32),
        Cause::HookFork => Some(113i32),
        Cause::HookTimeout => Some(116i32),
        Cause::HookPoll => Some(114i32),
        Cause::HookWait => Some(114i32),
        Cause::HookExit => Some(115i32),
        Cause::HookSignal => Some(115i32),
    }
}

/// The reason left behind.
pub open spec fn death_reason(op: ChildOp, cause: Cause) -> Seq<char> {
    match cause {
        Cause::Call => fatal_reason(op),
        Cause::PipeClosed => "userns sync pipe closed before write"@,
        Cause::Poll => "poll fifo failed"@,
        Cause::HookFork => "hook fork failed"@,
        Cause::HookTimeout => "hook timeout, killed"@,
        Cause::HookPoll => "hook poll failed"@,
        Cause::HookWait => "hook waitpid failed"@,
        Cause::HookExit => "hook exited nonzero"@,
        Cause::HookSignal => "hook killed by signal"@,
    }
}

/// The reason of a failure.
pub fn reason_of(op: ChildOp, cause: Cause) -> (s: &'static str)
    ensures
        s@ == death_reason(op, cause),
{
    match cause {
        Cause::Call => failure_reason(op),
        Cause::PipeClosed => "userns sync pipe closed before write",
        Cause::Poll => "poll fifo failed",
        Cause::HookFork => "hook fork failed",
        Cause::HookTimeout => "hook timeout, killed",
        Cause::HookPoll => "hook poll failed",
        Cause::HookWait => "hook waitpid failed",
        Cause::HookExit => "hook exited nonzero",
        Cause::HookSignal => "hook killed by signal",
    }
}

/// Where the process is after a step.
#[derive(Debug, Clone, Copy, PartialEq, Eq, Structural)]
pub enum ChildNext {
    /// At the step with this number.
    At(usize),
    /// It ends with this code.
    Die(i32),
}

/// Where the process is after the step at `pc`.
pub open spec fn step_after(s: Seq<ChildStep>, pc: int, out: StepOutcome) -> ChildNext {
    match out {
        StepOutcome::Done => ChildNext::At((pc + 1 + s[pc].skip_ok) as usize),
        StepOutcome::Failed(cause) => match death_code(s[pc].op, cause) {
            Some(c) => ChildNext::Die(c),
            None => ChildNext::At((pc + 1 + s[pc].skip_fail) as usize),
        },
    }
}

/// Decides what comes after the step at `pc`.
pub fn next_step(s: &Vec<ChildStep>, pc: usize, out: StepOutcome) -> (n: ChildNext)
    requires
        tight(s@),
        pc < s@.len(),
    ensures
        n == step_after(s@, pc as int, out),
        n is At ==> pc < n->At_0 <= s@.len(),
{
    let len: usize = s.len();
    proof {
        assert(spares(s@, pc as int));
        assert(s@.len() == len);
    }
    let step = s[pc];
    match out {
        StepOutcome::Done => ChildNext::At(pc + 1 + step.skip_ok),
        StepOutcome::Failed(cause) => {
            let code = match cause {
                Cause::Call => failure_code(step.op),
                Cause::PipeClosed => Some(110i32),
                Cause::Poll => Some(107i32),
                Cause::HookFork => Some(113i32),
                Cause::HookTimeout => Some(116i32),
                Cause::HookPoll => Some(114i32),
                Cause::HookWait => Some(114i32),
                Cause::HookExit => Some(115i32),
                Cause::HookSignal => Some(115i32),
            };
            match code {
                Some(c) => ChildNext::Die(c),
                None => ChildNext::At(pc + 1 + step.skip_fail),
            }
        },
    }
}

/// Whether the process gets from the step at `pc` to the step at `goal`, where the step at `i` goes
/// as `out(i)` says.
pub open spec fn arrives(
    s: Seq<ChildStep>,
    out: spec_fn(int) -> StepOutcome,
    pc: int,
    goal: int,
) -> bool
    decreases
            if pc < s.len() {
                s.len() - pc
            } else {
                0
            },
{
    if pc == goal {
        true
    } else if pc < 0 || pc >= s.len() || pc > goal {
        false
    } else {
        match step_after(s, pc, out(pc)) {
            ChildNext::Die(_) => false,
            ChildNext::At(q) => q > pc && arrives(s, out, q as int, goal),
        }
    }
}

/// A step on the way whose failure is fatal went well.
proof fn lemma_no_way_round(
    s: Seq<ChildStep>,
    out: spec_fn(int) -> StepOutcome,
    pc: int,
    goal: int,
    i: int,
)
    requires
        tight(s),
        s.len() <= usize::MAX,
        0 <= pc <= i < goal < s.len(),
        fatal_code(s[i].op) is Some,
        arrives(s, out, pc, goal),
    ensures
        out(i) is Done,
    decreases s.len() - pc,
{
    assert(spares(s, pc));
    if pc < i {
        match step_after(s, pc, out(pc)) {
            ChildNext::Die(_) => {},
            ChildNext::At(q) => {
                if q > i {
                    assert(fatal_code(s[i].op) is None);
                }
                lemma_no_way_round(s, out, q as int, goal, i);
            },
        }
    } else {
        assert(out(i) is Failed ==> death_code(s[i].op, out(i)->Failed_0) is Some);
    }
}

/// The program is executed only where every step that must not fail went well: nothing on the way
/// leaves such a step out, and none of them fails without ending the process. So a container whose
/// namespaces, root, capabilities, user, system call filter or security label could not be set up
/// never runs its program.
pub proof fn law_no_program_without_setup(
    p: CompiledPlan,
    ready: Seq<bool>,
    tty: bool,
    out: spec_fn(int) -> StepOutcome,
    i: int,
)
    requires
        child_steps(p, ready, tty).len() <= usize::MAX,
        0 <= i < child_steps(p, ready, tty).len() - 1,
        fatal_code(child_steps(p, ready, tty)[i].op) is Some,
        arrives(
            child_steps(p, ready, tty),
            out,
            0,
            child_steps(p, ready, tty).len() - 1,
        ),
    ensures
        out(i) is Done,
{
    let s = child_steps(p, ready, tty);
    law_child_stages(p, ready, tty);
    lemma_no_way_round(s, out, 0, s.len() - 1, i);
}

/// Before the program.
proof fn lemma_all_before(p: CompiledPlan, ready: Seq<bool>, tty: bool) -> (d: Seq<ChildStep>)
    ensures
        child_steps(p, ready, tty) == d + one(exec_op(p)),
        staged(d, 0, 31),
{
    let x = before_program(p, tty);
    lemma_before_last(p, ready);
    lemma_before_exec(p, tty);
    let c = enter_steps(p) + root_steps(p, ready) + fit_out_steps(p) + restrict_steps(p);
    lemma_behind(c, x, 0, 27, 28, 31);
    lemma_assoc(c, x, one(exec_op(p)));
    c + x
}

/// The last step is the program, and no other is.
pub proof fn law_program_last(p: CompiledPlan, ready: Seq<bool>, tty: bool)
    ensures
        child_steps(p, ready, tty).len() > 0,
        child_steps(p, ready, tty).last().op == exec_op(p),
        forall|i: int|
            0 <= i < child_steps(p, ready, tty).len() - 1 ==> (#[trigger] child_steps(
                p,
                ready,
                tty,
            )[i]).op != ChildOp::Exec && child_steps(p, ready, tty)[i].op
                != ChildOp::RequireCommand,
{
    let s = child_steps(p, ready, tty);
    let d = lemma_all_before(p, ready, tty);
    assert forall|i: int| 0 <= i < s.len() - 1 implies (#[trigger] s[i]).op != ChildOp::Exec
        && s[i].op != ChildOp::RequireCommand by {
        assert(s[i] == d[i]);
        assert(stage(d[i].op) <= 31);
    }
}

/// Whether a step is among the steps.
pub open spec fn has_op(s: Seq<ChildStep>, op: ChildOp) -> bool {
    exists|i: int| 0 <= i < s.len() && (#[trigger] s[i]).op == op
}

/// A step that is among some is among these and others.
proof fn lemma_has(a: Seq<ChildStep>, b: Seq<ChildStep>, op: ChildOp)
    ensures
        has_op(a, op) ==> has_op(a + b, op),
        has_op(b, op) ==> has_op(a + b, op),
{
    let s = a + b;
    if has_op(a, op) {
        let i = choose|i: int| 0 <= i < a.len() && (#[trigger] a[i]).op == op;
        assert(s[i].op == op);
    }
    if has_op(b, op) {
        let i = choose|i: int| 0 <= i < b.len() && (#[trigger] b[i]).op == op;
        assert(s[a.len() + i].op == op);
    }
}

/// What the plan asks to be taken away is among the steps.
pub proof fn law_restrictions_laid_out(p: CompiledPlan, ready: Seq<bool>, tty: bool)
    ensures
        p.caps is Some ==> has_op(child_steps(p, ready, tty), ChildOp::SetCaps),
        p.user_gid != 0 ==> has_op(child_steps(p, ready, tty), ChildOp::SetGid),
        p.user_uid != 0 ==> has_op(child_steps(p, ready, tty), ChildOp::SetUid),
        p.no_new_privileges ==> has_op(child_steps(p, ready, tty), ChildOp::NoNewPrivs),
        p.ext.seccomp_bpf@.len() > 0 ==> has_op(
            child_steps(p, ready, tty),
            ChildOp::InstallSeccomp,
        ),
        p.apparmor_profile is Some ==> has_op(child_steps(p, ready, tty), ChildOp::WriteAppArmor),
        p.selinux_label is Some ==> has_op(child_steps(p, ready, tty), ChildOp::WriteSelinux),
        p.root_readonly ==> has_op(child_steps(p, ready, tty), ChildOp::RootReadonly),
{
    lemma_restrict_has(p, ChildOp::SetCaps);
    lemma_restrict_has(p, ChildOp::SetGid);
    lemma_restrict_has(p, ChildOp::SetUid);
    lemma_restrict_has(p, ChildOp::NoNewPrivs);
    lemma_restrict_has(p, ChildOp::InstallSeccomp);
    lemma_steps_have(p, ready, tty, ChildOp::SetCaps);
    lemma_steps_have(p, ready, tty, ChildOp::SetGid);
    lemma_steps_have(p, ready, tty, ChildOp::SetUid);
    lemma_steps_have(p, ready, tty, ChildOp::NoNewPrivs);
    lemma_steps_have(p, ready, tty, ChildOp::InstallSeccomp);
    lemma_steps_have(p, ready, tty, ChildOp::WriteAppArmor);
    lemma_steps_have(p, ready, tty, ChildOp::WriteSelinux);
    lemma_steps_have(p, ready, tty, ChildOp::RootReadonly);
    lemma_last_has(p, tty, ChildOp::WriteAppArmor);
    lemma_last_has(p, tty, ChildOp::WriteSelinux);
    lemma_fit_out_has(p, ChildOp::RootReadonly);
}

/// The process is the container's first one, unless a pid namespace is joined: only then it forks
/// once more, and no more than once.
pub proof fn law_fork_only_for_pid_namespace(p: CompiledPlan, ready: Seq<bool>, tty: bool)
    ensures
        has_op(child_steps(p, ready, tty), ChildOp::ForkIntoPidNamespace) == joins_pid(p),
        forall|i: int, j: int|
            0 <= i < child_steps(p, ready, tty).len() && 0 <= j < child_steps(p, ready, tty).len()
                && (#[trigger] child_steps(p, ready, tty)[i]).op == ChildOp::ForkIntoPidNamespace
                && (#[trigger] child_steps(p, ready, tty)[j]).op == ChildOp::ForkIntoPidNamespace
                ==> i == j,
{
    let s = child_steps(p, ready, tty);
    let e = enter_steps(p);
    let head = when(
        p.wants_userns,
        seq![plain(ChildOp::AwaitIdMaps), plain(ChildOp::RootGid), plain(ChildOp::RootUid)],
    ) + for_each(p.join_namespaces@.len(), join_at());
    let tail = when(joins_pid(p), one(ChildOp::ForkIntoPidNamespace));
    let n = head.len() as int;
    law_child_stages(p, ready, tty);
    lemma_enter_head(p);
    assert(e == head + tail);
    assert(root_steps(p, ready)[0].op == ChildOp::MakePrivate);
    assert(s[e.len() as int] == root_steps(p, ready)[0]);
    assert forall|i: int| 0 <= i < s.len() && (#[trigger] s[i]).op
        == ChildOp::ForkIntoPidNamespace implies i == n && joins_pid(p) by {
        if i >= e.len() {
            assert(stage(s[e.len() as int].op) <= stage(s[i].op));
        } else {
            assert(s[i] == e[i]);
            if i < n {
                assert(e[i] == head[i]);
            } else {
                assert(e[i] == tail[i - n]);
            }
        }
    }
    if joins_pid(p) {
        assert(s[n] == e[n]);
        assert(e[n] == tail[0]);
    }
}

/// A step of one of the later groups is a step of all.
proof fn lemma_steps_have(p: CompiledPlan, ready: Seq<bool>, tty: bool, op: ChildOp)
    ensures
        has_op(fit_out_steps(p), op) || has_op(restrict_steps(p), op) || has_op(
            last_steps(p, tty),
            op,
        ) ==> has_op(child_steps(p, ready, tty), op),
{
    let a = enter_steps(p) + root_steps(p, ready);
    lemma_has(a, fit_out_steps(p), op);
    lemma_has(a + fit_out_steps(p), restrict_steps(p), op);
    lemma_has(a + fit_out_steps(p) + restrict_steps(p), last_steps(p, tty), op);
}

/// The steps of the restrictions.
proof fn lemma_restrict_has(p: CompiledPlan, op: ChildOp)
    ensures
        p.caps is Some && op == ChildOp::SetCaps ==> has_op(restrict_steps(p), op),
        p.user_gid != 0 && op == ChildOp::SetGid ==> has_op(restrict_steps(p), op),
        p.user_uid != 0 && op == ChildOp::SetUid ==> has_op(restrict_steps(p), op),
        p.no_new_privileges && op == ChildOp::NoNewPrivs ==> has_op(restrict_steps(p), op),
        p.ext.seccomp_bpf@.len() > 0 && op == ChildOp::InstallSeccomp ==> has_op(
            restrict_steps(p),
            op,
        ),
{
    let s0 = for_each(p.rlimits@.len(), rlimit_at()) + when(
        p.user_additional_gids@.len() > 0,
        one(ChildOp::SetGroups),
    ) + when(p.user_umask is Some, one(ChildOp::SetUmask));
    let x1 = when(p.caps is Some, cap_steps());
    let x2 = when(p.user_gid != 0, one(ChildOp::SetGid));
    let x3 = when(p.user_uid != 0, user_steps(p));
    let x4 = when(p.no_new_privileges, one(ChildOp::NoNewPrivs));
    let x5 = when(p.ext.seccomp_bpf@.len() > 0, one(ChildOp::InstallSeccomp));
    if p.caps is Some {
        assert(x1[1].op == ChildOp::SetCaps);
    }
    if p.user_gid != 0 {
        assert(x2[0].op == ChildOp::SetGid);
    }
    if p.user_uid != 0 {
        assert(x3[1].op == ChildOp::SetUid);
    }
    if p.no_new_privileges {
        assert(x4[0].op == ChildOp::NoNewPrivs);
    }
    if p.ext.seccomp_bpf@.len() > 0 {
        assert(x5[0].op == ChildOp::InstallSeccomp);
    }
    lemma_has(s0, x1, op);
    lemma_has(s0 + x1, x2, op);
    lemma_has(s0 + x1 + x2, x3, op);
    lemma_has(s0 + x1 + x2 + x3, x4, op);
    lemma_has(s0 + x1 + x2 + x3 + x4, x5, op);
}

/// The steps before the program.
proof fn lemma_last_has(p: CompiledPlan, tty: bool, op: ChildOp)
    ensures
        p.apparmor_profile is Some && op == ChildOp::WriteAppArmor ==> has_op(
            last_steps(p, tty),
            op,
        ),
        p.selinux_label is Some && op == ChildOp::WriteSelinux ==> has_op(last_steps(p, tty), op),
{
    let s0 = when(tty, terminal_steps()) + for_each(
        p.ext.hooks.start_container@.len(),
        start_hook_at(),
    );
    let x1 = when(p.apparmor_profile is Some, apparmor_steps());
    let x2 = when(p.selinux_label is Some, selinux_steps());
    if p.apparmor_profile is Some {
        assert(x1[2].op == ChildOp::WriteAppArmor);
    }
    if p.selinux_label is Some {
        assert(x2[1].op == ChildOp::WriteSelinux);
    }
    lemma_has(s0, x1, op);
    lemma_has(s0 + x1, x2, op);
    lemma_has(s0 + x1 + x2, one(exec_op(p)), op);
}

/// The steps that fit the root filesystem out.
proof fn lemma_fit_out_has(p: CompiledPlan, op: ChildOp)
    ensures
        p.root_readonly && op == ChildOp::RootReadonly ==> has_op(fit_out_steps(p), op),
{
    let s0 = when(p.rootfs_propagation != 0, one(ChildOp::SetPropagation)) + when(
        p.set_hostname,
        one(ChildOp::SetHostname),
    ) + for_each(p.ext.hooks.create_container@.len(), create_hook_at()) + one(ChildOp::ClearUmask)
        + for_each(p.default_devices@.len(), device_at(p)) + one(ChildOp::RestoreUmask) + for_each(
        p.default_symlinks@.len(),
        link_at(),
    ) + for_each(p.masked_paths@.len(), mask_at()) + for_each(
        p.readonly_paths@.len(),
        readonly_at(),
    );
    let x1 = when(p.root_readonly, one(ChildOp::RootReadonly));
    let x2 = for_each(p.sysctls@.len(), sysctl_at());
    if p.root_readonly {
        assert(x1[0].op == ChildOp::RootReadonly);
    }
    lemma_has(s0, x1, op);
    lemma_has(s0 + x1, x2, op);
    lemma_has(s0 + x1 + x2, one(ChildOp::Chdir), op);
    lemma_has(s0 + x1 + x2 + one(ChildOp::Chdir), one(ChildOp::AwaitStart), op);
}

/// What is among no steps, one, two and three.
proof fn lemma_few(a: ChildStep, b: ChildStep, c: ChildStep, x: ChildStep)
    ensures
        !Seq::<ChildStep>::empty().contains(x),
        seq![a].contains(x) <==> x == a,
        seq![a, b].contains(x) <==> x == a || x == b,
        seq![a, b, c].contains(x) <==> x == a || x == b || x == c,
{
    assert(seq![a][0] == a);
    assert(seq![a, b][0] == a && seq![a, b][1] == b);
    assert(seq![a, b, c][0] == a && seq![a, b, c][1] == b && seq![a, b, c][2] == c);
}

/// What is among steps that are taken for each of some things.
proof fn lemma_each_has(n: nat, f: spec_fn(int) -> Seq<ChildStep>, x: ChildStep)
    ensures
        for_each(n, f).contains(x) <==> exists|i: int| 0 <= i < n && (#[trigger] f(i)).contains(x),
    decreases n,
{
    if n > 0 {
        let m = (n - 1) as nat;
        lemma_each_has(m, f, x);
        steps::lemma_sum_has(for_each(m, f), f(n - 1), x);
        if for_each(n, f).contains(x) {
            if for_each(m, f).contains(x) {
                let i = choose|i: int| 0 <= i < m && (#[trigger] f(i)).contains(x);
                assert(f(i).contains(x));
            } else {
                assert(f(n - 1).contains(x));
            }
        }
        if exists|i: int| 0 <= i < n && (#[trigger] f(i)).contains(x) {
            let i = choose|i: int| 0 <= i < n && (#[trigger] f(i)).contains(x);
            if i < m {
                assert(f(i).contains(x));
            }
        }
    } else {
        assert(!Seq::<ChildStep>::empty().contains(x));
    }
}

/// The steps that join namespaces.
proof fn lemma_joins_have(p: CompiledPlan, x: ChildStep)
    requires
        p.join_namespaces@.len() <= usize::MAX,
    ensures
        for_each(p.join_namespaces@.len(), join_at()).contains(x) <==> match x.op {
            ChildOp::OpenNamespace(i) => i < p.join_namespaces@.len() && x.skip_ok == 0 && x.skip_fail == 0,
            ChildOp::CheckNamespace(i) => i < p.join_namespaces@.len() && x.skip_ok == 0 && x.skip_fail == 0,
            ChildOp::EnterNamespace(i) => i < p.join_namespaces@.len() && x.skip_ok == 0 && x.skip_fail == 0,
            _ => false,
        },
{
    let f = join_at();
    lemma_each_has(p.join_namespaces@.len(), f, x);
    if exists|i: int| 0 <= i < p.join_namespaces@.len() && (#[trigger] f(i)).contains(x) {
        let i = choose|i: int| 0 <= i < p.join_namespaces@.len() && (#[trigger] f(i)).contains(x);
        lemma_few(plain(ChildOp::OpenNamespace(i as usize)), plain(ChildOp::CheckNamespace(i as usize)), plain(ChildOp::EnterNamespace(i as usize)), x);
    }
    match x.op {
        ChildOp::OpenNamespace(i) => {
            let i = i as int;
            if i < p.join_namespaces@.len() && x.skip_ok == 0 && x.skip_fail == 0 {
                lemma_few(plain(ChildOp::OpenNamespace(i as usize)), plain(ChildOp::CheckNamespace(i as usize)), plain(ChildOp::EnterNamespace(i as usize)), x);
                assert(f(i).contains(x));
            }
        },
        ChildOp::CheckNamespace(i) => {
            let i = i as int;
            if i < p.join_namespaces@.len() && x.skip_ok == 0 && x.skip_fail == 0 {
                lemma_few(plain(ChildOp::OpenNamespace(i as usize)), plain(ChildOp::CheckNamespace(i as usize)), plain(ChildOp::EnterNamespace(i as usize)), x);
                assert(f(i).contains(x));
            }
        },
        ChildOp::EnterNamespace(i) => {
            let i = i as int;
            if i < p.join_namespaces@.len() && x.skip_ok == 0 && x.skip_fail == 0 {
                lemma_few(plain(ChildOp::OpenNamespace(i as usize)), plain(ChildOp::CheckNamespace(i as usize)), plain(ChildOp::EnterNamespace(i as usize)), x);
                assert(f(i).contains(x));
            }
        },
        _ => {},
    }
}

/// The steps of the mounts.
proof fn lemma_mounts_have(p: CompiledPlan, ready: Seq<bool>, x: ChildStep)
    requires
        p.mounts@.len() <= usize::MAX,
    ensures
        for_each(p.mounts@.len(), mount_at(p, ready)).contains(x) <==> match x.op {
            ChildOp::MakeMountPoint(i) => i < p.mounts@.len() && x.skip_ok == 0 && x.skip_fail == 0,
            ChildOp::IdmapMount(i) => i < p.mounts@.len() && idmapped(p, ready, i as int)
                && x.skip_ok == 0 && x.skip_fail == 0,
            ChildOp::Mount(i) => i < p.mounts@.len() && !idmapped(p, ready, i as int) && x.skip_ok
                == 0 && x.skip_fail == 0,
            _ => false,
        },
{
    let n = p.mounts@.len();
    let f = mount_at(p, ready);
    lemma_each_has(n, f, x);
    if exists|i: int| 0 <= i < n && (#[trigger] f(i)).contains(x) {
        let i = choose|i: int| 0 <= i < n && (#[trigger] f(i)).contains(x);
        lemma_few(f(i)[0], f(i)[1], f(i)[1], x);
        assert(f(i) =~= seq![f(i)[0], f(i)[1]]);
    }
    match x.op {
        ChildOp::MakeMountPoint(i) => {
            if i < n && x.skip_ok == 0 && x.skip_fail == 0 {
                let i = i as int;
                lemma_few(f(i)[0], f(i)[1], f(i)[1], x);
                assert(f(i) =~= seq![f(i)[0], f(i)[1]]);
                assert(f(i).contains(x));
            }
        },
        ChildOp::IdmapMount(i) => {
            if i < n && idmapped(p, ready, i as int) && x.skip_ok == 0 && x.skip_fail == 0 {
                let i = i as int;
                lemma_few(f(i)[0], f(i)[1], f(i)[1], x);
                assert(f(i) =~= seq![f(i)[0], f(i)[1]]);
                assert(f(i).contains(x));
            }
        },
        ChildOp::Mount(i) => {
            if i < n && !idmapped(p, ready, i as int) && x.skip_ok == 0 && x.skip_fail == 0 {
                let i = i as int;
                lemma_few(f(i)[0], f(i)[1], f(i)[1], x);
                assert(f(i) =~= seq![f(i)[0], f(i)[1]]);
                assert(f(i).contains(x));
            }
        },
        _ => {},
    }
}

/// Whether a device is one that can be made.
spec fn makes_device(p: CompiledPlan, i: int) -> bool {
    p.default_devices@[i].kind == 'c' || p.default_devices@[i].kind == 'b'
}

/// The steps of the devices.
proof fn lemma_devices_have(p: CompiledPlan, x: ChildStep)
    requires
        p.default_devices@.len() <= usize::MAX,
    ensures
        for_each(p.default_devices@.len(), device_at(p)).contains(x) <==> match x.op {
            ChildOp::MakeDevice(i) => i < p.default_devices@.len() && makes_device(p, i as int)
                && x.skip_ok == 0 && x.skip_fail == 1,
            ChildOp::ChmodDevice(i) => i < p.default_devices@.len() && makes_device(p, i as int)
                && x.skip_ok == 2 && x.skip_fail == 2,
            ChildOp::TouchDevice(i) => i < p.default_devices@.len() && makes_device(p, i as int)
                && x.skip_ok == 0 && x.skip_fail == 0,
            ChildOp::BindDevice(i) => i < p.default_devices@.len() && makes_device(p, i as int)
                && x.skip_ok == 0 && x.skip_fail == 0,
            _ => false,
        },
{
    let n = p.default_devices@.len();
    let f = device_at(p);
    lemma_each_has(n, f, x);
    assert forall|i: int| 0 <= i < n implies ((#[trigger] f(i)).contains(x) <==> makes_device(p, i)
        && (x == ChildStep { op: ChildOp::MakeDevice(i as usize), skip_ok: 0, skip_fail: 1 } || x
        == ChildStep { op: ChildOp::ChmodDevice(i as usize), skip_ok: 2, skip_fail: 2 } || x
        == plain(ChildOp::TouchDevice(i as usize)) || x == plain(
        ChildOp::BindDevice(i as usize),
    ))) by {
        let s = f(i);
        if makes_device(p, i) {
            assert(s.len() == 4);
            assert(s[0] == ChildStep {
                op: ChildOp::MakeDevice(i as usize),
                skip_ok: 0,
                skip_fail: 1,
            });
            assert(s[1] == ChildStep {
                op: ChildOp::ChmodDevice(i as usize),
                skip_ok: 2,
                skip_fail: 2,
            });
            assert(s[2] == plain(ChildOp::TouchDevice(i as usize)));
            assert(s[3] == plain(ChildOp::BindDevice(i as usize)));
        }
    }
    match x.op {
        ChildOp::MakeDevice(i) => {
            if i < n && makes_device(p, i as int) && x.skip_ok == 0 && x.skip_fail == 1 {
                assert(f(i as int).contains(x));
            }
        },
        ChildOp::ChmodDevice(i) => {
            if i < n && makes_device(p, i as int) && x.skip_ok == 2 && x.skip_fail == 2 {
                assert(f(i as int).contains(x));
            }
        },
        ChildOp::TouchDevice(i) => {
            if i < n && makes_device(p, i as int) && x.skip_ok == 0 && x.skip_fail == 0 {
                assert(f(i as int).contains(x));
            }
        },
        ChildOp::BindDevice(i) => {
            if i < n && makes_device(p, i as int) && x.skip_ok == 0 && x.skip_fail == 0 {
                assert(f(i as int).contains(x));
            }
        },
        _ => {},
    }
}

/// The steps of the links.
proof fn lemma_links_have(p: CompiledPlan, x: ChildStep)
    requires
        p.default_symlinks@.len() <= usize::MAX,
    ensures
        for_each(p.default_symlinks@.len(), link_at()).contains(x) <==> match x.op {
            ChildOp::UnlinkDev(i) => i < p.default_symlinks@.len() && x.skip_ok == 0 && x.skip_fail == 0,
            ChildOp::LinkDev(i) => i < p.default_symlinks@.len() && x.skip_ok == 0 && x.skip_fail == 0,
            _ => false,
        },
{
    let f = link_at();
    lemma_each_has(p.default_symlinks@.len(), f, x);
    if exists|i: int| 0 <= i < p.default_symlinks@.len() && (#[trigger] f(i)).contains(x) {
        let i = choose|i: int| 0 <= i < p.default_symlinks@.len() && (#[trigger] f(i)).contains(x);
        lemma_few(plain(ChildOp::UnlinkDev(i as usize)), plain(ChildOp::LinkDev(i as usize)), plain(ChildOp::LinkDev(i as usize)), x);
    }
    match x.op {
        ChildOp::UnlinkDev(i) => {
            let i = i as int;
            if i < p.default_symlinks@.len() && x.skip_ok == 0 && x.skip_fail == 0 {
                lemma_few(plain(ChildOp::UnlinkDev(i as usize)), plain(ChildOp::LinkDev(i as usize)), plain(ChildOp::LinkDev(i as usize)), x);
                assert(f(i).contains(x));
            }
        },
        ChildOp::LinkDev(i) => {
            let i = i as int;
            if i < p.default_symlinks@.len() && x.skip_ok == 0 && x.skip_fail == 0 {
                lemma_few(plain(ChildOp::UnlinkDev(i as usize)), plain(ChildOp::LinkDev(i as usize)), plain(ChildOp::LinkDev(i as usize)), x);
                assert(f(i).contains(x));
            }
        },
        _ => {},
    }
}

/// The steps that hide paths.
proof fn lemma_masks_have(p: CompiledPlan, x: ChildStep)
    requires
        p.masked_paths@.len() <= usize::MAX,
    ensures
        for_each(p.masked_paths@.len(), mask_at()).contains(x) <==> match x.op {
            ChildOp::MaskFile(i) => i < p.masked_paths@.len() && x.skip_ok == 1 && x.skip_fail == 0,
            ChildOp::MaskDir(i) => i < p.masked_paths@.len() && x.skip_ok == 0 && x.skip_fail == 0,
            _ => false,
        },
{
    let f = mask_at();
    lemma_each_has(p.masked_paths@.len(), f, x);
    if exists|i: int| 0 <= i < p.masked_paths@.len() && (#[trigger] f(i)).contains(x) {
        let i = choose|i: int| 0 <= i < p.masked_paths@.len() && (#[trigger] f(i)).contains(x);
        lemma_few(ChildStep { op: ChildOp::MaskFile(i as usize), skip_ok: 1, skip_fail: 0 }, plain(ChildOp::MaskDir(i as usize)), plain(ChildOp::MaskDir(i as usize)), x);
    }
    match x.op {
        ChildOp::MaskFile(i) => {
            let i = i as int;
            if i < p.masked_paths@.len() && x.skip_ok == 1 && x.skip_fail == 0 {
                lemma_few(ChildStep { op: ChildOp::MaskFile(i as usize), skip_ok: 1, skip_fail: 0 }, plain(ChildOp::MaskDir(i as usize)), plain(ChildOp::MaskDir(i as usize)), x);
                assert(f(i).contains(x));
            }
        },
        ChildOp::MaskDir(i) => {
            let i = i as int;
            if i < p.masked_paths@.len() && x.skip_ok == 0 && x.skip_fail == 0 {
                lemma_few(ChildStep { op: ChildOp::MaskFile(i as usize), skip_ok: 1, skip_fail: 0 }, plain(ChildOp::MaskDir(i as usize)), plain(ChildOp::MaskDir(i as usize)), x);
                assert(f(i).contains(x));
            }
        },
        _ => {},
    }
}

/// The steps that protect paths.
proof fn lemma_readonly_have(p: CompiledPlan, x: ChildStep)
    requires
        p.readonly_paths@.len() <= usize::MAX,
    ensures
        for_each(p.readonly_paths@.len(), readonly_at()).contains(x) <==> match x.op {
            ChildOp::BindReadonly(i) => i < p.readonly_paths@.len() && x.skip_ok == 0 && x.skip_fail == 1,
            ChildOp::RemountReadonly(i) => i < p.readonly_paths@.len() && x.skip_ok == 0 && x.skip_fail == 0,
            _ => false,
        },
{
    let f = readonly_at();
    lemma_each_has(p.readonly_paths@.len(), f, x);
    if exists|i: int| 0 <= i < p.readonly_paths@.len() && (#[trigger] f(i)).contains(x) {
        let i = choose|i: int| 0 <= i < p.readonly_paths@.len() && (#[trigger] f(i)).contains(x);
        lemma_few(ChildStep { op: ChildOp::BindReadonly(i as usize), skip_ok: 0, skip_fail: 1 }, plain(ChildOp::RemountReadonly(i as usize)), plain(ChildOp::RemountReadonly(i as usize)), x);
    }
    match x.op {
        ChildOp::BindReadonly(i) => {
            let i = i as int;
            if i < p.readonly_paths@.len() && x.skip_ok == 0 && x.skip_fail == 1 {
                lemma_few(ChildStep { op: ChildOp::BindReadonly(i as usize), skip_ok: 0, skip_fail: 1 }, plain(ChildOp::RemountReadonly(i as usize)), plain(ChildOp::RemountReadonly(i as usize)), x);
                assert(f(i).contains(x));
            }
        },
        ChildOp::RemountReadonly(i) => {
            let i = i as int;
            if i < p.readonly_paths@.len() && x.skip_ok == 0 && x.skip_fail == 0 {
                lemma_few(ChildStep { op: ChildOp::BindReadonly(i as usize), skip_ok: 0, skip_fail: 1 }, plain(ChildOp::RemountReadonly(i as usize)), plain(ChildOp::RemountReadonly(i as usize)), x);
                assert(f(i).contains(x));
            }
        },
        _ => {},
    }
}

/// The hooks of the creation.
proof fn lemma_create_hooks_have(p: CompiledPlan, x: ChildStep)
    requires
        p.ext.hooks.create_container@.len() <= usize::MAX,
    ensures
        for_each(p.ext.hooks.create_container@.len(), create_hook_at()).contains(x) <==> match x.op {
            ChildOp::CreateHook(i) => i < p.ext.hooks.create_container@.len() && x.skip_ok == 0 && x.skip_fail == 0,
            _ => false,
        },
{
    let f = create_hook_at();
    lemma_each_has(p.ext.hooks.create_container@.len(), f, x);
    if exists|i: int| 0 <= i < p.ext.hooks.create_container@.len() && (#[trigger] f(i)).contains(x) {
        let i = choose|i: int| 0 <= i < p.ext.hooks.create_container@.len() && (#[trigger] f(i)).contains(x);
        lemma_few(plain(ChildOp::CreateHook(i as usize)), plain(ChildOp::CreateHook(i as usize)), plain(ChildOp::CreateHook(i as usize)), x);
    }
    match x.op {
        ChildOp::CreateHook(i) => {
            let i = i as int;
            if i < p.ext.hooks.create_container@.len() && x.skip_ok == 0 && x.skip_fail == 0 {
                lemma_few(plain(ChildOp::CreateHook(i as usize)), plain(ChildOp::CreateHook(i as usize)), plain(ChildOp::CreateHook(i as usize)), x);
                assert(f(i).contains(x));
            }
        },
        _ => {},
    }
}

/// The hooks of the start.
proof fn lemma_start_hooks_have(p: CompiledPlan, x: ChildStep)
    requires
        p.ext.hooks.start_container@.len() <= usize::MAX,
    ensures
        for_each(p.ext.hooks.start_container@.len(), start_hook_at()).contains(x) <==> match x.op {
            ChildOp::StartHook(i) => i < p.ext.hooks.start_container@.len() && x.skip_ok == 0 && x.skip_fail == 0,
            _ => false,
        },
{
    let f = start_hook_at();
    lemma_each_has(p.ext.hooks.start_container@.len(), f, x);
    if exists|i: int| 0 <= i < p.ext.hooks.start_container@.len() && (#[trigger] f(i)).contains(x) {
        let i = choose|i: int| 0 <= i < p.ext.hooks.start_container@.len() && (#[trigger] f(i)).contains(x);
        lemma_few(plain(ChildOp::StartHook(i as usize)), plain(ChildOp::StartHook(i as usize)), plain(ChildOp::StartHook(i as usize)), x);
    }
    match x.op {
        ChildOp::StartHook(i) => {
            let i = i as int;
            if i < p.ext.hooks.start_container@.len() && x.skip_ok == 0 && x.skip_fail == 0 {
                lemma_few(plain(ChildOp::StartHook(i as usize)), plain(ChildOp::StartHook(i as usize)), plain(ChildOp::StartHook(i as usize)), x);
                assert(f(i).contains(x));
            }
        },
        _ => {},
    }
}

/// The kernel parameters.
proof fn lemma_sysctls_have(p: CompiledPlan, x: ChildStep)
    requires
        p.sysctls@.len() <= usize::MAX,
    ensures
        for_each(p.sysctls@.len(), sysctl_at()).contains(x) <==> match x.op {
            ChildOp::WriteSysctl(i) => i < p.sysctls@.len() && x.skip_ok == 0 && x.skip_fail == 0,
            _ => false,
        },
{
    let f = sysctl_at();
    lemma_each_has(p.sysctls@.len(), f, x);
    if exists|i: int| 0 <= i < p.sysctls@.len() && (#[trigger] f(i)).contains(x) {
        let i = choose|i: int| 0 <= i < p.sysctls@.len() && (#[trigger] f(i)).contains(x);
        lemma_few(plain(ChildOp::WriteSysctl(i as usize)), plain(ChildOp::WriteSysctl(i as usize)), plain(ChildOp::WriteSysctl(i as usize)), x);
    }
    match x.op {
        ChildOp::WriteSysctl(i) => {
            let i = i as int;
            if i < p.sysctls@.len() && x.skip_ok == 0 && x.skip_fail == 0 {
                lemma_few(plain(ChildOp::WriteSysctl(i as usize)), plain(ChildOp::WriteSysctl(i as usize)), plain(ChildOp::WriteSysctl(i as usize)), x);
                assert(f(i).contains(x));
            }
        },
        _ => {},
    }
}

/// The limits.
proof fn lemma_rlimits_have(p: CompiledPlan, x: ChildStep)
    requires
        p.rlimits@.len() <= usize::MAX,
    ensures
        for_each(p.rlimits@.len(), rlimit_at()).contains(x) <==> match x.op {
            ChildOp::SetRlimit(i) => i < p.rlimits@.len() && x.skip_ok == 0 && x.skip_fail == 0,
            _ => false,
        },
{
    let f = rlimit_at();
    lemma_each_has(p.rlimits@.len(), f, x);
    if exists|i: int| 0 <= i < p.rlimits@.len() && (#[trigger] f(i)).contains(x) {
        let i = choose|i: int| 0 <= i < p.rlimits@.len() && (#[trigger] f(i)).contains(x);
        lemma_few(plain(ChildOp::SetRlimit(i as usize)), plain(ChildOp::SetRlimit(i as usize)), plain(ChildOp::SetRlimit(i as usize)), x);
    }
    match x.op {
        ChildOp::SetRlimit(i) => {
            let i = i as int;
            if i < p.rlimits@.len() && x.skip_ok == 0 && x.skip_fail == 0 {
                lemma_few(plain(ChildOp::SetRlimit(i as usize)), plain(ChildOp::SetRlimit(i as usize)), plain(ChildOp::SetRlimit(i as usize)), x);
                assert(f(i).contains(x));
            }
        },
        _ => {},
    }
}

/// How a step's outcome leads on: a device that cannot be made is bound instead, a path that was hidden
/// as a file is not hidden as a directory, and one that cannot be bound is not remounted.
pub open spec fn skips_as(x: ChildStep) -> bool {
    match x.op {
        ChildOp::MakeDevice(_) => x.skip_ok == 0 && x.skip_fail == 1,
        ChildOp::ChmodDevice(_) => x.skip_ok == 2 && x.skip_fail == 2,
        ChildOp::MaskFile(_) => x.skip_ok == 1 && x.skip_fail == 0,
        ChildOp::BindReadonly(_) => x.skip_ok == 0 && x.skip_fail == 1,
        _ => x.skip_ok == 0 && x.skip_fail == 0,
    }
}

/// What a plan asks for on the way into the namespaces.
pub open spec fn asked_enter(p: CompiledPlan, op: ChildOp) -> bool {
    match op {
        ChildOp::AwaitIdMaps => p.wants_userns,
        ChildOp::RootGid => p.wants_userns,
        ChildOp::RootUid => p.wants_userns,
        ChildOp::OpenNamespace(i) => i < p.join_namespaces@.len(),
        ChildOp::CheckNamespace(i) => i < p.join_namespaces@.len(),
        ChildOp::EnterNamespace(i) => i < p.join_namespaces@.len(),
        ChildOp::ForkIntoPidNamespace => joins_pid(p),
        _ => false,
    }
}

/// The steps into the namespaces.
proof fn lemma_enter_takes(p: CompiledPlan, x: ChildStep)
    requires
        p.join_namespaces@.len() <= usize::MAX,
        p.mounts@.len() <= usize::MAX,
        p.ext.hooks.create_container@.len() <= usize::MAX,
        p.ext.hooks.start_container@.len() <= usize::MAX,
        p.default_devices@.len() <= usize::MAX,
        p.default_symlinks@.len() <= usize::MAX,
        p.masked_paths@.len() <= usize::MAX,
        p.readonly_paths@.len() <= usize::MAX,
        p.sysctls@.len() <= usize::MAX,
        p.rlimits@.len() <= usize::MAX,
    ensures
        enter_steps(p).contains(x) <==> skips_as(x) && asked_enter(p, x.op),
{
    lemma_few(plain(ChildOp::AwaitIdMaps), plain(ChildOp::RootGid), plain(ChildOp::RootUid), x);
    lemma_few(plain(ChildOp::ForkIntoPidNamespace), plain(ChildOp::ForkIntoPidNamespace), plain(ChildOp::ForkIntoPidNamespace), x);
    lemma_joins_have(p, x);
    let none = Seq::<ChildStep>::empty();
    let p0 = when(
        p.wants_userns,
        seq![plain(ChildOp::AwaitIdMaps), plain(ChildOp::RootGid), plain(ChildOp::RootUid)],
    );
    assert(none + p0 =~= p0);
    let p1 = p0 + for_each(p.join_namespaces@.len(), join_at());
    steps::lemma_sum_has(p0, for_each(p.join_namespaces@.len(), join_at()), x);
    let p2 = p1 + when(joins_pid(p), one(ChildOp::ForkIntoPidNamespace));
    steps::lemma_sum_has(p1, when(joins_pid(p), one(ChildOp::ForkIntoPidNamespace)), x);
    assert(enter_steps(p) == p2);
}

/// What a plan asks for on the way to the root.
pub open spec fn asked_root(p: CompiledPlan, ready: Seq<bool>, op: ChildOp) -> bool {
    match op {
        ChildOp::MakePrivate => true,
        ChildOp::BindRoot => true,
        ChildOp::MakeMountPoint(i) => i < p.mounts@.len(),
        ChildOp::Mount(i) => i < p.mounts@.len() && !idmapped(p, ready, i as int),
        ChildOp::IdmapMount(i) => i < p.mounts@.len() && idmapped(p, ready, i as int),
        ChildOp::MakeOldRoot => !p.no_pivot,
        ChildOp::PivotRoot => !p.no_pivot,
        ChildOp::DetachOldRoot => !p.no_pivot,
        ChildOp::RemoveOldRoot => !p.no_pivot,
        ChildOp::Chroot => p.no_pivot,
        ChildOp::ChdirRoot => true,
        _ => false,
    }
}

/// The steps to the root.
proof fn lemma_root_takes(p: CompiledPlan, ready: Seq<bool>, x: ChildStep)
    requires
        p.join_namespaces@.len() <= usize::MAX,
        p.mounts@.len() <= usize::MAX,
        p.ext.hooks.create_container@.len() <= usize::MAX,
        p.ext.hooks.start_container@.len() <= usize::MAX,
        p.default_devices@.len() <= usize::MAX,
        p.default_symlinks@.len() <= usize::MAX,
        p.masked_paths@.len() <= usize::MAX,
        p.readonly_paths@.len() <= usize::MAX,
        p.sysctls@.len() <= usize::MAX,
        p.rlimits@.len() <= usize::MAX,
    ensures
        root_steps(p, ready).contains(x) <==> skips_as(x) && asked_root(p, ready, x.op),
{
    lemma_few(plain(ChildOp::MakePrivate), plain(ChildOp::MakePrivate), plain(ChildOp::MakePrivate), x);
    lemma_few(plain(ChildOp::BindRoot), plain(ChildOp::BindRoot), plain(ChildOp::BindRoot), x);
    lemma_few(plain(ChildOp::Chroot), plain(ChildOp::ChdirRoot), plain(ChildOp::ChdirRoot), x);
    lemma_mounts_have(p, ready, x);
    if !p.no_pivot {
        let s = switch_steps(p);
        assert(s[0] == plain(ChildOp::MakeOldRoot));
        assert(s[1] == plain(ChildOp::PivotRoot));
        assert(s[2] == plain(ChildOp::ChdirRoot));
        assert(s[3] == plain(ChildOp::DetachOldRoot));
        assert(s[4] == plain(ChildOp::RemoveOldRoot));
    }
    let none = Seq::<ChildStep>::empty();
    let p0 = one(ChildOp::MakePrivate);
    assert(none + p0 =~= p0);
    let p1 = p0 + one(ChildOp::BindRoot);
    steps::lemma_sum_has(p0, one(ChildOp::BindRoot), x);
    let p2 = p1 + for_each(p.mounts@.len(), mount_at(p, ready));
    steps::lemma_sum_has(p1, for_each(p.mounts@.len(), mount_at(p, ready)), x);
    let p3 = p2 + switch_steps(p);
    steps::lemma_sum_has(p2, switch_steps(p), x);
    assert(root_steps(p, ready) == p3);
}

/// What a plan asks for to fit the container out.
pub open spec fn asked_fit(p: CompiledPlan, op: ChildOp) -> bool {
    match op {
        ChildOp::SetPropagation => p.rootfs_propagation != 0,
        ChildOp::SetHostname => p.set_hostname,
        ChildOp::CreateHook(i) => i < p.ext.hooks.create_container@.len(),
        ChildOp::ClearUmask => true,
        ChildOp::MakeDevice(i) => i < p.default_devices@.len() && (p.default_devices@[i as int].kind == 'c' || p.default_devices@[i as int].kind == 'b'),
        ChildOp::ChmodDevice(i) => i < p.default_devices@.len() && (p.default_devices@[i as int].kind == 'c' || p.default_devices@[i as int].kind == 'b'),
        ChildOp::TouchDevice(i) => i < p.default_devices@.len() && (p.default_devices@[i as int].kind == 'c' || p.default_devices@[i as int].kind == 'b'),
        ChildOp::BindDevice(i) => i < p.default_devices@.len() && (p.default_devices@[i as int].kind == 'c' || p.default_devices@[i as int].kind == 'b'),
        ChildOp::RestoreUmask => true,
        ChildOp::UnlinkDev(i) => i < p.default_symlinks@.len(),
        ChildOp::LinkDev(i) => i < p.default_symlinks@.len(),
        ChildOp::MaskFile(i) => i < p.masked_paths@.len(),
        ChildOp::MaskDir(i) => i < p.masked_paths@.len(),
        ChildOp::BindReadonly(i) => i < p.readonly_paths@.len(),
        ChildOp::RemountReadonly(i) => i < p.readonly_paths@.len(),
        ChildOp::RootReadonly => p.root_readonly,
        ChildOp::WriteSysctl(i) => i < p.sysctls@.len(),
        ChildOp::Chdir => true,
        ChildOp::AwaitStart => true,
        _ => false,
    }
}

/// The steps that fit the container out.
proof fn lemma_fit_out_takes(p: CompiledPlan, x: ChildStep)
    requires
        p.join_namespaces@.len() <= usize::MAX,
        p.mounts@.len() <= usize::MAX,
        p.ext.hooks.create_container@.len() <= usize::MAX,
        p.ext.hooks.start_container@.len() <= usize::MAX,
        p.default_devices@.len() <= usize::MAX,
        p.default_symlinks@.len() <= usize::MAX,
        p.masked_paths@.len() <= usize::MAX,
        p.readonly_paths@.len() <= usize::MAX,
        p.sysctls@.len() <= usize::MAX,
        p.rlimits@.len() <= usize::MAX,
    ensures
        fit_out_steps(p).contains(x) <==> skips_as(x) && asked_fit(p, x.op),
{
    lemma_few(plain(ChildOp::SetPropagation), plain(ChildOp::SetPropagation), plain(ChildOp::SetPropagation), x);
    lemma_few(plain(ChildOp::SetHostname), plain(ChildOp::SetHostname), plain(ChildOp::SetHostname), x);
    lemma_few(plain(ChildOp::ClearUmask), plain(ChildOp::ClearUmask), plain(ChildOp::ClearUmask), x);
    lemma_few(plain(ChildOp::RestoreUmask), plain(ChildOp::RestoreUmask), plain(ChildOp::RestoreUmask), x);
    lemma_few(plain(ChildOp::RootReadonly), plain(ChildOp::RootReadonly), plain(ChildOp::RootReadonly), x);
    lemma_few(plain(ChildOp::Chdir), plain(ChildOp::Chdir), plain(ChildOp::Chdir), x);
    lemma_few(plain(ChildOp::AwaitStart), plain(ChildOp::AwaitStart), plain(ChildOp::AwaitStart), x);
    lemma_create_hooks_have(p, x);
    lemma_devices_have(p, x);
    lemma_links_have(p, x);
    lemma_masks_have(p, x);
    lemma_readonly_have(p, x);
    lemma_sysctls_have(p, x);
    let none = Seq::<ChildStep>::empty();
    let p0 = when(p.rootfs_propagation != 0, one(ChildOp::SetPropagation));
    assert(none + p0 =~= p0);
    let p1 = p0 + when(p.set_hostname, one(ChildOp::SetHostname));
    steps::lemma_sum_has(p0, when(p.set_hostname, one(ChildOp::SetHostname)), x);
    let p2 = p1 + for_each(p.ext.hooks.create_container@.len(), create_hook_at());
    steps::lemma_sum_has(p1, for_each(p.ext.hooks.create_container@.len(), create_hook_at()), x);
    let p3 = p2 + one(ChildOp::ClearUmask);
    steps::lemma_sum_has(p2, one(ChildOp::ClearUmask), x);
    let p4 = p3 + for_each(p.default_devices@.len(), device_at(p));
    steps::lemma_sum_has(p3, for_each(p.default_devices@.len(), device_at(p)), x);
    let p5 = p4 + one(ChildOp::RestoreUmask);
    steps::lemma_sum_has(p4, one(ChildOp::RestoreUmask), x);
    let p6 = p5 + for_each(p.default_symlinks@.len(), link_at());
    steps::lemma_sum_has(p5, for_each(p.default_symlinks@.len(), link_at()), x);
    let p7 = p6 + for_each(p.masked_paths@.len(), mask_at());
    steps::lemma_sum_has(p6, for_each(p.masked_paths@.len(), mask_at()), x);
    let p8 = p7 + for_each(p.readonly_paths@.len(), readonly_at());
    steps::lemma_sum_has(p7, for_each(p.readonly_paths@.len(), readonly_at()), x);
    let p9 = p8 + when(p.root_readonly, one(ChildOp::RootReadonly));
    steps::lemma_sum_has(p8, when(p.root_readonly, one(ChildOp::RootReadonly)), x);
    let p10 = p9 + for_each(p.sysctls@.len(), sysctl_at());
    steps::lemma_sum_has(p9, for_each(p.sysctls@.len(), sysctl_at()), x);
    let p11 = p10 + one(ChildOp::Chdir);
    steps::lemma_sum_has(p10, one(ChildOp::Chdir), x);
    let p12 = p11 + one(ChildOp::AwaitStart);
    steps::lemma_sum_has(p11, one(ChildOp::AwaitStart), x);
    assert(fit_out_steps(p) == p12);
}

/// What a plan asks for to restrict the process.
pub open spec fn asked_restrict(p: CompiledPlan, op: ChildOp) -> bool {
    match op {
        ChildOp::SetRlimit(i) => i < p.rlimits@.len(),
        ChildOp::SetGroups => p.user_additional_gids@.len() > 0,
        ChildOp::SetUmask => p.user_umask is Some,
        ChildOp::DropBounding => p.caps is Some,
        ChildOp::SetCaps => p.caps is Some,
        ChildOp::RaiseAmbient => p.caps is Some,
        ChildOp::SetGid => p.user_gid != 0,
        ChildOp::KeepCaps => p.user_uid != 0,
        ChildOp::SetUid => p.user_uid != 0,
        ChildOp::ReadCaps => p.user_uid != 0 && p.caps is Some,
        ChildOp::RestoreCaps => p.user_uid != 0 && p.caps is Some,
        ChildOp::RaiseAmbientAgain => p.user_uid != 0 && p.caps is Some,
        ChildOp::NoNewPrivs => p.no_new_privileges,
        ChildOp::InstallSeccomp => p.ext.seccomp_bpf@.len() > 0,
        _ => false,
    }
}

/// The steps that restrict the process.
proof fn lemma_restrict_takes(p: CompiledPlan, x: ChildStep)
    requires
        p.join_namespaces@.len() <= usize::MAX,
        p.mounts@.len() <= usize::MAX,
        p.ext.hooks.create_container@.len() <= usize::MAX,
        p.ext.hooks.start_container@.len() <= usize::MAX,
        p.default_devices@.len() <= usize::MAX,
        p.default_symlinks@.len() <= usize::MAX,
        p.masked_paths@.len() <= usize::MAX,
        p.readonly_paths@.len() <= usize::MAX,
        p.sysctls@.len() <= usize::MAX,
        p.rlimits@.len() <= usize::MAX,
    ensures
        restrict_steps(p).contains(x) <==> skips_as(x) && asked_restrict(p, x.op),
{
    lemma_few(plain(ChildOp::SetGroups), plain(ChildOp::SetGroups), plain(ChildOp::SetGroups), x);
    lemma_few(plain(ChildOp::SetUmask), plain(ChildOp::SetUmask), plain(ChildOp::SetUmask), x);
    lemma_few(plain(ChildOp::SetGid), plain(ChildOp::SetGid), plain(ChildOp::SetGid), x);
    lemma_few(plain(ChildOp::NoNewPrivs), plain(ChildOp::NoNewPrivs), plain(ChildOp::NoNewPrivs), x);
    lemma_few(plain(ChildOp::InstallSeccomp), plain(ChildOp::InstallSeccomp), plain(ChildOp::InstallSeccomp), x);
    lemma_few(plain(ChildOp::DropBounding), plain(ChildOp::SetCaps), plain(ChildOp::RaiseAmbient), x);
    lemma_few(plain(ChildOp::ReadCaps), plain(ChildOp::RestoreCaps), plain(ChildOp::RaiseAmbientAgain), x);
    lemma_few(plain(ChildOp::KeepCaps), plain(ChildOp::SetUid), plain(ChildOp::SetUid), x);
    steps::lemma_sum_has(
        seq![plain(ChildOp::KeepCaps), plain(ChildOp::SetUid)],
        when(
            p.caps is Some,
            seq![
                plain(ChildOp::ReadCaps),
                plain(ChildOp::RestoreCaps),
                plain(ChildOp::RaiseAmbientAgain),
            ],
        ),
        x,
    );
    lemma_rlimits_have(p, x);
    let none = Seq::<ChildStep>::empty();
    let p0 = for_each(p.rlimits@.len(), rlimit_at());
    assert(none + p0 =~= p0);
    let p1 = p0 + when(p.user_additional_gids@.len() > 0, one(ChildOp::SetGroups));
    steps::lemma_sum_has(p0, when(p.user_additional_gids@.len() > 0, one(ChildOp::SetGroups)), x);
    let p2 = p1 + when(p.user_umask is Some, one(ChildOp::SetUmask));
    steps::lemma_sum_has(p1, when(p.user_umask is Some, one(ChildOp::SetUmask)), x);
    let p3 = p2 + when(p.caps is Some, cap_steps());
    steps::lemma_sum_has(p2, when(p.caps is Some, cap_steps()), x);
    let p4 = p3 + when(p.user_gid != 0, one(ChildOp::SetGid));
    steps::lemma_sum_has(p3, when(p.user_gid != 0, one(ChildOp::SetGid)), x);
    let p5 = p4 + when(p.user_uid != 0, user_steps(p));
    steps::lemma_sum_has(p4, when(p.user_uid != 0, user_steps(p)), x);
    let p6 = p5 + when(p.no_new_privileges, one(ChildOp::NoNewPrivs));
    steps::lemma_sum_has(p5, when(p.no_new_privileges, one(ChildOp::NoNewPrivs)), x);
    let p7 = p6 + when(p.ext.seccomp_bpf@.len() > 0, one(ChildOp::InstallSeccomp));
    steps::lemma_sum_has(p6, when(p.ext.seccomp_bpf@.len() > 0, one(ChildOp::InstallSeccomp)), x);
    assert(restrict_steps(p) == p7);
}

/// What a plan asks for at last.
pub open spec fn asked_last(p: CompiledPlan, tty: bool, op: ChildOp) -> bool {
    match op {
        ChildOp::NewSession => tty,
        ChildOp::ClaimTerminal => tty,
        ChildOp::DupTerminal(fd) => tty && fd <= 2,
        ChildOp::StartHook(i) => i < p.ext.hooks.start_container@.len(),
        ChildOp::CheckAppArmorName => p.apparmor_profile is Some,
        ChildOp::OpenAppArmor => p.apparmor_profile is Some,
        ChildOp::WriteAppArmor => p.apparmor_profile is Some,
        ChildOp::OpenSelinux => p.selinux_label is Some,
        ChildOp::WriteSelinux => p.selinux_label is Some,
        ChildOp::RequireCommand => p.argv@.len() == 0,
        ChildOp::Exec => p.argv@.len() > 0,
        _ => false,
    }
}

/// The last steps.
proof fn lemma_last_takes(p: CompiledPlan, tty: bool, x: ChildStep)
    requires
        p.join_namespaces@.len() <= usize::MAX,
        p.mounts@.len() <= usize::MAX,
        p.ext.hooks.create_container@.len() <= usize::MAX,
        p.ext.hooks.start_container@.len() <= usize::MAX,
        p.default_devices@.len() <= usize::MAX,
        p.default_symlinks@.len() <= usize::MAX,
        p.masked_paths@.len() <= usize::MAX,
        p.readonly_paths@.len() <= usize::MAX,
        p.sysctls@.len() <= usize::MAX,
        p.rlimits@.len() <= usize::MAX,
    ensures
        last_steps(p, tty).contains(x) <==> skips_as(x) && asked_last(p, tty, x.op),
{
    lemma_few(plain(ChildOp::CheckAppArmorName), plain(ChildOp::OpenAppArmor), plain(ChildOp::WriteAppArmor), x);
    lemma_few(plain(ChildOp::OpenSelinux), plain(ChildOp::WriteSelinux), plain(ChildOp::WriteSelinux), x);
    lemma_few(plain(exec_op(p)), plain(exec_op(p)), plain(exec_op(p)), x);
    lemma_start_hooks_have(p, x);
    let s = terminal_steps();
    assert(s[0] == plain(ChildOp::NewSession));
    assert(s[1] == plain(ChildOp::ClaimTerminal));
    assert(s[2] == plain(ChildOp::DupTerminal(0)));
    assert(s[3] == plain(ChildOp::DupTerminal(1)));
    assert(s[4] == plain(ChildOp::DupTerminal(2)));
    let none = Seq::<ChildStep>::empty();
    let p0 = when(tty, terminal_steps());
    assert(none + p0 =~= p0);
    let p1 = p0 + for_each(p.ext.hooks.start_container@.len(), start_hook_at());
    steps::lemma_sum_has(p0, for_each(p.ext.hooks.start_container@.len(), start_hook_at()), x);
    let p2 = p1 + when(p.apparmor_profile is Some, apparmor_steps());
    steps::lemma_sum_has(p1, when(p.apparmor_profile is Some, apparmor_steps()), x);
    let p3 = p2 + when(p.selinux_label is Some, selinux_steps());
    steps::lemma_sum_has(p2, when(p.selinux_label is Some, selinux_steps()), x);
    let p4 = p3 + one(exec_op(p));
    steps::lemma_sum_has(p3, one(exec_op(p)), x);
    assert(last_steps(p, tty) == p4);
}

/// Which steps the process of a container takes, each only where the plan asks for it, and for each of
/// the namespaces, mounts, devices, links, paths, parameters, limits and hooks of the plan; and how
/// each leads on.
pub proof fn law_child_takes_steps(p: CompiledPlan, ready: Seq<bool>, tty: bool, x: ChildStep)
    requires
        p.join_namespaces@.len() <= usize::MAX,
        p.mounts@.len() <= usize::MAX,
        p.ext.hooks.create_container@.len() <= usize::MAX,
        p.ext.hooks.start_container@.len() <= usize::MAX,
        p.default_devices@.len() <= usize::MAX,
        p.default_symlinks@.len() <= usize::MAX,
        p.masked_paths@.len() <= usize::MAX,
        p.readonly_paths@.len() <= usize::MAX,
        p.sysctls@.len() <= usize::MAX,
        p.rlimits@.len() <= usize::MAX,
    ensures
        child_steps(p, ready, tty).contains(x) <==> skips_as(x) && (asked_enter(p, x.op) || asked_root(
            p,
            ready,
            x.op,
        ) || asked_fit(p, x.op) || asked_restrict(p, x.op) || asked_last(p, tty, x.op)),
{
    lemma_enter_takes(p, x);
    lemma_root_takes(p, ready, x);
    lemma_fit_out_takes(p, x);
    lemma_restrict_takes(p, x);
    lemma_last_takes(p, tty, x);
    let none = Seq::<ChildStep>::empty();
    let p0 = enter_steps(p);
    assert(none + p0 =~= p0);
    let p1 = p0 + root_steps(p, ready);
    steps::lemma_sum_has(p0, root_steps(p, ready), x);
    let p2 = p1 + fit_out_steps(p);
    steps::lemma_sum_has(p1, fit_out_steps(p), x);
    let p3 = p2 + restrict_steps(p);
    steps::lemma_sum_has(p2, restrict_steps(p), x);
    let p4 = p3 + last_steps(p, tty);
    steps::lemma_sum_has(p3, last_steps(p, tty), x);
    assert(child_steps(p, ready, tty) == p4);
}

/// Where a step stands among those of its stage: by the thing that it is for, and for one thing in
/// this order.
pub open spec fn turn(op: ChildOp) -> int {
    match op {
        ChildOp::RootGid => 1,
        ChildOp::RootUid => 2,
        ChildOp::OpenNamespace(i) => 4 * i,
        ChildOp::CheckNamespace(i) => 4 * i + 1,
        ChildOp::EnterNamespace(i) => 4 * i + 2,
        ChildOp::MakeMountPoint(i) => 4 * i,
        ChildOp::Mount(i) => 4 * i + 1,
        ChildOp::IdmapMount(i) => 4 * i + 1,
        ChildOp::PivotRoot => 1,
        ChildOp::Chroot => 1,
        ChildOp::ChdirRoot => 2,
        ChildOp::DetachOldRoot => 3,
        ChildOp::RemoveOldRoot => 4,
        ChildOp::CreateHook(i) => 4 * i,
        ChildOp::MakeDevice(i) => 4 * i,
        ChildOp::ChmodDevice(i) => 4 * i + 1,
        ChildOp::TouchDevice(i) => 4 * i + 2,
        ChildOp::BindDevice(i) => 4 * i + 3,
        ChildOp::UnlinkDev(i) => 4 * i,
        ChildOp::LinkDev(i) => 4 * i + 1,
        ChildOp::MaskFile(i) => 4 * i,
        ChildOp::MaskDir(i) => 4 * i + 1,
        ChildOp::BindReadonly(i) => 4 * i,
        ChildOp::RemountReadonly(i) => 4 * i + 1,
        ChildOp::WriteSysctl(i) => 4 * i,
        ChildOp::SetRlimit(i) => 4 * i,
        ChildOp::SetCaps => 1,
        ChildOp::RaiseAmbient => 2,
        ChildOp::SetUid => 1,
        ChildOp::ReadCaps => 2,
        ChildOp::RestoreCaps => 3,
        ChildOp::RaiseAmbientAgain => 4,
        ChildOp::ClaimTerminal => 1,
        ChildOp::DupTerminal(fd) => 2 + fd,
        ChildOp::StartHook(i) => 4 * i,
        ChildOp::OpenAppArmor => 1,
        ChildOp::WriteAppArmor => 2,
        ChildOp::WriteSelinux => 1,
        _ => 0,
    }
}

/// Steps that come one after the other, by their stages and by their turns in them, and lie between
/// two places; a place is a stage and a turn.
#[verifier::opaque]
spec fn climbs(s: Seq<ChildStep>, from: (int, int), to: (int, int)) -> bool {
    &&& forall|i: int| 0 <= i < s.len() ==> !below(place((#[trigger] s[i]).op), from) && below(
        place(s[i].op),
        to,
    )
    &&& forall|i: int, j: int|
        0 <= i < j < s.len() ==> below(place((#[trigger] s[i]).op), place((#[trigger] s[j]).op))
}

/// Where a step stands: its stage and its turn.
spec fn place(op: ChildOp) -> (int, int) {
    (stage(op), turn(op))
}

/// Whether a place comes before another.
spec fn below(a: (int, int), b: (int, int)) -> bool {
    a.0 < b.0 || (a.0 == b.0 && a.1 < b.1)
}

/// Steps behind steps.
proof fn lemma_climbs_sum(
    a: Seq<ChildStep>,
    b: Seq<ChildStep>,
    from: (int, int),
    mid: (int, int),
    to: (int, int),
)
    requires
        climbs(a, from, mid),
        climbs(b, mid, to),
        !below(mid, from),
        !below(to, mid),
    ensures
        climbs(a + b, from, to),
{
    reveal(climbs);
    let s = a + b;
    let n = a.len() as int;
    assert forall|i: int| 0 <= i < s.len() implies !below(place((#[trigger] s[i]).op), from)
        && below(place(s[i].op), to) by {
        if i < n {
            assert(s[i] == a[i]);
        } else {
            assert(s[i] == b[i - n]);
        }
    }
    assert forall|i: int, j: int| 0 <= i < j < s.len() implies below(
        place((#[trigger] s[i]).op),
        place((#[trigger] s[j]).op),
    ) by {
        if j < n {
            assert(s[i] == a[i] && s[j] == a[j]);
        } else if i < n {
            assert(s[i] == a[i] && s[j] == b[j - n]);
        } else {
            assert(s[i] == b[i - n] && s[j] == b[j - n]);
        }
    }
}

/// Steps for each of some things.
proof fn lemma_climbs_each(n: nat, f: spec_fn(int) -> Seq<ChildStep>, st: int)
    requires
        forall|i: int| 0 <= i < n ==> climbs(#[trigger] f(i), (st, 4 * i), (st, 4 * i + 4)),
    ensures
        climbs(for_each(n, f), (st, 0), (st, 4 * (n as int))),
    decreases n,
{
    if n == 0 {
        reveal(climbs);
    } else {
        let m = (n - 1) as nat;
        lemma_climbs_each(m, f, st);
        assert(climbs(f(n - 1), (st, 4 * (n - 1)), (st, 4 * (n - 1) + 4)));
        lemma_climbs_sum(for_each(m, f), f(n - 1), (st, 0), (st, 4 * (m as int)), (st, 4 * (n as int)));
    }
}

/// A wider room.
proof fn lemma_climbs_in(s: Seq<ChildStep>, a: (int, int), b: (int, int), from: (int, int), to: (
    int,
    int,
))
    requires
        climbs(s, a, b),
        !below(a, from),
        !below(to, b),
    ensures
        climbs(s, from, to),
{
    reveal(climbs);
}

proof fn lemma_joins_climb(p: CompiledPlan)
    requires
        p.join_namespaces@.len() <= usize::MAX,
    ensures
        climbs(for_each(p.join_namespaces@.len(), join_at()), (1, 0), (2, 0)),
{
    let f = join_at();
    let n = p.join_namespaces@.len();
    assert forall|i: int| 0 <= i < n implies climbs(
        #[trigger] f(i),
        (1, 4 * i),
        (1, 4 * i + 4),
    ) by {
        reveal(climbs);
        let s = f(i);
        assert(s[0] == plain(ChildOp::OpenNamespace(i as usize)));
        assert(s[1] == plain(ChildOp::CheckNamespace(i as usize)));
        assert(s[2] == plain(ChildOp::EnterNamespace(i as usize)));
        assert(s.len() == 3);
    }
    lemma_climbs_each(n, f, 1);
    lemma_climbs_in(for_each(n, f), (1, 0), (1, 4 * (n as int)), (1, 0), (2, 0));
}

proof fn lemma_create_hooks_climb(p: CompiledPlan)
    requires
        p.ext.hooks.create_container@.len() <= usize::MAX,
    ensures
        climbs(for_each(p.ext.hooks.create_container@.len(), create_hook_at()), (9, 0), (10, 0)),
{
    let f = create_hook_at();
    let n = p.ext.hooks.create_container@.len();
    assert forall|i: int| 0 <= i < n implies climbs(
        #[trigger] f(i),
        (9, 4 * i),
        (9, 4 * i + 4),
    ) by {
        reveal(climbs);
        let s = f(i);
        assert(s[0] == plain(ChildOp::CreateHook(i as usize)));
        assert(s.len() == 1);
    }
    lemma_climbs_each(n, f, 9);
    lemma_climbs_in(for_each(n, f), (9, 0), (9, 4 * (n as int)), (9, 0), (10, 0));
}

proof fn lemma_links_climb(p: CompiledPlan)
    requires
        p.default_symlinks@.len() <= usize::MAX,
    ensures
        climbs(for_each(p.default_symlinks@.len(), link_at()), (13, 0), (14, 0)),
{
    let f = link_at();
    let n = p.default_symlinks@.len();
    assert forall|i: int| 0 <= i < n implies climbs(
        #[trigger] f(i),
        (13, 4 * i),
        (13, 4 * i + 4),
    ) by {
        reveal(climbs);
        let s = f(i);
        assert(s[0] == plain(ChildOp::UnlinkDev(i as usize)));
        assert(s[1] == plain(ChildOp::LinkDev(i as usize)));
        assert(s.len() == 2);
    }
    lemma_climbs_each(n, f, 13);
    lemma_climbs_in(for_each(n, f), (13, 0), (13, 4 * (n as int)), (13, 0), (14, 0));
}

proof fn lemma_masks_climb(p: CompiledPlan)
    requires
        p.masked_paths@.len() <= usize::MAX,
    ensures
        climbs(for_each(p.masked_paths@.len(), mask_at()), (14, 0), (15, 0)),
{
    let f = mask_at();
    let n = p.masked_paths@.len();
    assert forall|i: int| 0 <= i < n implies climbs(
        #[trigger] f(i),
        (14, 4 * i),
        (14, 4 * i + 4),
    ) by {
        reveal(climbs);
        let s = f(i);
        assert(s[0] == ChildStep { op: ChildOp::MaskFile(i as usize), skip_ok: 1, skip_fail: 0 });
        assert(s[1] == plain(ChildOp::MaskDir(i as usize)));
        assert(s.len() == 2);
    }
    lemma_climbs_each(n, f, 14);
    lemma_climbs_in(for_each(n, f), (14, 0), (14, 4 * (n as int)), (14, 0), (15, 0));
}

proof fn lemma_readonly_climb(p: CompiledPlan)
    requires
        p.readonly_paths@.len() <= usize::MAX,
    ensures
        climbs(for_each(p.readonly_paths@.len(), readonly_at()), (15, 0), (16, 0)),
{
    let f = readonly_at();
    let n = p.readonly_paths@.len();
    assert forall|i: int| 0 <= i < n implies climbs(
        #[trigger] f(i),
        (15, 4 * i),
        (15, 4 * i + 4),
    ) by {
        reveal(climbs);
        let s = f(i);
        assert(s[0] == ChildStep { op: ChildOp::BindReadonly(i as usize), skip_ok: 0, skip_fail: 1 });
        assert(s[1] == plain(ChildOp::RemountReadonly(i as usize)));
        assert(s.len() == 2);
    }
    lemma_climbs_each(n, f, 15);
    lemma_climbs_in(for_each(n, f), (15, 0), (15, 4 * (n as int)), (15, 0), (16, 0));
}

proof fn lemma_sysctls_climb(p: CompiledPlan)
    requires
        p.sysctls@.len() <= usize::MAX,
    ensures
        climbs(for_each(p.sysctls@.len(), sysctl_at()), (17, 0), (18, 0)),
{
    let f = sysctl_at();
    let n = p.sysctls@.len();
    assert forall|i: int| 0 <= i < n implies climbs(
        #[trigger] f(i),
        (17, 4 * i),
        (17, 4 * i + 4),
    ) by {
        reveal(climbs);
        let s = f(i);
        assert(s[0] == plain(ChildOp::WriteSysctl(i as usize)));
        assert(s.len() == 1);
    }
    lemma_climbs_each(n, f, 17);
    lemma_climbs_in(for_each(n, f), (17, 0), (17, 4 * (n as int)), (17, 0), (18, 0));
}

proof fn lemma_rlimits_climb(p: CompiledPlan)
    requires
        p.rlimits@.len() <= usize::MAX,
    ensures
        climbs(for_each(p.rlimits@.len(), rlimit_at()), (20, 0), (21, 0)),
{
    let f = rlimit_at();
    let n = p.rlimits@.len();
    assert forall|i: int| 0 <= i < n implies climbs(
        #[trigger] f(i),
        (20, 4 * i),
        (20, 4 * i + 4),
    ) by {
        reveal(climbs);
        let s = f(i);
        assert(s[0] == plain(ChildOp::SetRlimit(i as usize)));
        assert(s.len() == 1);
    }
    lemma_climbs_each(n, f, 20);
    lemma_climbs_in(for_each(n, f), (20, 0), (20, 4 * (n as int)), (20, 0), (21, 0));
}

proof fn lemma_start_hooks_climb(p: CompiledPlan)
    requires
        p.ext.hooks.start_container@.len() <= usize::MAX,
    ensures
        climbs(for_each(p.ext.hooks.start_container@.len(), start_hook_at()), (29, 0), (30, 0)),
{
    let f = start_hook_at();
    let n = p.ext.hooks.start_container@.len();
    assert forall|i: int| 0 <= i < n implies climbs(
        #[trigger] f(i),
        (29, 4 * i),
        (29, 4 * i + 4),
    ) by {
        reveal(climbs);
        let s = f(i);
        assert(s[0] == plain(ChildOp::StartHook(i as usize)));
        assert(s.len() == 1);
    }
    lemma_climbs_each(n, f, 29);
    lemma_climbs_in(for_each(n, f), (29, 0), (29, 4 * (n as int)), (29, 0), (30, 0));
}

proof fn lemma_devices_climb(p: CompiledPlan)
    requires
        p.default_devices@.len() <= usize::MAX,
    ensures
        climbs(for_each(p.default_devices@.len(), device_at(p)), (11, 0), (12, 0)),
{
    let f = device_at(p);
    let n = p.default_devices@.len();
    assert forall|i: int| 0 <= i < n implies climbs(
        #[trigger] f(i),
        (11, 4 * i),
        (11, 4 * i + 4),
    ) by {
        reveal(climbs);
        let s = f(i);
        assert(s.len() == (if makes_device(p, i) { 4int } else { 0int }));
        assert(makes_device(p, i) ==> s[0] == ChildStep { op: ChildOp::MakeDevice(i as usize), skip_ok: 0, skip_fail: 1 });
        assert(makes_device(p, i) ==> s[1] == ChildStep { op: ChildOp::ChmodDevice(i as usize), skip_ok: 2, skip_fail: 2 });
        assert(makes_device(p, i) ==> s[2] == plain(ChildOp::TouchDevice(i as usize)));
        assert(makes_device(p, i) ==> s[3] == plain(ChildOp::BindDevice(i as usize)));
    }
    lemma_climbs_each(n, f, 11);
    lemma_climbs_in(for_each(n, f), (11, 0), (11, 4 * (n as int)), (11, 0), (12, 0));
}

proof fn lemma_mounts_climb(p: CompiledPlan, ready: Seq<bool>)
    requires
        p.mounts@.len() <= usize::MAX,
    ensures
        climbs(for_each(p.mounts@.len(), mount_at(p, ready)), (5, 0), (6, 0)),
{
    let f = mount_at(p, ready);
    let n = p.mounts@.len();
    assert forall|i: int| 0 <= i < n implies climbs(
        #[trigger] f(i),
        (5, 4 * i),
        (5, 4 * i + 4),
    ) by {
        reveal(climbs);
        let s = f(i);
        assert(s[0] == plain(ChildOp::MakeMountPoint(i as usize)));
        assert(s[1] == plain(
            if idmapped(p, ready, i) {
                ChildOp::IdmapMount(i as usize)
            } else {
                ChildOp::Mount(i as usize)
            },
        ));
        assert(s.len() == 2);
    }
    lemma_climbs_each(n, f, 5);
    lemma_climbs_in(for_each(n, f), (5, 0), (5, 4 * (n as int)), (5, 0), (6, 0));
}

proof fn lemma_enter_climbs(p: CompiledPlan)
    requires
        p.join_namespaces@.len() <= usize::MAX,
        p.mounts@.len() <= usize::MAX,
        p.ext.hooks.create_container@.len() <= usize::MAX,
        p.ext.hooks.start_container@.len() <= usize::MAX,
        p.default_devices@.len() <= usize::MAX,
        p.default_symlinks@.len() <= usize::MAX,
        p.masked_paths@.len() <= usize::MAX,
        p.readonly_paths@.len() <= usize::MAX,
        p.sysctls@.len() <= usize::MAX,
        p.rlimits@.len() <= usize::MAX,
    ensures
        climbs(enter_steps(p), (0, 0), (3, 0)),
{
    let e0 = when(
        p.wants_userns,
        seq![plain(ChildOp::AwaitIdMaps), plain(ChildOp::RootGid), plain(ChildOp::RootUid)],
    );
    assert(climbs(e0, (0, 0), (1, 0))) by {
        reveal(climbs);
    }
    let q0 = e0;
    let e1 = for_each(p.join_namespaces@.len(), join_at());
    lemma_joins_climb(p);
    let q1 = q0 + e1;
    lemma_climbs_sum(q0, e1, (0, 0), (1, 0), (2, 0));
    let e2 = when(joins_pid(p), one(ChildOp::ForkIntoPidNamespace));
    assert(climbs(e2, (2, 0), (3, 0))) by {
        reveal(climbs);
    }
    let q2 = q1 + e2;
    lemma_climbs_sum(q1, e2, (0, 0), (2, 0), (3, 0));
    assert(enter_steps(p) == q2);
}

proof fn lemma_root_climbs(p: CompiledPlan, ready: Seq<bool>)
    requires
        p.join_namespaces@.len() <= usize::MAX,
        p.mounts@.len() <= usize::MAX,
        p.ext.hooks.create_container@.len() <= usize::MAX,
        p.ext.hooks.start_container@.len() <= usize::MAX,
        p.default_devices@.len() <= usize::MAX,
        p.default_symlinks@.len() <= usize::MAX,
        p.masked_paths@.len() <= usize::MAX,
        p.readonly_paths@.len() <= usize::MAX,
        p.sysctls@.len() <= usize::MAX,
        p.rlimits@.len() <= usize::MAX,
    ensures
        climbs(root_steps(p, ready), (3, 0), (7, 0)),
{
    let e0 = one(ChildOp::MakePrivate);
    assert(climbs(e0, (3, 0), (4, 0))) by {
        reveal(climbs);
    }
    let q0 = e0;
    let e1 = one(ChildOp::BindRoot);
    assert(climbs(e1, (4, 0), (5, 0))) by {
        reveal(climbs);
    }
    let q1 = q0 + e1;
    lemma_climbs_sum(q0, e1, (3, 0), (4, 0), (5, 0));
    let e2 = for_each(p.mounts@.len(), mount_at(p, ready));
    lemma_mounts_climb(p, ready);
    let q2 = q1 + e2;
    lemma_climbs_sum(q1, e2, (3, 0), (5, 0), (6, 0));
    let e3 = switch_steps(p);
    assert(climbs(e3, (6, 0), (7, 0))) by {
        reveal(climbs);
    }
    let q3 = q2 + e3;
    lemma_climbs_sum(q2, e3, (3, 0), (6, 0), (7, 0));
    assert(root_steps(p, ready) == q3);
}

proof fn lemma_fit_out_climbs(p: CompiledPlan)
    requires
        p.join_namespaces@.len() <= usize::MAX,
        p.mounts@.len() <= usize::MAX,
        p.ext.hooks.create_container@.len() <= usize::MAX,
        p.ext.hooks.start_container@.len() <= usize::MAX,
        p.default_devices@.len() <= usize::MAX,
        p.default_symlinks@.len() <= usize::MAX,
        p.masked_paths@.len() <= usize::MAX,
        p.readonly_paths@.len() <= usize::MAX,
        p.sysctls@.len() <= usize::MAX,
        p.rlimits@.len() <= usize::MAX,
    ensures
        climbs(fit_out_steps(p), (7, 0), (20, 0)),
{
    let e0 = when(p.rootfs_propagation != 0, one(ChildOp::SetPropagation));
    assert(climbs(e0, (7, 0), (8, 0))) by {
        reveal(climbs);
    }
    let q0 = e0;
    let e1 = when(p.set_hostname, one(ChildOp::SetHostname));
    assert(climbs(e1, (8, 0), (9, 0))) by {
        reveal(climbs);
    }
    let q1 = q0 + e1;
    lemma_climbs_sum(q0, e1, (7, 0), (8, 0), (9, 0));
    let e2 = for_each(p.ext.hooks.create_container@.len(), create_hook_at());
    lemma_create_hooks_climb(p);
    let q2 = q1 + e2;
    lemma_climbs_sum(q1, e2, (7, 0), (9, 0), (10, 0));
    let e3 = one(ChildOp::ClearUmask);
    assert(climbs(e3, (10, 0), (11, 0))) by {
        reveal(climbs);
    }
    let q3 = q2 + e3;
    lemma_climbs_sum(q2, e3, (7, 0), (10, 0), (11, 0));
    let e4 = for_each(p.default_devices@.len(), device_at(p));
    lemma_devices_climb(p);
    let q4 = q3 + e4;
    lemma_climbs_sum(q3, e4, (7, 0), (11, 0), (12, 0));
    let e5 = one(ChildOp::RestoreUmask);
    assert(climbs(e5, (12, 0), (13, 0))) by {
        reveal(climbs);
    }
    let q5 = q4 + e5;
    lemma_climbs_sum(q4, e5, (7, 0), (12, 0), (13, 0));
    let e6 = for_each(p.default_symlinks@.len(), link_at());
    lemma_links_climb(p);
    let q6 = q5 + e6;
    lemma_climbs_sum(q5, e6, (7, 0), (13, 0), (14, 0));
    let e7 = for_each(p.masked_paths@.len(), mask_at());
    lemma_masks_climb(p);
    let q7 = q6 + e7;
    lemma_climbs_sum(q6, e7, (7, 0), (14, 0), (15, 0));
    let e8 = for_each(p.readonly_paths@.len(), readonly_at());
    lemma_readonly_climb(p);
    let q8 = q7 + e8;
    lemma_climbs_sum(q7, e8, (7, 0), (15, 0), (16, 0));
    let e9 = when(p.root_readonly, one(ChildOp::RootReadonly));
    assert(climbs(e9, (16, 0), (17, 0))) by {
        reveal(climbs);
    }
    let q9 = q8 + e9;
    lemma_climbs_sum(q8, e9, (7, 0), (16, 0), (17, 0));
    let e10 = for_each(p.sysctls@.len(), sysctl_at());
    lemma_sysctls_climb(p);
    let q10 = q9 + e10;
    lemma_climbs_sum(q9, e10, (7, 0), (17, 0), (18, 0));
    let e11 = one(ChildOp::Chdir);
    assert(climbs(e11, (18, 0), (19, 0))) by {
        reveal(climbs);
    }
    let q11 = q10 + e11;
    lemma_climbs_sum(q10, e11, (7, 0), (18, 0), (19, 0));
    let e12 = one(ChildOp::AwaitStart);
    assert(climbs(e12, (19, 0), (20, 0))) by {
        reveal(climbs);
    }
    let q12 = q11 + e12;
    lemma_climbs_sum(q11, e12, (7, 0), (19, 0), (20, 0));
    assert(fit_out_steps(p) == q12);
}

proof fn lemma_restrict_climbs(p: CompiledPlan)
    requires
        p.join_namespaces@.len() <= usize::MAX,
        p.mounts@.len() <= usize::MAX,
        p.ext.hooks.create_container@.len() <= usize::MAX,
        p.ext.hooks.start_container@.len() <= usize::MAX,
        p.default_devices@.len() <= usize::MAX,
        p.default_symlinks@.len() <= usize::MAX,
        p.masked_paths@.len() <= usize::MAX,
        p.readonly_paths@.len() <= usize::MAX,
        p.sysctls@.len() <= usize::MAX,
        p.rlimits@.len() <= usize::MAX,
    ensures
        climbs(restrict_steps(p), (20, 0), (28, 0)),
{
    let e0 = for_each(p.rlimits@.len(), rlimit_at());
    lemma_rlimits_climb(p);
    let q0 = e0;
    let e1 = when(p.user_additional_gids@.len() > 0, one(ChildOp::SetGroups));
    assert(climbs(e1, (21, 0), (22, 0))) by {
        reveal(climbs);
    }
    let q1 = q0 + e1;
    lemma_climbs_sum(q0, e1, (20, 0), (21, 0), (22, 0));
    let e2 = when(p.user_umask is Some, one(ChildOp::SetUmask));
    assert(climbs(e2, (22, 0), (23, 0))) by {
        reveal(climbs);
    }
    let q2 = q1 + e2;
    lemma_climbs_sum(q1, e2, (20, 0), (22, 0), (23, 0));
    let e3 = when(p.caps is Some, cap_steps());
    assert(climbs(e3, (23, 0), (24, 0))) by {
        reveal(climbs);
    }
    let q3 = q2 + e3;
    lemma_climbs_sum(q2, e3, (20, 0), (23, 0), (24, 0));
    let e4 = when(p.user_gid != 0, one(ChildOp::SetGid));
    assert(climbs(e4, (24, 0), (25, 0))) by {
        reveal(climbs);
    }
    let q4 = q3 + e4;
    lemma_climbs_sum(q3, e4, (20, 0), (24, 0), (25, 0));
    let e5 = when(p.user_uid != 0, user_steps(p));
    assert(climbs(e5, (25, 0), (26, 0))) by {
        reveal(climbs);
    }
    let q5 = q4 + e5;
    lemma_climbs_sum(q4, e5, (20, 0), (25, 0), (26, 0));
    let e6 = when(p.no_new_privileges, one(ChildOp::NoNewPrivs));
    assert(climbs(e6, (26, 0), (27, 0))) by {
        reveal(climbs);
    }
    let q6 = q5 + e6;
    lemma_climbs_sum(q5, e6, (20, 0), (26, 0), (27, 0));
    let e7 = when(p.ext.seccomp_bpf@.len() > 0, one(ChildOp::InstallSeccomp));
    assert(climbs(e7, (27, 0), (28, 0))) by {
        reveal(climbs);
    }
    let q7 = q6 + e7;
    lemma_climbs_sum(q6, e7, (20, 0), (27, 0), (28, 0));
    assert(restrict_steps(p) == q7);
}

proof fn lemma_last_climbs(p: CompiledPlan, tty: bool)
    requires
        p.join_namespaces@.len() <= usize::MAX,
        p.mounts@.len() <= usize::MAX,
        p.ext.hooks.create_container@.len() <= usize::MAX,
        p.ext.hooks.start_container@.len() <= usize::MAX,
        p.default_devices@.len() <= usize::MAX,
        p.default_symlinks@.len() <= usize::MAX,
        p.masked_paths@.len() <= usize::MAX,
        p.readonly_paths@.len() <= usize::MAX,
        p.sysctls@.len() <= usize::MAX,
        p.rlimits@.len() <= usize::MAX,
    ensures
        climbs(last_steps(p, tty), (28, 0), (34, 0)),
{
    let e0 = when(tty, terminal_steps());
    assert(climbs(e0, (28, 0), (29, 0))) by {
        reveal(climbs);
    }
    let q0 = e0;
    let e1 = for_each(p.ext.hooks.start_container@.len(), start_hook_at());
    lemma_start_hooks_climb(p);
    let q1 = q0 + e1;
    lemma_climbs_sum(q0, e1, (28, 0), (29, 0), (30, 0));
    let e2 = when(p.apparmor_profile is Some, apparmor_steps());
    assert(climbs(e2, (30, 0), (31, 0))) by {
        reveal(climbs);
    }
    let q2 = q1 + e2;
    lemma_climbs_sum(q1, e2, (28, 0), (30, 0), (31, 0));
    let e3 = when(p.selinux_label is Some, selinux_steps());
    assert(climbs(e3, (31, 0), (32, 0))) by {
        reveal(climbs);
    }
    let q3 = q2 + e3;
    lemma_climbs_sum(q2, e3, (28, 0), (31, 0), (32, 0));
    let e4 = one(exec_op(p));
    assert(climbs(e4, (32, 0), (34, 0))) by {
        reveal(climbs);
    }
    let q4 = q3 + e4;
    lemma_climbs_sum(q3, e4, (28, 0), (32, 0), (34, 0));
    assert(last_steps(p, tty) == q4);
}

/// The steps of the process of a container come one after the other: stage by stage, and in a stage in
/// turn, so that none is taken twice and none before the one that it needs.
pub proof fn law_child_steps_in_turn(p: CompiledPlan, ready: Seq<bool>, tty: bool, i: int, j: int)
    requires
        p.join_namespaces@.len() <= usize::MAX,
        p.mounts@.len() <= usize::MAX,
        p.ext.hooks.create_container@.len() <= usize::MAX,
        p.ext.hooks.start_container@.len() <= usize::MAX,
        p.default_devices@.len() <= usize::MAX,
        p.default_symlinks@.len() <= usize::MAX,
        p.masked_paths@.len() <= usize::MAX,
        p.readonly_paths@.len() <= usize::MAX,
        p.sysctls@.len() <= usize::MAX,
        p.rlimits@.len() <= usize::MAX,
        0 <= i < j < child_steps(p, ready, tty).len(),
    ensures
        ({
            let a = child_steps(p, ready, tty)[i].op;
            let b = child_steps(p, ready, tty)[j].op;
            stage(a) < stage(b) || (stage(a) == stage(b) && turn(a) < turn(b))
        }),
{
    lemma_enter_climbs(p);
    lemma_root_climbs(p, ready);
    lemma_fit_out_climbs(p);
    lemma_restrict_climbs(p);
    lemma_last_climbs(p, tty);
    let a = enter_steps(p) + root_steps(p, ready);
    lemma_climbs_sum(enter_steps(p), root_steps(p, ready), (0, 0), (3, 0), (7, 0));
    let b = a + fit_out_steps(p);
    lemma_climbs_sum(a, fit_out_steps(p), (0, 0), (7, 0), (20, 0));
    let c = b + restrict_steps(p);
    lemma_climbs_sum(b, restrict_steps(p), (0, 0), (20, 0), (28, 0));
    lemma_climbs_sum(c, last_steps(p, tty), (0, 0), (28, 0), (34, 0));
    let s = child_steps(p, ready, tty);
    assert(s == c + last_steps(p, tty));
    reveal(climbs);
    assert(below(place(s[i].op), place(s[j].op)));
}

/// What follows a step of the process: after one that went well the next, or one further on where it
/// leaves some out; a hook that fails always ends the process, and so does a pipe that closed.
pub proof fn law_step_turns(s: Seq<ChildStep>, pc: int, out: StepOutcome, cause: Cause)
    requires
        0 <= pc < s.len(),
    ensures
        out == StepOutcome::Done ==> step_after(s, pc, out) == ChildNext::At(
            (pc + 1 + s[pc].skip_ok) as usize,
        ),
        out == StepOutcome::Failed(cause) && cause != Cause::Call ==> step_after(s, pc, out) is Die,
        out == StepOutcome::Failed(Cause::Call) && fatal_code(s[pc].op) is None ==> step_after(
            s,
            pc,
            out,
        ) == ChildNext::At((pc + 1 + s[pc].skip_fail) as usize),
        out == StepOutcome::Failed(Cause::Call) ==> (fatal_code(s[pc].op) matches Some(c) ==> step_after(
            s,
            pc,
            out,
        ) == ChildNext::Die(c)),
        out == StepOutcome::Failed(Cause::HookFork) ==> step_after(s, pc, out) == ChildNext::Die(
            113,
        ),
        out == StepOutcome::Failed(Cause::HookTimeout) ==> step_after(s, pc, out)
            == ChildNext::Die(116),
        out == StepOutcome::Failed(Cause::HookPoll) || out == StepOutcome::Failed(Cause::HookWait)
            ==> step_after(s, pc, out) == ChildNext::Die(114),
        out == StepOutcome::Failed(Cause::HookExit) || out == StepOutcome::Failed(Cause::HookSignal)
            ==> step_after(s, pc, out) == ChildNext::Die(115),
        out == StepOutcome::Failed(Cause::PipeClosed) ==> step_after(s, pc, out)
            == ChildNext::Die(110),
        out == StepOutcome::Failed(Cause::Poll) ==> step_after(s, pc, out) == ChildNext::Die(107),
{
}

/// What an exit code says of the process: which step it was that failed.
pub proof fn law_codes_tell(op: ChildOp, c: i32)
    requires
        fatal_code(op) == Some(c),
    ensures
        c == 101 <==> op == ChildOp::MakePrivate,
        c == 102 <==> op == ChildOp::BindRoot,
        c == 103 <==> op == ChildOp::PivotRoot || op == ChildOp::Chroot,
        c == 104 <==> op == ChildOp::ChdirRoot,
        c == 105 <==> op == ChildOp::DetachOldRoot,
        c == 107 <==> op == ChildOp::AwaitStart,
        c == 108 <==> op == ChildOp::RequireCommand,
        c == 109 <==> op == ChildOp::SetCaps || op == ChildOp::SetGid || op == ChildOp::KeepCaps || op
            == ChildOp::SetUid || op == ChildOp::ReadCaps || op == ChildOp::RestoreCaps || op
            == ChildOp::InstallSeccomp,
        c == 110 <==> op == ChildOp::AwaitIdMaps,
        c == 111 <==> op == ChildOp::RootGid || op == ChildOp::RootUid,
        c == 112 <==> op is OpenNamespace || op is CheckNamespace || op is EnterNamespace,
        c == 116 <==> op == ChildOp::NewSession,
        c == 117 <==> op == ChildOp::ClaimTerminal,
        c == 118 <==> op is DupTerminal,
        c == 119 <==> op == ChildOp::ForkIntoPidNamespace,
        c == 120 <==> op == ChildOp::CheckAppArmorName || op == ChildOp::OpenAppArmor || op
            == ChildOp::WriteAppArmor,
        c == 121 <==> op == ChildOp::OpenSelinux || op == ChildOp::WriteSelinux,
        c == 127 <==> op == ChildOp::Exec,
        c == 130 <==> op is IdmapMount,
{
}

} // verus!
