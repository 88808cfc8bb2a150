//! A bundle compiled into what the runtime performs: every decision is taken here, before the
//! container process exists.

use vstd::prelude::*;
use vstd::string::*;
use vstd::utf8::*;

use crate::error::{Error, ErrorKind};
use crate::path;
use crate::path::join;
use crate::seccomp::SockFilter;
use crate::spec;
use crate::spec::{
    Capabilities, IdMapping, MountSpec, MountView, NamespaceEntry, NamespaceKind, NamespaceView,
    RLimit, RLimitKind, Spec,
};
use crate::text;
use crate::text::{
    cat2, contains_char, dec_u64, join_texts, owned, replace_char, starts_with, str_eq, trim_front,
};

verus! {

pub const CLONE_NEWNS: u64 = 0x20000;

pub const CLONE_NEWCGROUP: u64 = 0x2000000;

pub const CLONE_NEWUTS: u64 = 0x4000000;

pub const CLONE_NEWIPC: u64 = 0x8000000;

pub const CLONE_NEWUSER: u64 = 0x10000000;

pub const CLONE_NEWPID: u64 = 0x20000000;

pub const CLONE_NEWNET: u64 = 0x40000000;

pub const MS_RDONLY: u64 = 1;

pub const MS_NOSUID: u64 = 2;

pub const MS_NODEV: u64 = 4;

pub const MS_NOEXEC: u64 = 8;

pub const MS_NOATIME: u64 = 1024;

pub const MS_BIND: u64 = 4096;

pub const MS_REC: u64 = 16384;

pub const MS_UNBINDABLE: u64 = 131072;

pub const MS_PRIVATE: u64 = 262144;

pub const MS_SLAVE: u64 = 524288;

pub const MS_SHARED: u64 = 1048576;

pub const MS_RELATIME: u64 = 2097152;

pub const MS_STRICTATIME: u64 = 16777216;

/// Options of one `create` that do not come from the bundle.
#[derive(Clone, Copy)]
pub struct CreateOpts {
    /// How many descriptors from 3 on the container init inherits.
    pub preserve_fds: u32,
    /// Use chroot in place of pivot_root.
    pub no_pivot: bool,
}

impl Default for CreateOpts {
    fn default() -> (o: CreateOpts)
        ensures
            o.preserve_fds == 0,
            !o.no_pivot,
    {
        CreateOpts { preserve_fds: 0, no_pivot: false }
    }
}

/// The five capability sets as bit masks.
#[derive(Clone, Copy)]
pub struct CapBitmasks {
    pub bounding: u64,
    pub effective: u64,
    pub permitted: u64,
    pub inheritable: u64,
    pub ambient: u64,
}

impl Default for CapBitmasks {
    fn default() -> (c: CapBitmasks)
        ensures
            c == (CapBitmasks { bounding: 0, effective: 0, permitted: 0, inheritable: 0, ambient: 0 }),
    {
        CapBitmasks { bounding: 0, effective: 0, permitted: 0, inheritable: 0, ambient: 0 }
    }
}

/// A device node every container gets.
pub struct DefaultDevice {
    pub path: String,
    pub mode: u32,
    /// `c` for a character device.
    pub kind: char,
    pub major: u32,
    pub minor: u32,
}

/// A mount, ready for the `mount` call.
pub struct MountOp {
    pub source: String,
    pub target: String,
    pub fstype: String,
    pub flags: u64,
    pub data: Option<String>,
    /// The id maps of the mount in the kernel's line format; empty when it is not idmapped.
    pub idmap_uid: Vec<u8>,
    pub idmap_gid: Vec<u8>,
}

/// A command to run at a point of the container's life.
pub struct HookCmd {
    pub path: String,
    pub args: Vec<String>,
    pub env: Vec<String>,
    pub timeout_ms: Option<u64>,
}

/// The commands for each of the six points.
pub struct Hooks {
    pub prestart: Vec<HookCmd>,
    pub create_runtime: Vec<HookCmd>,
    pub create_container: Vec<HookCmd>,
    pub start_container: Vec<HookCmd>,
    pub poststart: Vec<HookCmd>,
    pub poststop: Vec<HookCmd>,
}

/// What is compiled besides the core plan. An empty member is not applied.
pub struct ExtPlan {
    /// The seccomp filter, installed before exec.
    pub seccomp_bpf: Vec<SockFilter>,
    /// The cgroup directory the container joins.
    pub cgroup_v2_path: Option<String>,
    /// File names below that directory and what is written there.
    pub cgroup_v2_writes: Vec<(String, Vec<u8>)>,
    /// The device filter program.
    pub device_cgroup_bpf: Vec<u8>,
    pub hooks: Hooks,
}

/// A bundle, compiled.
pub struct CompiledPlan {
    /// Namespaces that exist already, to be joined by path.
    pub join_namespaces: Vec<(NamespaceKind, String)>,
    pub ext: ExtPlan,
    /// The flags of the namespaces to create.
    pub clone_flags: u64,
    pub wants_userns: bool,
    /// The id maps in the kernel's line format; empty without a user namespace.
    pub uid_map_data: Vec<u8>,
    pub gid_map_data: Vec<u8>,
    pub set_hostname: bool,
    /// Resource number, soft limit, hard limit.
    pub rlimits: Vec<(u32, u64, u64)>,
    pub caps: Option<CapBitmasks>,
    pub no_new_privileges: bool,
    pub default_devices: Vec<DefaultDevice>,
    /// Links below `/dev`: what they point at, where they are.
    pub default_symlinks: Vec<(String, String)>,
    pub masked_paths: Vec<String>,
    pub readonly_paths: Vec<String>,
    pub user_uid: u32,
    pub user_gid: u32,
    pub user_additional_gids: Vec<u32>,
    pub user_umask: Option<u32>,
    pub apparmor_profile: Option<String>,
    pub selinux_label: Option<String>,
    /// Paths below `/proc/sys` and what is written there.
    pub sysctls: Vec<(String, Vec<u8>)>,
    pub rootfs_propagation: u64,
    pub no_pivot: bool,
    pub oom_score_adj: Option<i32>,
    pub scheduler: Option<crate::spec::SchedulerSpec>,
    pub hostname: String,
    pub root_path: String,
    pub root_readonly: bool,
    pub mounts: Vec<MountOp>,
    pub argv: Vec<String>,
    pub envp: Vec<String>,
    pub cwd: String,
    pub terminal: bool,
    /// Where the engine waits for the terminal, if it does.
    pub console_socket: Option<String>,
}

/// The flag that creates a namespace.
pub open spec fn ns_flag(kind: NamespaceKind) -> u64 {
    match kind {
        NamespaceKind::Mount => CLONE_NEWNS,
        NamespaceKind::Cgroup => CLONE_NEWCGROUP,
        NamespaceKind::Uts => CLONE_NEWUTS,
        NamespaceKind::Ipc => CLONE_NEWIPC,
        NamespaceKind::User => CLONE_NEWUSER,
        NamespaceKind::Pid => CLONE_NEWPID,
        NamespaceKind::Network => CLONE_NEWNET,
    }
}

/// The flag that creates a namespace.
pub fn clone_flag(kind: NamespaceKind) -> (f: u64)
    ensures
        f == ns_flag(kind),
{
    match kind {
        NamespaceKind::Mount => CLONE_NEWNS,
        NamespaceKind::Cgroup => CLONE_NEWCGROUP,
        NamespaceKind::Uts => CLONE_NEWUTS,
        NamespaceKind::Ipc => CLONE_NEWIPC,
        NamespaceKind::User => CLONE_NEWUSER,
        NamespaceKind::Pid => CLONE_NEWPID,
        NamespaceKind::Network => CLONE_NEWNET,
    }
}

/// The number of a resource.
pub open spec fn rlimit_number(kind: RLimitKind) -> u32 {
    match kind {
        RLimitKind::Cpu => 0,
        RLimitKind::Fsize => 1,
        RLimitKind::Data => 2,
        RLimitKind::Stack => 3,
        RLimitKind::Core => 4,
        RLimitKind::Rss => 5,
        RLimitKind::Nproc => 6,
        RLimitKind::Nofile => 7,
        RLimitKind::Memlock => 8,
        RLimitKind::As => 9,
        RLimitKind::Locks => 10,
        RLimitKind::Sigpending => 11,
        RLimitKind::Msgqueue => 12,
        RLimitKind::Nice => 13,
        RLimitKind::Rtprio => 14,
        RLimitKind::Rttime => 15,
    }
}

/// The number of a resource.
fn resource_number(kind: RLimitKind) -> (n: u32)
    ensures
        n == rlimit_number(kind),
{
    match kind {
        RLimitKind::Cpu => 0,
        RLimitKind::Fsize => 1,
        RLimitKind::Data => 2,
        RLimitKind::Stack => 3,
        RLimitKind::Core => 4,
        RLimitKind::Rss => 5,
        RLimitKind::Nproc => 6,
        RLimitKind::Nofile => 7,
        RLimitKind::Memlock => 8,
        RLimitKind::As => 9,
        RLimitKind::Locks => 10,
        RLimitKind::Sigpending => 11,
        RLimitKind::Msgqueue => 12,
        RLimitKind::Nice => 13,
        RLimitKind::Rtprio => 14,
        RLimitKind::Rttime => 15,
    }
}

/// The number of a capability, by its name without the common prefix.
pub open spec fn bare_cap_number(s: Seq<char>) -> Option<u32> {
    if s == "CHOWN"@ {
        Some(0)
    } else if s == "DAC_OVERRIDE"@ {
        Some(1)
    } else if s == "DAC_READ_SEARCH"@ {
        Some(2)
    } else if s == "FOWNER"@ {
        Some(3)
    } else if s == "FSETID"@ {
        Some(4)
    } else if s == "KILL"@ {
        Some(5)
    } else if s == "SETGID"@ {
        Some(6)
    } else if s == "SETUID"@ {
        Some(7)
    } else if s == "SETPCAP"@ {
        Some(8)
    } else if s == "LINUX_IMMUTABLE"@ {
        Some(9)
    } else if s == "NET_BIND_SERVICE"@ {
        Some(10)
    } else if s == "NET_BROADCAST"@ {
        Some(11)
    } else if s == "NET_ADMIN"@ {
        Some(12)
    } else if s == "NET_RAW"@ {
        Some(13)
    } else if s == "IPC_LOCK"@ {
        Some(14)
    } else if s == "IPC_OWNER"@ {
        Some(15)
    } else if s == "SYS_MODULE"@ {
        Some(16)
    } else if s == "SYS_RAWIO"@ {
        Some(17)
    } else if s == "SYS_CHROOT"@ {
        Some(18)
    } else if s == "SYS_PTRACE"@ {
        Some(19)
    } else if s == "SYS_PACCT"@ {
        Some(20)
    } else if s == "SYS_ADMIN"@ {
        Some(21)
    } else if s == "SYS_BOOT"@ {
        Some(22)
    } else if s == "SYS_NICE"@ {
        Some(23)
    } else if s == "SYS_RESOURCE"@ {
        Some(24)
    } else if s == "SYS_TIME"@ {
        Some(25)
    } else if s == "SYS_TTY_CONFIG"@ {
        Some(26)
    } else if s == "MKNOD"@ {
        Some(27)
    } else if s == "LEASE"@ {
        Some(28)
    } else if s == "AUDIT_WRITE"@ {
        Some(29)
    } else if s == "AUDIT_CONTROL"@ {
        Some(30)
    } else if s == "SETFCAP"@ {
        Some(31)
    } else if s == "MAC_OVERRIDE"@ {
        Some(32)
    } else if s == "MAC_ADMIN"@ {
        Some(33)
    } else if s == "SYSLOG"@ {
        Some(34)
    } else if s == "WAKE_ALARM"@ {
        Some(35)
    } else if s == "BLOCK_SUSPEND"@ {
        Some(36)
    } else if s == "AUDIT_READ"@ {
        Some(37)
    } else if s == "PERFMON"@ {
        Some(38)
    } else if s == "BPF"@ {
        Some(39)
    } else if s == "CHECKPOINT_RESTORE"@ {
        Some(40)
    } else {
        None
    }
}

/// The number of a capability; the prefix `CAP_` may be left out.
pub open spec fn cap_number(name: Seq<char>) -> Option<u32> {
    bare_cap_number(
        if "CAP_"@.is_prefix_of(name) {
            name.skip("CAP_"@.len() as int)
        } else {
            name
        },
    )
}

/// The number of a capability, by its name without the common prefix.
fn bare_cap_bit(s: &str) -> (r: Option<u32>)
    ensures
        r == bare_cap_number(s@),
{
    if str_eq(s, "CHOWN") {
        Some(0)
    } else if str_eq(s, "DAC_OVERRIDE") {
        Some(1)
    } else if str_eq(s, "DAC_READ_SEARCH") {
        Some(2)
    } else if str_eq(s, "FOWNER") {
        Some(3)
    } else if str_eq(s, "FSETID") {
        Some(4)
    } else if str_eq(s, "KILL") {
        Some(5)
    } else if str_eq(s, "SETGID") {
        Some(6)
    } else if str_eq(s, "SETUID") {
        Some(7)
    } else if str_eq(s, "SETPCAP") {
        Some(8)
    } else if str_eq(s, "LINUX_IMMUTABLE") {
        Some(9)
    } else if str_eq(s, "NET_BIND_SERVICE") {
        Some(10)
    } else if str_eq(s, "NET_BROADCAST") {
        Some(11)
    } else if str_eq(s, "NET_ADMIN") {
        Some(12)
    } else if str_eq(s, "NET_RAW") {
        Some(13)
    } else if str_eq(s, "IPC_LOCK") {
        Some(14)
    } else if str_eq(s, "IPC_OWNER") {
        Some(15)
    } else if str_eq(s, "SYS_MODULE") {
        Some(16)
    } else if str_eq(s, "SYS_RAWIO") {
        Some(17)
    } else if str_eq(s, "SYS_CHROOT") {
        Some(18)
    } else if str_eq(s, "SYS_PTRACE") {
        Some(19)
    } else if str_eq(s, "SYS_PACCT") {
        Some(20)
    } else if str_eq(s, "SYS_ADMIN") {
        Some(21)
    } else if str_eq(s, "SYS_BOOT") {
        Some(22)
    } else if str_eq(s, "SYS_NICE") {
        Some(23)
    } else if str_eq(s, "SYS_RESOURCE") {
        Some(24)
    } else if str_eq(s, "SYS_TIME") {
        Some(25)
    } else if str_eq(s, "SYS_TTY_CONFIG") {
        Some(26)
    } else if str_eq(s, "MKNOD") {
        Some(27)
    } else if str_eq(s, "LEASE") {
        Some(28)
    } else if str_eq(s, "AUDIT_WRITE") {
        Some(29)
    } else if str_eq(s, "AUDIT_CONTROL") {
        Some(30)
    } else if str_eq(s, "SETFCAP") {
        Some(31)
    } else if str_eq(s, "MAC_OVERRIDE") {
        Some(32)
    } else if str_eq(s, "MAC_ADMIN") {
        Some(33)
    } else if str_eq(s, "SYSLOG") {
        Some(34)
    } else if str_eq(s, "WAKE_ALARM") {
        Some(35)
    } else if str_eq(s, "BLOCK_SUSPEND") {
        Some(36)
    } else if str_eq(s, "AUDIT_READ") {
        Some(37)
    } else if str_eq(s, "PERFMON") {
        Some(38)
    } else if str_eq(s, "BPF") {
        Some(39)
    } else if str_eq(s, "CHECKPOINT_RESTORE") {
        Some(40)
    } else {
        None
    }
}

/// The number of a capability; the prefix `CAP_` may be left out.
pub fn cap_bit(name: &str) -> (r: Option<u32>)
    ensures
        r == cap_number(name@),
{
    if starts_with(name, "CAP_") {
        let n = name.unicode_len();
        let k = "CAP_".unicode_len();
        let rest = name.substring_char(k, n);
        proof {
            assert(rest@ =~= name@.skip(k as int));
        }
        bare_cap_bit(rest)
    } else {
        bare_cap_bit(name)
    }
}

/// The number of a capability, for `process.json`.
pub fn cap_bit_for_name(name: &str) -> (r: Option<u32>)
    ensures
        r == cap_number(name@),
{
    cap_bit(name)
}

/// The flags of a mount option; an option without flags is data for the filesystem.
pub open spec fn option_flags(s: Seq<char>) -> Option<u64> {
    if s == "ro"@ {
        Some(MS_RDONLY)
    } else if s == "rw"@ {
        Some(0u64)
    } else if s == "nosuid"@ {
        Some(MS_NOSUID)
    } else if s == "nodev"@ {
        Some(MS_NODEV)
    } else if s == "noexec"@ {
        Some(MS_NOEXEC)
    } else if s == "relatime"@ {
        Some(MS_RELATIME)
    } else if s == "noatime"@ {
        Some(MS_NOATIME)
    } else if s == "strictatime"@ {
        Some(MS_STRICTATIME)
    } else if s == "bind"@ {
        Some(MS_BIND)
    } else if s == "rbind"@ {
        Some(MS_BIND | MS_REC)
    } else if s == "private"@ {
        Some(MS_PRIVATE)
    } else if s == "rprivate"@ {
        Some(MS_PRIVATE | MS_REC)
    } else if s == "shared"@ {
        Some(MS_SHARED)
    } else if s == "rshared"@ {
        Some(MS_SHARED | MS_REC)
    } else if s == "slave"@ {
        Some(MS_SLAVE)
    } else if s == "rslave"@ {
        Some(MS_SLAVE | MS_REC)
    } else {
        None
    }
}

/// The flags of a mount option.
fn mount_option_flags(s: &str) -> (r: Option<u64>)
    ensures
        r == option_flags(s@),
{
    if str_eq(s, "ro") {
        Some(MS_RDONLY)
    } else if str_eq(s, "rw") {
        Some(0u64)
    } else if str_eq(s, "nosuid") {
        Some(MS_NOSUID)
    } else if str_eq(s, "nodev") {
        Some(MS_NODEV)
    } else if str_eq(s, "noexec") {
        Some(MS_NOEXEC)
    } else if str_eq(s, "relatime") {
        Some(MS_RELATIME)
    } else if str_eq(s, "noatime") {
        Some(MS_NOATIME)
    } else if str_eq(s, "strictatime") {
        Some(MS_STRICTATIME)
    } else if str_eq(s, "bind") {
        Some(MS_BIND)
    } else if str_eq(s, "rbind") {
        Some(MS_BIND | MS_REC)
    } else if str_eq(s, "private") {
        Some(MS_PRIVATE)
    } else if str_eq(s, "rprivate") {
        Some(MS_PRIVATE | MS_REC)
    } else if str_eq(s, "shared") {
        Some(MS_SHARED)
    } else if str_eq(s, "rshared") {
        Some(MS_SHARED | MS_REC)
    } else if str_eq(s, "slave") {
        Some(MS_SLAVE)
    } else if str_eq(s, "rslave") {
        Some(MS_SLAVE | MS_REC)
    } else {
        None
    }
}

/// The flags of a propagation mode; none for an unknown mode.
pub open spec fn propagation_flags(s: Seq<char>) -> u64 {
    if s == "shared"@ {
        MS_SHARED
    } else if s == "slave"@ {
        MS_SLAVE
    } else if s == "private"@ {
        MS_PRIVATE
    } else if s == "unbindable"@ {
        MS_UNBINDABLE
    } else if s == "rshared"@ {
        MS_SHARED | MS_REC
    } else if s == "rslave"@ {
        MS_SLAVE | MS_REC
    } else if s == "rprivate"@ {
        MS_PRIVATE | MS_REC
    } else if s == "runbindable"@ {
        MS_UNBINDABLE | MS_REC
    } else {
        0
    }
}

/// The flags of a propagation mode.
fn propagation_of(s: &str) -> (r: u64)
    ensures
        r == propagation_flags(s@),
{
    if str_eq(s, "shared") {
        MS_SHARED
    } else if str_eq(s, "slave") {
        MS_SLAVE
    } else if str_eq(s, "private") {
        MS_PRIVATE
    } else if str_eq(s, "unbindable") {
        MS_UNBINDABLE
    } else if str_eq(s, "rshared") {
        MS_SHARED | MS_REC
    } else if str_eq(s, "rslave") {
        MS_SLAVE | MS_REC
    } else if str_eq(s, "rprivate") {
        MS_PRIVATE | MS_REC
    } else if str_eq(s, "runbindable") {
        MS_UNBINDABLE | MS_REC
    } else {
        0
    }
}

/// The flags of the propagation mode a bundle asks for; none where it asks for none.
pub fn parse_propagation(s: &Option<String>) -> (r: u64)
    ensures
        r == (match *s {
            Some(t) => propagation_flags(t@),
            None => 0,
        }),
{
    match s {
        Some(t) => propagation_of(t.as_str()),
        None => 0,
    }
}

/// The bit mask of a list of capability names; a name that is none adds nothing.
pub open spec fn cap_bits(names: Seq<Seq<char>>) -> u64
    decreases names.len(),
{
    if names.len() == 0 {
        0
    } else {
        match cap_number(names.last()) {
            Some(bit) => cap_bits(names.drop_last()) | (1u64 << bit),
            None => cap_bits(names.drop_last()),
        }
    }
}

/// Every capability has a number below 64.
pub proof fn lemma_cap_number_small(name: Seq<char>)
    ensures
        match cap_number(name) {
            Some(bit) => bit <= 40,
            None => true,
        },
{
}

/// The bit mask of a list of capability names.
pub fn cap_mask(names: &Vec<String>) -> (mask: u64)
    ensures
        mask == cap_bits(text::texts(names@)),
{
    let ghost all = text::texts(names@);
    let mut mask: u64 = 0;
    let mut i: usize = 0;
    proof {
        assert(all.subrange(0, 0) =~= Seq::<Seq<char>>::empty());
    }
    while i < names.len()
        invariant
            i <= names.len(),
            all == text::texts(names@),
            mask == cap_bits(all.subrange(0, i as int)),
        decreases names.len() - i,
    {
        proof {
            assert(all.subrange(0, i + 1).drop_last() =~= all.subrange(0, i as int));
            assert(all.subrange(0, i + 1).last() == names@[i as int]@);
            lemma_cap_number_small(names@[i as int]@);
        }
        if let Some(bit) = cap_bit(names[i].as_str()) {
            mask = mask | (1u64 << bit);
        }
        i = i + 1;
    }
    proof {
        assert(all.subrange(0, all.len() as int) =~= all);
    }
    mask
}

/// The name of a capability without the common prefix; no name where there is no such capability.
pub open spec fn cap_name(bit: u32) -> Option<Seq<char>> {
    if bit == 0 {
        Some("CHOWN"@)
    } else if bit == 1 {
        Some("DAC_OVERRIDE"@)
    } else if bit == 2 {
        Some("DAC_READ_SEARCH"@)
    } else if bit == 3 {
        Some("FOWNER"@)
    } else if bit == 4 {
        Some("FSETID"@)
    } else if bit == 5 {
        Some("KILL"@)
    } else if bit == 6 {
        Some("SETGID"@)
    } else if bit == 7 {
        Some("SETUID"@)
    } else if bit == 8 {
        Some("SETPCAP"@)
    } else if bit == 9 {
        Some("LINUX_IMMUTABLE"@)
    } else if bit == 10 {
        Some("NET_BIND_SERVICE"@)
    } else if bit == 11 {
        Some("NET_BROADCAST"@)
    } else if bit == 12 {
        Some("NET_ADMIN"@)
    } else if bit == 13 {
        Some("NET_RAW"@)
    } else if bit == 14 {
        Some("IPC_LOCK"@)
    } else if bit == 15 {
        Some("IPC_OWNER"@)
    } else if bit == 16 {
        Some("SYS_MODULE"@)
    } else if bit == 17 {
        Some("SYS_RAWIO"@)
    } else if bit == 18 {
        Some("SYS_CHROOT"@)
    } else if bit == 19 {
        Some("SYS_PTRACE"@)
    } else if bit == 20 {
        Some("SYS_PACCT"@)
    } else if bit == 21 {
        Some("SYS_ADMIN"@)
    } else if bit == 22 {
        Some("SYS_BOOT"@)
    } else if bit == 23 {
        Some("SYS_NICE"@)
    } else if bit == 24 {
        Some("SYS_RESOURCE"@)
    } else if bit == 25 {
        Some("SYS_TIME"@)
    } else if bit == 26 {
        Some("SYS_TTY_CONFIG"@)
    } else if bit == 27 {
        Some("MKNOD"@)
    } else if bit == 28 {
        Some("LEASE"@)
    } else if bit == 29 {
        Some("AUDIT_WRITE"@)
    } else if bit == 30 {
        Some("AUDIT_CONTROL"@)
    } else if bit == 31 {
        Some("SETFCAP"@)
    } else if bit == 32 {
        Some("MAC_OVERRIDE"@)
    } else if bit == 33 {
        Some("MAC_ADMIN"@)
    } else if bit == 34 {
        Some("SYSLOG"@)
    } else if bit == 35 {
        Some("WAKE_ALARM"@)
    } else if bit == 36 {
        Some("BLOCK_SUSPEND"@)
    } else if bit == 37 {
        Some("AUDIT_READ"@)
    } else if bit == 38 {
        Some("PERFMON"@)
    } else if bit == 39 {
        Some("BPF"@)
    } else if bit == 40 {
        Some("CHECKPOINT_RESTORE"@)
    } else {
        None
    }
}

/// Whether a text is of capital letters and underscores.
pub open spec fn capital(s: Seq<char>) -> bool {
    forall|i: int| 0 <= i < s.len() ==> 'A' <= #[trigger] s[i] <= 'Z' || s[i] == '_'
}

/// The name of each capability stands for it, has no prefix and is in capitals.
#[verifier::rlimit(50)]
proof fn lemma_cap_name(bit: u32)
    requires
        bit <= 40,
    ensures
        cap_name(bit) is Some,
        bare_cap_number(cap_name(bit)->Some_0) == Some(bit),
        capital(cap_name(bit)->Some_0),
        !"CAP_"@.is_prefix_of(cap_name(bit)->Some_0),
{
    reveal_strlit("CAP_");
    reveal_strlit("CHOWN");
    reveal_strlit("DAC_OVERRIDE");
    reveal_strlit("DAC_READ_SEARCH");
    reveal_strlit("FOWNER");
    reveal_strlit("FSETID");
    reveal_strlit("KILL");
    reveal_strlit("SETGID");
    reveal_strlit("SETUID");
    reveal_strlit("SETPCAP");
    reveal_strlit("LINUX_IMMUTABLE");
    reveal_strlit("NET_BIND_SERVICE");
    reveal_strlit("NET_BROADCAST");
    reveal_strlit("NET_ADMIN");
    reveal_strlit("NET_RAW");
    reveal_strlit("IPC_LOCK");
    reveal_strlit("IPC_OWNER");
    reveal_strlit("SYS_MODULE");
    reveal_strlit("SYS_RAWIO");
    reveal_strlit("SYS_CHROOT");
    reveal_strlit("SYS_PTRACE");
    reveal_strlit("SYS_PACCT");
    reveal_strlit("SYS_ADMIN");
    reveal_strlit("SYS_BOOT");
    reveal_strlit("SYS_NICE");
    reveal_strlit("SYS_RESOURCE");
    reveal_strlit("SYS_TIME");
    reveal_strlit("SYS_TTY_CONFIG");
    reveal_strlit("MKNOD");
    reveal_strlit("LEASE");
    reveal_strlit("AUDIT_WRITE");
    reveal_strlit("AUDIT_CONTROL");
    reveal_strlit("SETFCAP");
    reveal_strlit("MAC_OVERRIDE");
    reveal_strlit("MAC_ADMIN");
    reveal_strlit("SYSLOG");
    reveal_strlit("WAKE_ALARM");
    reveal_strlit("BLOCK_SUSPEND");
    reveal_strlit("AUDIT_READ");
    reveal_strlit("PERFMON");
    reveal_strlit("BPF");
    reveal_strlit("CHECKPOINT_RESTORE");
    assert("BPF"@.len() == 3);
    assert("KILL"@.len() == 4);
    assert("CHOWN"@.len() == 5 && "CHOWN"@[0] == 'C');
    assert("MKNOD"@.len() == 5 && "MKNOD"@[0] == 'M');
    assert("LEASE"@.len() == 5 && "LEASE"@[0] == 'L');
    assert("FOWNER"@.len() == 6 && "FOWNER"@[3] == 'N');
    assert("FSETID"@.len() == 6 && "FSETID"@[3] == 'T');
    assert("SETGID"@.len() == 6 && "SETGID"@[3] == 'G');
    assert("SETUID"@.len() == 6 && "SETUID"@[3] == 'U');
    assert("SYSLOG"@.len() == 6 && "SYSLOG"@[3] == 'L');
    assert("SETPCAP"@.len() == 7 && "SETPCAP"@[0] == 'S' && "SETPCAP"@[3] == 'P');
    assert("NET_RAW"@.len() == 7 && "NET_RAW"@[0] == 'N' && "NET_RAW"@[3] == '_');
    assert("SETFCAP"@.len() == 7 && "SETFCAP"@[0] == 'S' && "SETFCAP"@[3] == 'F');
    assert("PERFMON"@.len() == 7 && "PERFMON"@[0] == 'P' && "PERFMON"@[3] == 'F');
    assert("IPC_LOCK"@.len() == 8 && "IPC_LOCK"@[4] == 'L');
    assert("SYS_BOOT"@.len() == 8 && "SYS_BOOT"@[4] == 'B');
    assert("SYS_NICE"@.len() == 8 && "SYS_NICE"@[4] == 'N');
    assert("SYS_TIME"@.len() == 8 && "SYS_TIME"@[4] == 'T');
    assert("NET_ADMIN"@.len() == 9 && "NET_ADMIN"@[0] == 'N' && "NET_ADMIN"@[4] == 'A');
    assert("IPC_OWNER"@.len() == 9 && "IPC_OWNER"@[0] == 'I' && "IPC_OWNER"@[4] == 'O');
    assert("SYS_RAWIO"@.len() == 9 && "SYS_RAWIO"@[0] == 'S' && "SYS_RAWIO"@[4] == 'R');
    assert("SYS_PACCT"@.len() == 9 && "SYS_PACCT"@[0] == 'S' && "SYS_PACCT"@[4] == 'P');
    assert("SYS_ADMIN"@.len() == 9 && "SYS_ADMIN"@[0] == 'S' && "SYS_ADMIN"@[4] == 'A');
    assert("MAC_ADMIN"@.len() == 9 && "MAC_ADMIN"@[0] == 'M' && "MAC_ADMIN"@[4] == 'A');
    assert("SYS_MODULE"@.len() == 10 && "SYS_MODULE"@[4] == 'M');
    assert("SYS_CHROOT"@.len() == 10 && "SYS_CHROOT"@[4] == 'C');
    assert("SYS_PTRACE"@.len() == 10 && "SYS_PTRACE"@[4] == 'P');
    assert("WAKE_ALARM"@.len() == 10 && "WAKE_ALARM"@[4] == '_');
    assert("AUDIT_READ"@.len() == 10 && "AUDIT_READ"@[4] == 'T');
    assert("AUDIT_WRITE"@.len() == 11);
    assert("DAC_OVERRIDE"@.len() == 12 && "DAC_OVERRIDE"@[0] == 'D');
    assert("SYS_RESOURCE"@.len() == 12 && "SYS_RESOURCE"@[0] == 'S');
    assert("MAC_OVERRIDE"@.len() == 12 && "MAC_OVERRIDE"@[0] == 'M');
    assert("NET_BROADCAST"@.len() == 13 && "NET_BROADCAST"@[0] == 'N');
    assert("AUDIT_CONTROL"@.len() == 13 && "AUDIT_CONTROL"@[0] == 'A');
    assert("BLOCK_SUSPEND"@.len() == 13 && "BLOCK_SUSPEND"@[0] == 'B');
    assert("SYS_TTY_CONFIG"@.len() == 14);
    assert("DAC_READ_SEARCH"@.len() == 15 && "DAC_READ_SEARCH"@[0] == 'D');
    assert("LINUX_IMMUTABLE"@.len() == 15 && "LINUX_IMMUTABLE"@[0] == 'L');
    assert("NET_BIND_SERVICE"@.len() == 16);
    assert("CHECKPOINT_RESTORE"@.len() == 18);
    let s = cap_name(bit)->Some_0;
    if "CAP_"@.is_prefix_of(s) {
        assert(s.subrange(0, 4)[0] == 'C' && s.subrange(0, 4)[1] == 'A');
    }
}

/// Each of the capabilities 0 to 40 has exactly one name without the prefix, in capitals. One prefix
/// is stripped from a name, and no more.
pub proof fn law_cap_names(name: Seq<char>, bit: u32)
    ensures
        bit <= 40 <==> cap_name(bit) is Some,
        !"CAP_"@.is_prefix_of(name) ==> (cap_number(name) == Some(bit) <==> cap_name(bit) == Some(
            name,
        )),
        cap_number(name) == Some(bit) ==> bit <= 40 && capital(name),
        !"CAP_"@.is_prefix_of(name) ==> cap_number("CAP_"@ + name) == cap_number(name),
        "CAP_"@.is_prefix_of(name) ==> cap_number("CAP_"@ + name) is None,
{
    reveal_strlit("CAP_");
    let long = "CAP_"@ + name;
    assert(long.subrange(0, 4) =~= "CAP_"@);
    assert(long.skip(4) =~= name);
    if bit <= 40 {
        lemma_cap_name(bit);
    }
    if "CAP_"@.is_prefix_of(name) {
        let bare = name.skip(4);
        assert(name =~= "CAP_"@ + bare);
        if bare_cap_number(name) is Some {
            lemma_cap_name(bare_cap_number(name)->Some_0);
        }
        if cap_number(name) == Some(bit) {
            assert(bare == cap_name(bit)->Some_0);
            assert forall|i: int| 0 <= i < name.len() implies 'A' <= #[trigger] name[i] <= 'Z'
                || name[i] == '_' by {
                if i < 4 {
                    assert(name[i] == "CAP_"@[i]);
                } else {
                    assert(name[i] == bare[i - 4]);
                }
            }
        }
    }
}

/// A mask has the bit of a capability exactly when a name in the list stands for it.
pub proof fn law_cap_mask_bits(names: Seq<Seq<char>>, bit: u32)
    requires
        bit < 64,
    ensures
        (cap_bits(names) & (1u64 << bit) != 0) <==> exists|i: int|
            0 <= i < names.len() && cap_number(#[trigger] names[i]) == Some(bit),
    decreases names.len(),
{
    if names.len() == 0 {
        assert(0u64 & (1u64 << bit) == 0) by (bit_vector);
    } else {
        let rest = names.drop_last();
        law_cap_mask_bits(rest, bit);
        let m = cap_bits(rest);
        assert forall|i: int| 0 <= i < rest.len() implies rest[i] == names[i] by {}
        if cap_bits(names) & (1u64 << bit) != 0 {
            match cap_number(names.last()) {
                Some(b) => {
                    lemma_cap_number_small(names.last());
                    assert((m | (1u64 << b)) & (1u64 << bit) != 0 ==> (m & (1u64 << bit) != 0) || b
                        == bit) by (bit_vector)
                        requires
                            b < 64,
                            bit < 64,
                    ;
                    if b == bit {
                        assert(cap_number(names[names.len() - 1]) == Some(bit));
                    } else {
                        let i = choose|i: int|
                            0 <= i < rest.len() && cap_number(#[trigger] rest[i]) == Some(bit);
                        assert(cap_number(names[i]) == Some(bit));
                    }
                },
                None => {
                    let i = choose|i: int|
                        0 <= i < rest.len() && cap_number(#[trigger] rest[i]) == Some(bit);
                    assert(cap_number(names[i]) == Some(bit));
                },
            }
        }
        if exists|i: int| 0 <= i < names.len() && cap_number(#[trigger] names[i]) == Some(bit) {
            let i = choose|i: int|
                0 <= i < names.len() && cap_number(#[trigger] names[i]) == Some(bit);
            if i < rest.len() {
                assert(cap_number(rest[i]) == Some(bit));
                assert(m & (1u64 << bit) != 0);
                match cap_number(names.last()) {
                    Some(b) => {
                        lemma_cap_number_small(names.last());
                        assert((m | (1u64 << b)) & (1u64 << bit) != 0) by (bit_vector)
                            requires
                                m & (1u64 << bit) != 0,
                        ;
                    },
                    None => {},
                }
            } else {
                assert((m | (1u64 << bit)) & (1u64 << bit) != 0) by (bit_vector)
                    requires
                        bit < 64,
                ;
            }
        }
    }
}

/// One line of an id map.
pub open spec fn id_map_line(m: IdMapping) -> Seq<char> {
    text::dec(m.container_id as nat) + " "@ + text::dec(m.host_id as nat) + " "@ + text::dec(
        m.size as nat,
    ) + "\n"@
}

/// An id map: a line for each mapping.
pub open spec fn id_map_text(maps: Seq<IdMapping>) -> Seq<char>
    decreases maps.len(),
{
    if maps.len() == 0 {
        Seq::empty()
    } else {
        id_map_text(maps.drop_last()) + id_map_line(maps.last())
    }
}

/// Writes an id map in the kernel's line format.
pub fn format_id_map(maps: &Vec<IdMapping>) -> (r: Vec<u8>)
    ensures
        r@ == encode_utf8(id_map_text(maps@)),
{
    let mut s = String::new();
    let mut i: usize = 0;
    proof {
        assert(maps@.subrange(0, 0) =~= Seq::<IdMapping>::empty());
    }
    while i < maps.len()
        invariant
            i <= maps.len(),
            s@ == id_map_text(maps@.subrange(0, i as int)),
        decreases maps.len() - i,
    {
        let m = maps[i];
        let ghost was = s@;
        proof {
            assert(maps@.subrange(0, i + 1).drop_last() =~= maps@.subrange(0, i as int));
        }
        let a = dec_u64(m.container_id as u64);
        let b = dec_u64(m.host_id as u64);
        let c = dec_u64(m.size as u64);
        s.append(a.as_str());
        s.append(" ");
        s.append(b.as_str());
        s.append(" ");
        s.append(c.as_str());
        s.append("\n");
        proof {
            assert(s@ =~= was + id_map_line(m));
        }
        i = i + 1;
    }
    proof {
        assert(maps@.subrange(0, maps@.len() as int) =~= maps@);
    }
    s.as_str().as_bytes_vec()
}

/// What a compiled mount says.
pub struct MountOpView {
    pub source: Seq<char>,
    pub target: Seq<char>,
    pub fstype: Seq<char>,
    pub flags: u64,
    pub data: Option<Seq<char>>,
    pub idmap_uid: Seq<u8>,
    pub idmap_gid: Seq<u8>,
}

impl View for MountOp {
    type V = MountOpView;

    open spec fn view(&self) -> MountOpView {
        MountOpView {
            source: self.source@,
            target: self.target@,
            fstype: self.fstype@,
            flags: self.flags,
            data: text::opt_text(self.data),
            idmap_uid: self.idmap_uid@,
            idmap_gid: self.idmap_gid@,
        }
    }
}

/// The flags of all options together.
pub open spec fn all_flags(opts: Seq<Seq<char>>) -> u64
    decreases opts.len(),
{
    if opts.len() == 0 {
        0
    } else {
        match option_flags(opts.last()) {
            Some(f) => all_flags(opts.drop_last()) | f,
            None => all_flags(opts.drop_last()),
        }
    }
}

/// The options that are data for the filesystem.
pub open spec fn data_options(opts: Seq<Seq<char>>) -> Seq<Seq<char>>
    decreases opts.len(),
{
    if opts.len() == 0 {
        Seq::empty()
    } else {
        match option_flags(opts.last()) {
            Some(_) => data_options(opts.drop_last()),
            None => data_options(opts.drop_last()).push(opts.last()),
        }
    }
}

/// A mount compiled against the root filesystem at `root`.
pub open spec fn mount_op(m: MountView, root: Seq<char>) -> MountOpView {
    let data = data_options(m.options);
    MountOpView {
        source: m.source,
        target: path::joined(root, text::without_front(m.destination, '/')),
        fstype: m.fstype,
        flags: all_flags(m.options),
        data: if data.len() == 0 {
            None
        } else {
            Some(text::joined_texts(data, ","@))
        },
        idmap_uid: encode_utf8(id_map_text(m.uid_mappings)),
        idmap_gid: encode_utf8(id_map_text(m.gid_mappings)),
    }
}

/// Whether the texts of a mount that the kernel is handed hold no NUL.
pub open spec fn mount_clean(m: MountView) -> bool {
    &&& text::nul_free(m.source)
    &&& text::nul_free(m.fstype)
    &&& text::nul_free(text::joined_texts(data_options(m.options), ","@))
}

/// The message for a text that holds a NUL.
pub open spec fn nul_fault() -> Seq<char> {
    "string contains NUL byte"@
}

/// Whether an error is that for a text that holds a NUL.
pub open spec fn nul_told(e: Error) -> bool {
    e@ == nul_fault() && e.kind == ErrorKind::InvalidInput
}

/// The error for a text that holds a NUL.
pub fn nul_error() -> (e: Error)
    ensures
        nul_told(e),
{
    Error::of_kind(ErrorKind::InvalidInput, owned("string contains NUL byte"))
}

/// An owned text for the kernel.
fn cstr(s: &str) -> (r: Result<String, Error>)
    ensures
        match r {
            Ok(t) => text::nul_free(s@) && t@ == s@,
            Err(e) => !text::nul_free(s@) && nul_told(e),
        },
{
    if contains_char(s, '\0') {
        Err(nul_error())
    } else {
        Ok(owned(s))
    }
}

/// Compiles a mount.
pub fn compile_mount(m: &MountSpec, root: &str) -> (r: Result<MountOp, Error>)
    ensures
        match r {
            Ok(op) => mount_clean(m@) && op@ == mount_op(m@, root@),
            Err(e) => !mount_clean(m@) && nul_told(e),
        },
{
    let ghost all = text::texts(m.options@);
    let mut flags: u64 = 0;
    let mut parts: Vec<String> = Vec::new();
    let mut i: usize = 0;
    proof {
        assert(all.subrange(0, 0) =~= Seq::<Seq<char>>::empty());
        assert(text::texts(parts@) =~= Seq::<Seq<char>>::empty());
    }
    while i < m.options.len()
        invariant
            i <= m.options.len(),
            all == text::texts(m.options@),
            flags == all_flags(all.subrange(0, i as int)),
            text::texts(parts@) == data_options(all.subrange(0, i as int)),
        decreases m.options.len() - i,
    {
        proof {
            assert(all.subrange(0, i + 1).drop_last() =~= all.subrange(0, i as int));
            assert(all.subrange(0, i + 1).last() == m.options@[i as int]@);
        }
        match mount_option_flags(m.options[i].as_str()) {
            Some(f) => {
                flags = flags | f;
            },
            None => {
                let t = m.options[i].clone();
                proof {
                    text::lemma_texts_push(parts@, t);
                }
                parts.push(t);
            },
        }
        i = i + 1;
    }
    proof {
        assert(all.subrange(0, all.len() as int) =~= all);
        assert(text::texts(parts@).len() == parts@.len());
    }
    let joined_parts = join_texts(&parts, ",");
    let data = if parts.len() == 0 {
        None
    } else {
        match cstr(joined_parts.as_str()) {
            Ok(t) => Some(t),
            Err(e) => return Err(e),
        }
    };
    let source = match cstr(m.source.as_str()) {
        Ok(t) => t,
        Err(e) => return Err(e),
    };
    let fstype = match cstr(m.fstype.as_str()) {
        Ok(t) => t,
        Err(e) => return Err(e),
    };
    let rel = trim_front(m.destination.as_str(), '/');
    Ok(
        MountOp {
            source,
            target: join(root, rel),
            fstype,
            flags,
            data,
            idmap_uid: format_id_map(&m.uid_mappings),
            idmap_gid: format_id_map(&m.gid_mappings),
        },
    )
}

/// The flags of the namespaces to create: those without a path.
pub open spec fn clone_bits(ns: Seq<NamespaceView>) -> u64
    decreases ns.len(),
{
    if ns.len() == 0 {
        0
    } else if ns.last().path is Some {
        clone_bits(ns.drop_last())
    } else {
        clone_bits(ns.drop_last()) | ns_flag(ns.last().kind)
    }
}

/// The namespaces to join: those with a path.
pub open spec fn joins(ns: Seq<NamespaceView>) -> Seq<(NamespaceKind, Seq<char>)>
    decreases ns.len(),
{
    if ns.len() == 0 {
        Seq::empty()
    } else {
        match ns.last().path {
            Some(p) => joins(ns.drop_last()).push((ns.last().kind, p)),
            None => joins(ns.drop_last()),
        }
    }
}

/// Whether a namespace of this kind is to be created.
pub open spec fn creates(ns: Seq<NamespaceView>, kind: NamespaceKind) -> bool {
    exists|i: int| 0 <= i < ns.len() && (#[trigger] ns[i]).kind == kind && ns[i].path is None
}

/// Whether an entry joins the namespace of kind `p.0` at `p.1`.
pub open spec fn has_join(ns: Seq<NamespaceView>, p: (NamespaceKind, Seq<char>)) -> bool {
    exists|i: int|
        0 <= i < ns.len() && (#[trigger] ns[i]).path is Some && (ns[i].kind, ns[i].path->0) == p
}

/// One of the flags that create a namespace.
pub open spec fn is_ns_flag(f: u64) -> bool {
    f == CLONE_NEWNS || f == CLONE_NEWCGROUP || f == CLONE_NEWUTS || f == CLONE_NEWIPC || f
        == CLONE_NEWUSER || f == CLONE_NEWPID || f == CLONE_NEWNET
}

/// Two namespace flags share a bit exactly when they are the same.
proof fn lemma_ns_flags_distinct(a: u64, b: u64)
    by (bit_vector)
    requires
        is_ns_flag(a),
        is_ns_flag(b),
    ensures
        (a & b != 0) == (a == b),
{
}

/// A namespace entry becomes a clone flag or a join, never both: the flag of a kind is set
/// exactly when an entry of the kind has no path, and every entry with a path is joined.
pub proof fn law_namespaces_split(ns: Seq<NamespaceView>, kind: NamespaceKind)
    ensures
        (clone_bits(ns) & ns_flag(kind) != 0) == creates(ns, kind),
        forall|i: int|
            0 <= i < ns.len() && (#[trigger] ns[i]).path is Some ==> joins(ns).contains(
                (ns[i].kind, ns[i].path->0),
            ),
        forall|j: int|
            0 <= j < joins(ns).len() ==> has_join(ns, #[trigger] joins(ns)[j]),
    decreases ns.len(),
{
    let f = ns_flag(kind);
    if ns.len() == 0 {
        assert(0u64 & f == 0) by (bit_vector);
    } else {
        let rest = ns.drop_last();
        let last = ns.last();
        law_namespaces_split(rest, kind);
        let m = clone_bits(rest);
        let g = ns_flag(last.kind);
        assert forall|i: int| 0 <= i < rest.len() implies rest[i] == ns[i] by {}
        lemma_ns_flags_distinct(f, g);
        assert(((m | g) & f != 0) == ((m & f != 0) || (f & g != 0))) by (bit_vector);
        if creates(rest, kind) {
            let i = choose|i: int|
                0 <= i < rest.len() && (#[trigger] rest[i]).kind == kind && rest[i].path is None;
            assert(ns[i].kind == kind);
        }
        if creates(ns, kind) {
            let i = choose|i: int|
                0 <= i < ns.len() && (#[trigger] ns[i]).kind == kind && ns[i].path is None;
            if i < rest.len() {
                assert(rest[i].kind == kind);
            }
        }
        if last.kind == kind && last.path is None {
            assert(ns[ns.len() - 1].kind == kind);
        }
        assert((f == g) == (kind == last.kind));
        assert forall|i: int|
            0 <= i < ns.len() && (#[trigger] ns[i]).path is Some implies joins(ns).contains(
            (ns[i].kind, ns[i].path->0),
        ) by {
            if i < rest.len() {
                assert(rest[i].path is Some);
                let p = (rest[i].kind, rest[i].path->0);
                let j = choose|j: int| 0 <= j < joins(rest).len() && joins(rest)[j] == p;
                assert(joins(ns)[j] == p);
            } else {
                assert(joins(ns)[joins(ns).len() - 1] == (last.kind, last.path->0));
            }
        }
        assert forall|j: int| 0 <= j < joins(ns).len() implies has_join(
            ns,
            #[trigger] joins(ns)[j],
        ) by {
            if j < joins(rest).len() {
                let p = joins(rest)[j];
                assert(has_join(rest, p));
                let i = choose|i: int|
                    0 <= i < rest.len() && (#[trigger] rest[i]).path is Some && (
                    rest[i].kind,
                    rest[i].path->0,
                    ) == p;
                assert(ns[i].path is Some);
                assert(joins(ns)[j] == p);
            } else {
                assert(ns[ns.len() - 1].path is Some);
            }
        }
    }
}

/// The masks of the capability sets.
pub open spec fn cap_masks(c: Capabilities) -> CapBitmasks {
    CapBitmasks {
        bounding: cap_bits(text::texts(c.bounding@)),
        effective: cap_bits(text::texts(c.effective@)),
        permitted: cap_bits(text::texts(c.permitted@)),
        inheritable: cap_bits(text::texts(c.inheritable@)),
        ambient: cap_bits(text::texts(c.ambient@)),
    }
}

/// The masks of the capability sets.
pub fn compile_caps(c: &Capabilities) -> (m: CapBitmasks)
    ensures
        m == cap_masks(*c),
{
    CapBitmasks {
        bounding: cap_mask(&c.bounding),
        effective: cap_mask(&c.effective),
        permitted: cap_mask(&c.permitted),
        inheritable: cap_mask(&c.inheritable),
        ambient: cap_mask(&c.ambient),
    }
}

/// What a device node is.
pub struct DeviceView {
    pub path: Seq<char>,
    pub mode: u32,
    pub kind: char,
    pub major: u32,
    pub minor: u32,
}

impl View for DefaultDevice {
    type V = DeviceView;

    open spec fn view(&self) -> DeviceView {
        DeviceView {
            path: self.path@,
            mode: self.mode,
            kind: self.kind,
            major: self.major,
            minor: self.minor,
        }
    }
}

/// A character device that everyone may read and write.
pub open spec fn char_device(path: Seq<char>, major: u32, minor: u32) -> DeviceView {
    DeviceView { path, mode: 0o666, kind: 'c', major, minor }
}

/// The device nodes every container gets.
pub open spec fn standard_devices() -> Seq<DeviceView> {
    seq![
        char_device("/dev/null"@, 1, 3),
        char_device("/dev/zero"@, 1, 5),
        char_device("/dev/full"@, 1, 7),
        char_device("/dev/random"@, 1, 8),
        char_device("/dev/urandom"@, 1, 9),
        char_device("/dev/tty"@, 5, 0),
    ]
}

/// The links every container gets below `/dev`.
pub open spec fn standard_links() -> Seq<(Seq<char>, Seq<char>)> {
    seq![
        ("/proc/self/fd"@, "/dev/fd"@),
        ("/proc/self/fd/0"@, "/dev/stdin"@),
        ("/proc/self/fd/1"@, "/dev/stdout"@),
        ("/proc/self/fd/2"@, "/dev/stderr"@),
        ("pts/ptmx"@, "/dev/ptmx"@),
    ]
}

/// A character device that everyone may use.
fn char_node(path: &str, major: u32, minor: u32) -> (d: DefaultDevice)
    ensures
        d@ == char_device(path@, major, minor),
{
    DefaultDevice { path: owned(path), mode: 0o666, kind: 'c', major, minor }
}

/// What the device nodes of a list are.
pub open spec fn device_views(v: Seq<DefaultDevice>) -> Seq<DeviceView> {
    Seq::new(v.len(), |i: int| v[i]@)
}

/// Gives the devices that every container has.
fn default_devices() -> (v: Vec<DefaultDevice>)
    ensures
        device_views(v@) == standard_devices(),
{
    let v = vec![
        char_node("/dev/null", 1, 3),
        char_node("/dev/zero", 1, 5),
        char_node("/dev/full", 1, 7),
        char_node("/dev/random", 1, 8),
        char_node("/dev/urandom", 1, 9),
        char_node("/dev/tty", 5, 0),
    ];
    proof {
        assert(device_views(v@) =~= standard_devices());
    }
    v
}

/// A link and where it stands.
fn link(target: &str, at: &str) -> (l: (String, String))
    ensures
        l.0@ == target@,
        l.1@ == at@,
{
    (owned(target), owned(at))
}

/// Gives the links that every container has.
fn default_symlinks() -> (v: Vec<(String, String)>)
    ensures
        spec::pair_texts(v@) == standard_links(),
{
    let v = vec![
        link("/proc/self/fd", "/dev/fd"),
        link("/proc/self/fd/0", "/dev/stdin"),
        link("/proc/self/fd/1", "/dev/stdout"),
        link("/proc/self/fd/2", "/dev/stderr"),
        link("pts/ptmx", "/dev/ptmx"),
    ];
    proof {
        assert(spec::pair_texts(v@) =~= standard_links());
    }
    v
}

impl Hooks {
    /// No hook at any point.
    pub open spec fn none(&self) -> bool {
        self.prestart@.len() == 0 && self.create_runtime@.len() == 0
            && self.create_container@.len() == 0 && self.start_container@.len() == 0
            && self.poststart@.len() == 0 && self.poststop@.len() == 0
    }

    /// Whether there is no hook at any point.
    pub fn is_empty(&self) -> (r: bool)
        ensures
            r == self.none(),
    {
        self.prestart.is_empty() && self.create_runtime.is_empty()
            && self.create_container.is_empty() && self.start_container.is_empty()
            && self.poststart.is_empty() && self.poststop.is_empty()
    }
}

impl Default for Hooks {
    fn default() -> (h: Hooks)
        ensures
            h.none(),
    {
        Hooks {
            prestart: Vec::new(),
            create_runtime: Vec::new(),
            create_container: Vec::new(),
            start_container: Vec::new(),
            poststart: Vec::new(),
            poststop: Vec::new(),
        }
    }
}

impl ExtPlan {
    /// Nothing to apply.
    pub open spec fn nothing(&self) -> bool {
        self.seccomp_bpf@.len() == 0 && self.cgroup_v2_path is None
            && self.cgroup_v2_writes@.len() == 0 && self.device_cgroup_bpf@.len() == 0
            && self.hooks.none()
    }
}

impl Default for ExtPlan {
    fn default() -> (e: ExtPlan)
        ensures
            e.nothing(),
    {
        ExtPlan {
            seccomp_bpf: Vec::new(),
            cgroup_v2_path: None,
            cgroup_v2_writes: Vec::new(),
            device_cgroup_bpf: Vec::new(),
            hooks: Hooks::default(),
        }
    }
}

/// Where a kernel setting is written.
pub open spec fn sysctl_path(key: Seq<char>) -> Seq<char> {
    "/proc/sys/"@ + text::replaced(key, '.', '/')
}

/// Whether every text of a list can be handed to the kernel.
pub open spec fn all_nul_free(v: Seq<Seq<char>>) -> bool {
    forall|i: int| 0 <= i < v.len() ==> text::nul_free(#[trigger] v[i])
}

/// Whether an optional text can be handed to the kernel.
pub open spec fn opt_nul_free(t: Option<Seq<char>>) -> bool {
    match t {
        Some(t) => text::nul_free(t),
        None => true,
    }
}

/// Whether every text of the configuration that the kernel is handed holds no NUL.
pub open spec fn spec_clean(s: Spec) -> bool {
    &&& forall|i: int| 0 <= i < s.mounts@.len() ==> mount_clean((#[trigger] s.mounts@[i])@)
    &&& all_nul_free(text::texts(s.args@))
    &&& all_nul_free(text::texts(s.env@))
    &&& all_nul_free(text::texts(s.masked_paths@))
    &&& all_nul_free(text::texts(s.readonly_paths@))
    &&& text::nul_free(s.hostname@)
    &&& text::nul_free(s.cwd@)
    &&& opt_nul_free(text::opt_text(s.apparmor_profile))
    &&& opt_nul_free(text::opt_text(s.selinux_label))
    &&& forall|i: int|
        0 <= i < s.sysctls@.len() ==> text::nul_free(sysctl_path((#[trigger] s.sysctls@[i]).0@))
}

/// What the mounts of a list say.
pub open spec fn mount_op_views(v: Seq<MountOp>) -> Seq<MountOpView> {
    Seq::new(v.len(), |i: int| v[i]@)
}

/// What the kernel settings of a list say.
pub open spec fn write_views(v: Seq<(String, Vec<u8>)>) -> Seq<(Seq<char>, Seq<u8>)> {
    Seq::new(v.len(), |i: int| (v[i].0@, v[i].1@))
}

/// What the joins of a list say.
pub open spec fn join_views(v: Seq<(NamespaceKind, String)>) -> Seq<(NamespaceKind, Seq<char>)> {
    Seq::new(v.len(), |i: int| (v[i].0, v[i].1@))
}

impl CompiledPlan {
    /// Whether the namespaces are set up as the configuration says.
    pub open spec fn compiled_namespaces(&self, s: Spec) -> bool {
        let ns = spec::namespace_views(s.namespaces@);
        &&& self.clone_flags == clone_bits(ns)
        &&& join_views(self.join_namespaces@) == joins(ns)
        &&& self.wants_userns == creates(ns, NamespaceKind::User)
        &&& self.uid_map_data@ == (if self.wants_userns {
            encode_utf8(id_map_text(s.uid_mappings@))
        } else {
            Seq::empty()
        })
        &&& self.gid_map_data@ == (if self.wants_userns {
            encode_utf8(id_map_text(s.gid_mappings@))
        } else {
            Seq::empty()
        })
    }

    /// Whether the filesystem is set up as the configuration says.
    pub open spec fn compiled_filesystem(&self, s: Spec) -> bool {
        &&& self.root_path@ == s.root_path@
        &&& self.root_readonly == s.root_readonly
        &&& mount_op_views(self.mounts@) == Seq::new(
            s.mounts@.len(),
            |i: int| mount_op(s.mounts@[i]@, s.root_path@),
        )
        &&& device_views(self.default_devices@) == standard_devices()
        &&& spec::pair_texts(self.default_symlinks@) == standard_links()
        &&& text::texts(self.masked_paths@) == text::texts(s.masked_paths@)
        &&& text::texts(self.readonly_paths@) == text::texts(s.readonly_paths@)
        &&& write_views(self.sysctls@) == Seq::new(
            s.sysctls@.len(),
            |i: int| (sysctl_path(s.sysctls@[i].0@), encode_utf8(s.sysctls@[i].1@)),
        )
        &&& self.rootfs_propagation == (match s.rootfs_propagation {
            Some(t) => propagation_flags(t@),
            None => 0,
        })
        &&& !self.no_pivot
    }

    /// Whether the process is set up as the configuration says.
    pub open spec fn compiled_process(&self, s: Spec) -> bool {
        &&& text::texts(self.argv@) == text::texts(s.args@)
        &&& text::texts(self.envp@) == text::texts(s.env@)
        &&& self.cwd@ == s.cwd@
        &&& self.hostname@ == s.hostname@
        &&& self.set_hostname == (s.hostname@.len() > 0)
        &&& self.rlimits@ == Seq::new(
            s.rlimits@.len(),
            |i: int| (rlimit_number(s.rlimits@[i].kind), s.rlimits@[i].soft, s.rlimits@[i].hard),
        )
        &&& self.caps == (match s.capabilities {
            Some(c) => Some(cap_masks(c)),
            None => None,
        })
        &&& self.no_new_privileges == s.no_new_privileges
        &&& self.user_uid == s.user_uid
        &&& self.user_gid == s.user_gid
        &&& self.user_additional_gids@ == s.user_additional_gids@
        &&& self.user_umask == s.user_umask
        &&& text::opt_text(self.apparmor_profile) == text::opt_text(s.apparmor_profile)
        &&& text::opt_text(self.selinux_label) == text::opt_text(s.selinux_label)
        &&& self.oom_score_adj == s.oom_score_adj
        &&& self.scheduler == s.scheduler
        &&& self.terminal == s.terminal
        &&& self.console_socket is None
    }

    /// Whether this is the configuration `s`, compiled.
    pub open spec fn compiled_from(&self, s: Spec) -> bool {
        &&& self.compiled_namespaces(s)
        &&& self.compiled_filesystem(s)
        &&& self.compiled_process(s)
        &&& self.ext.nothing()
    }
}

/// Owned copies of texts for the kernel.
fn cstrs(v: &Vec<String>) -> (r: Result<Vec<String>, Error>)
    ensures
        match r {
            Ok(t) => all_nul_free(text::texts(v@)) && text::texts(t@) == text::texts(v@),
            Err(e) => !all_nul_free(text::texts(v@)) && nul_told(e),
        },
{
    let ghost all = text::texts(v@);
    let mut r: Vec<String> = Vec::new();
    let mut i: usize = 0;
    while i < v.len()
        invariant
            i <= v.len(),
            all == text::texts(v@),
            r.len() == i,
            forall|k: int| 0 <= k < i ==> #[trigger] all[k] == r@[k]@ && text::nul_free(all[k]),
        decreases v.len() - i,
    {
        match cstr(v[i].as_str()) {
            Ok(t) => r.push(t),
            Err(e) => {
                assert(!text::nul_free(all[i as int]));
                return Err(e);
            },
        }
        i = i + 1;
    }
    proof {
        assert(text::texts(r@) =~= all);
    }
    Ok(r)
}

/// An owned copy of an optional text for the kernel.
fn opt_cstr(s: &Option<String>) -> (r: Result<Option<String>, Error>)
    ensures
        match r {
            Ok(t) => opt_nul_free(text::opt_text(*s)) && text::opt_text(t) == text::opt_text(*s),
            Err(e) => !opt_nul_free(text::opt_text(*s)) && nul_told(e),
        },
{
    match s {
        Some(t) => match cstr(t.as_str()) {
            Ok(t) => Ok(Some(t)),
            Err(e) => Err(e),
        },
        None => Ok(None),
    }
}

/// The flags to create, and the namespaces to join.
fn split_namespaces(ns: &Vec<NamespaceEntry>) -> (r: (u64, bool, Vec<(NamespaceKind, String)>))
    ensures
        r.0 == clone_bits(spec::namespace_views(ns@)),
        r.1 == creates(spec::namespace_views(ns@), NamespaceKind::User),
        join_views(r.2@) == joins(spec::namespace_views(ns@)),
{
    let ghost all = spec::namespace_views(ns@);
    let mut flags: u64 = 0;
    let mut user = false;
    let mut join_list: Vec<(NamespaceKind, String)> = Vec::new();
    let mut i: usize = 0;
    proof {
        assert(all.subrange(0, 0) =~= Seq::<NamespaceView>::empty());
        assert(join_views(join_list@) =~= Seq::<(NamespaceKind, Seq<char>)>::empty());
    }
    while i < ns.len()
        invariant
            i <= ns.len(),
            all == spec::namespace_views(ns@),
            flags == clone_bits(all.subrange(0, i as int)),
            user <==> exists|k: int|
                0 <= k < i && (#[trigger] all[k]).kind == NamespaceKind::User && all[k].path is None,
            join_views(join_list@) == joins(all.subrange(0, i as int)),
        decreases ns.len() - i,
    {
        let kind = ns[i].kind;
        proof {
            assert(all.subrange(0, i + 1).drop_last() =~= all.subrange(0, i as int));
            assert(all.subrange(0, i + 1).last() == ns@[i as int]@);
            assert(all[i as int] == ns@[i as int]@);
        }
        match &ns[i].path {
            Some(p) => {
                let ghost was = join_list@;
                let q = p.clone();
                join_list.push((kind, q));
                proof {
                    assert(join_views(join_list@) =~= join_views(was).push((kind, q@)));
                }
            },
            None => {
                flags = flags | clone_flag(kind);
                if kind == NamespaceKind::User {
                    user = true;
                }
            },
        }
        i = i + 1;
    }
    proof {
        assert(all.subrange(0, all.len() as int) =~= all);
    }
    (flags, user, join_list)
}

/// Compiles the mounts.
fn compile_mounts(mounts: &Vec<MountSpec>, root: &str) -> (r: Result<Vec<MountOp>, Error>)
    ensures
        match r {
            Ok(ops) => {
                &&& forall|i: int|
                    0 <= i < mounts@.len() ==> mount_clean((#[trigger] mounts@[i])@)
                &&& mount_op_views(ops@) == Seq::new(
                    mounts@.len(),
                    |i: int| mount_op(mounts@[i]@, root@),
                )
            },
            Err(e) => {
                &&& exists|i: int|
                    0 <= i < mounts@.len() && !mount_clean((#[trigger] mounts@[i])@)
                &&& nul_told(e)
            },
        },
{
    let mut ops: Vec<MountOp> = Vec::new();
    let mut i: usize = 0;
    while i < mounts.len()
        invariant
            i <= mounts.len(),
            ops.len() == i,
            forall|k: int|
                0 <= k < i ==> mount_clean((#[trigger] mounts@[k])@) && ops@[k]@ == mount_op(
                    mounts@[k]@,
                    root@,
                ),
        decreases mounts.len() - i,
    {
        match compile_mount(&mounts[i], root) {
            Ok(op) => ops.push(op),
            Err(e) => {
                assert(!mount_clean(mounts@[i as int]@));
                return Err(e);
            },
        }
        i = i + 1;
    }
    proof {
        assert(mount_op_views(ops@) =~= Seq::new(
            mounts@.len(),
            |i: int| mount_op(mounts@[i]@, root@),
        ));
    }
    Ok(ops)
}

/// Compiles the kernel settings.
fn compile_sysctls(v: &Vec<(String, String)>) -> (r: Result<Vec<(String, Vec<u8>)>, Error>)
    ensures
        match r {
            Ok(w) => {
                &&& forall|i: int|
                    0 <= i < v@.len() ==> text::nul_free(sysctl_path((#[trigger] v@[i]).0@))
                &&& write_views(w@) == Seq::new(
                    v@.len(),
                    |i: int| (sysctl_path(v@[i].0@), encode_utf8(v@[i].1@)),
                )
            },
            Err(e) => {
                &&& exists|i: int|
                    0 <= i < v@.len() && !text::nul_free(sysctl_path((#[trigger] v@[i]).0@))
                &&& nul_told(e)
            },
        },
{
    let mut w: Vec<(String, Vec<u8>)> = Vec::new();
    let mut i: usize = 0;
    while i < v.len()
        invariant
            i <= v.len(),
            w.len() == i,
            forall|k: int|
                0 <= k < i ==> text::nul_free(sysctl_path((#[trigger] v@[k]).0@)) && w@[k].0@
                    == sysctl_path(v@[k].0@) && w@[k].1@ == encode_utf8(v@[k].1@),
        decreases v.len() - i,
    {
        let slashed = replace_char(v[i].0.as_str(), '.', '/');
        let full = cat2("/proc/sys/", slashed.as_str());
        match cstr(full.as_str()) {
            Ok(t) => {
                let bytes = v[i].1.as_str().as_bytes_vec();
                w.push((t, bytes));
            },
            Err(e) => {
                assert(!text::nul_free(sysctl_path(v@[i as int].0@)));
                return Err(e);
            },
        }
        i = i + 1;
    }
    proof {
        assert(write_views(w@) =~= Seq::new(
            v@.len(),
            |i: int| (sysctl_path(v@[i].0@), encode_utf8(v@[i].1@)),
        ));
    }
    Ok(w)
}

/// Compiles the resource limits.
fn compile_rlimits(v: &Vec<RLimit>) -> (r: Vec<(u32, u64, u64)>)
    ensures
        r@ == Seq::new(
            v@.len(),
            |i: int| (rlimit_number(v@[i].kind), v@[i].soft, v@[i].hard),
        ),
{
    let mut r: Vec<(u32, u64, u64)> = Vec::new();
    let mut i: usize = 0;
    while i < v.len()
        invariant
            i <= v.len(),
            r.len() == i,
            forall|k: int|
                0 <= k < i ==> #[trigger] r@[k] == (
                    rlimit_number(v@[k].kind),
                    v@[k].soft,
                    v@[k].hard,
                ),
        decreases v.len() - i,
    {
        let l = v[i];
        r.push((resource_number(l.kind), l.soft, l.hard));
        i = i + 1;
    }
    proof {
        assert(r@ =~= Seq::new(
            v@.len(),
            |i: int| (rlimit_number(v@[i].kind), v@[i].soft, v@[i].hard),
        ));
    }
    r
}

/// A copy of some numbers.
fn clone_u32s(v: &Vec<u32>) -> (r: Vec<u32>)
    ensures
        r@ == v@,
{
    let mut r: Vec<u32> = Vec::new();
    let mut i: usize = 0;
    while i < v.len()
        invariant
            i <= v.len(),
            r@ =~= v@.subrange(0, i as int),
        decreases v.len() - i,
    {
        r.push(v[i]);
        i = i + 1;
    }
    r
}

impl CompiledPlan {
    /// Compiles a configuration. The one fault is a NUL in a text that the kernel is handed.
    pub fn from_spec(spec: &Spec) -> (r: Result<CompiledPlan, Error>)
        ensures
            match r {
                Ok(p) => spec_clean(*spec) && p.compiled_from(*spec),
                Err(e) => !spec_clean(*spec) && nul_told(e),
            },
    {
        let (clone_flags, wants_userns, join_namespaces) = split_namespaces(&spec.namespaces);
        let uid_map_data = if wants_userns {
            format_id_map(&spec.uid_mappings)
        } else {
            Vec::new()
        };
        let gid_map_data = if wants_userns {
            format_id_map(&spec.gid_mappings)
        } else {
            Vec::new()
        };
        let mounts = match compile_mounts(&spec.mounts, spec.root_path.as_str()) {
            Ok(m) => m,
            Err(e) => return Err(e),
        };
        let argv = match cstrs(&spec.args) {
            Ok(v) => v,
            Err(e) => return Err(e),
        };
        let envp = match cstrs(&spec.env) {
            Ok(v) => v,
            Err(e) => return Err(e),
        };
        let rlimits = compile_rlimits(&spec.rlimits);
        let caps = match &spec.capabilities {
            Some(c) => Some(compile_caps(c)),
            None => None,
        };
        let masked_paths = match cstrs(&spec.masked_paths) {
            Ok(v) => v,
            Err(e) => return Err(e),
        };
        let readonly_paths = match cstrs(&spec.readonly_paths) {
            Ok(v) => v,
            Err(e) => return Err(e),
        };
        let hostname = match cstr(spec.hostname.as_str()) {
            Ok(v) => v,
            Err(e) => return Err(e),
        };
        let cwd = match cstr(spec.cwd.as_str()) {
            Ok(v) => v,
            Err(e) => return Err(e),
        };
        let apparmor_profile = match opt_cstr(&spec.apparmor_profile) {
            Ok(v) => v,
            Err(e) => return Err(e),
        };
        let selinux_label = match opt_cstr(&spec.selinux_label) {
            Ok(v) => v,
            Err(e) => return Err(e),
        };
        let sysctls = match compile_sysctls(&spec.sysctls) {
            Ok(v) => v,
            Err(e) => return Err(e),
        };
        let set_hostname = !spec.hostname.as_str().is_empty();
        Ok(
            CompiledPlan {
                join_namespaces,
                ext: ExtPlan::default(),
                clone_flags,
                wants_userns,
                uid_map_data,
                gid_map_data,
                set_hostname,
                rlimits,
                caps,
                no_new_privileges: spec.no_new_privileges,
                default_devices: default_devices(),
                default_symlinks: default_symlinks(),
                masked_paths,
                readonly_paths,
                user_uid: spec.user_uid,
                user_gid: spec.user_gid,
                user_additional_gids: clone_u32s(&spec.user_additional_gids),
                user_umask: spec.user_umask,
                apparmor_profile,
                selinux_label,
                sysctls,
                rootfs_propagation: parse_propagation(&spec.rootfs_propagation),
                no_pivot: false,
                oom_score_adj: spec.oom_score_adj,
                scheduler: spec.scheduler,
                hostname,
                root_path: spec.root_path.clone(),
                root_readonly: spec.root_readonly,
                mounts,
                argv,
                envp,
                cwd,
                terminal: spec.terminal,
                console_socket: None,
            },
        )
    }
}

/// The flags of the options together hold the flags of each, and no bit but theirs.
proof fn lemma_all_flags(opts: Seq<Seq<char>>, bit: u64)
    ensures
        (all_flags(opts) & bit != 0) <==> exists|j: int|
            0 <= j < opts.len() && option_has(#[trigger] opts[j], bit),
    decreases opts.len(),
{
    if opts.len() == 0 {
        assert(0u64 & bit == 0) by (bit_vector);
    } else {
        let rest = opts.drop_last();
        let m = all_flags(rest);
        lemma_all_flags(rest, bit);
        assert forall|j: int| 0 <= j < rest.len() implies rest[j] == opts[j] by {}
        match option_flags(opts.last()) {
            Some(f) => {
                assert(((m | f) & bit != 0) == ((m & bit != 0) || (f & bit != 0))) by (bit_vector);
            },
            None => {},
        }
        if all_flags(opts) & bit != 0 {
            if m & bit != 0 {
                let j = choose|j: int| 0 <= j < rest.len() && option_has(#[trigger] rest[j], bit);
                assert(option_has(opts[j], bit));
            } else {
                assert(option_has(opts[opts.len() - 1], bit));
            }
        }
        if exists|j: int| 0 <= j < opts.len() && option_has(#[trigger] opts[j], bit) {
            let j = choose|j: int| 0 <= j < opts.len() && option_has(#[trigger] opts[j], bit);
            if j < rest.len() {
                assert(option_has(rest[j], bit));
            }
        }
    }
}

/// Whether an option has flags that share a bit with `bits`.
pub open spec fn option_has(o: Seq<char>, bits: u64) -> bool {
    option_flags(o) matches Some(f) && f & bits != 0
}

/// The flags of one option are all among those of the list.
proof fn lemma_flags_held(opts: Seq<Seq<char>>, j: int, f: u64)
    requires
        0 <= j < opts.len(),
        option_flags(opts[j]) == Some(f),
    ensures
        all_flags(opts) & f == f,
    decreases opts.len(),
{
    let rest = opts.drop_last();
    let m = all_flags(rest);
    if j < rest.len() {
        assert(rest[j] == opts[j]);
        lemma_flags_held(rest, j, f);
        match option_flags(opts.last()) {
            Some(g) => {
                assert(m & f == f ==> (m | g) & f == f) by (bit_vector);
            },
            None => {},
        }
    } else {
        assert((m | f) & f == f) by (bit_vector);
    }
}

/// The options that are data are those without flags, in their order.
proof fn lemma_data_options(opts: Seq<Seq<char>>)
    ensures
        data_options(opts) == opts.filter(|o: Seq<char>| option_flags(o) is None),
    decreases opts.len(),
{
    reveal(Seq::filter);
    if opts.len() > 0 {
        lemma_data_options(opts.drop_last());
    }
}

/// Each mount of a plan is the one of the configuration at its place.
proof fn lemma_mount_at(p: CompiledPlan, s: Spec, i: int)
    requires
        p.compiled_from(s),
        0 <= i < s.mounts@.len(),
    ensures
        p.mounts@.len() == s.mounts@.len(),
        p.mounts@[i]@ == mount_op(s.mounts@[i]@, s.root_path@),
{
    let views = mount_op_views(p.mounts@);
    assert(views.len() == s.mounts@.len());
    assert(views[i] == p.mounts@[i]@);
}

/// The flags of a compiled mount hold all flags of each option in its list, and each bit in them
/// belongs to the flags of some option. The options without flags are its data, in their order and
/// with commas between them.
pub proof fn law_mount_flags(p: CompiledPlan, s: Spec, i: int, bit: u64)
    requires
        p.compiled_from(s),
        0 <= i < s.mounts@.len(),
    ensures
        p.mounts@.len() == s.mounts@.len(),
        forall|j: int|
            0 <= j < s.mounts@[i].options@.len() ==> match option_flags(
                (#[trigger] s.mounts@[i].options@[j])@,
            ) {
                Some(f) => p.mounts@[i].flags & f == f,
                None => true,
            },
        p.mounts@[i].flags & bit != 0 ==> exists|j: int|
            0 <= j < s.mounts@[i].options@.len() && option_has(
                #[trigger] text::texts(s.mounts@[i].options@)[j],
                bit,
            ),
        p.mounts@[i].data is None <==> forall|j: int|
            0 <= j < s.mounts@[i].options@.len() ==> option_flags(
                (#[trigger] s.mounts@[i].options@[j])@,
            ) is Some,
        (forall|j: int|
            0 <= j < s.mounts@[i].options@.len() ==> !text::has_char(
                (#[trigger] s.mounts@[i].options@[j])@,
                ',',
            )) && p.mounts@[i].data is Some ==> text::pieces(p.mounts@[i].data->Some_0@, ',')
            == text::texts(s.mounts@[i].options@).filter(
            |o: Seq<char>| option_flags(o) is None,
        ),
{
    let m = s.mounts@[i]@;
    let op = p.mounts@[i]@;
    lemma_mount_at(p, s, i);
    let opts = m.options;
    lemma_all_flags(opts, bit);
    assert forall|j: int| 0 <= j < s.mounts@[i].options@.len() implies match option_flags(
        (#[trigger] s.mounts@[i].options@[j])@,
    ) {
        Some(f) => p.mounts@[i].flags & f == f,
        None => true,
    } by {
        assert(opts[j] == s.mounts@[i].options@[j]@);
        match option_flags(opts[j]) {
            Some(f) => {
                lemma_flags_held(opts, j, f);
            },
            None => {},
        }
    }
    lemma_data_options(opts);
    let pred = |o: Seq<char>| option_flags(o) is None;
    let data = opts.filter(pred);
    broadcast use vstd::seq_lib::group_filter_ensures;

    if data.len() > 0 {
        lemma_filter_from(opts, pred, data[0]);
        let j = choose|j: int| 0 <= j < opts.len() && opts[j] == data[0];
        assert(s.mounts@[i].options@[j]@ == opts[j]);
        assert(pred(data[0]));
    }
    assert forall|j: int| 0 <= j < opts.len() && data.len() == 0 implies option_flags(
        #[trigger] opts[j],
    ) is Some by {
        if pred(opts[j]) {
            assert(data.contains(opts[j]));
        }
    }
    assert forall|j: int|
        0 <= j < s.mounts@[i].options@.len() && data.len() == 0 implies option_flags(
        (#[trigger] s.mounts@[i].options@[j])@,
    ) is Some by {
        assert(option_flags(opts[j]) is Some);
    }
    if data.len() > 0 && (forall|j: int|
        0 <= j < s.mounts@[i].options@.len() ==> !text::has_char(
            (#[trigger] s.mounts@[i].options@[j])@,
            ',',
        )) {
        reveal_strlit(",");
        assert(","@ =~= seq![',']);
        assert forall|k: int| 0 <= k < data.len() implies !text::has_char(#[trigger] data[k], ',') by {
            lemma_filter_from(opts, pred, data[k]);
            let j = choose|j: int| 0 <= j < opts.len() && opts[j] == data[k];
            assert(!text::has_char(s.mounts@[i].options@[j]@, ','));
        }
        text::law_split_undoes_join(data, ',', ","@);
    }
}

/// What is left of a list is of the list.
proof fn lemma_filter_from(s: Seq<Seq<char>>, pred: spec_fn(Seq<char>) -> bool, x: Seq<char>)
    requires
        s.filter(pred).contains(x),
    ensures
        s.contains(x),
    decreases s.len(),
{
    reveal(Seq::filter);
    if s.len() > 0 {
        let h = s.drop_last();
        if pred(s.last()) && x == s.last() {
            assert(s[s.len() - 1] == x);
        } else {
            let k = choose|k: int| 0 <= k < s.filter(pred).len() && s.filter(pred)[k] == x;
            assert(h.filter(pred)[k] == x);
            assert(h.filter(pred).contains(x));
            lemma_filter_from(h, pred, x);
            let j = choose|j: int| 0 <= j < h.len() && h[j] == x;
            assert(s[j] == x);
        }
    }
}

/// The flags that stand for options, told apart bit by bit.
proof fn lemma_flag_bits(f: u64)
    by (bit_vector)
    requires
        f == 1 || f == 0 || f == 2 || f == 4 || f == 8 || f == 0x200000 || f == 1024 || f
            == 0x1000000 || f == 4096 || f == 4096 | 16384 || f == 0x40000 || f == 0x40000 | 16384
            || f == 0x100000 || f == 0x100000 | 16384 || f == 0x80000 || f == 0x80000 | 16384,
    ensures
        (f & 1 != 0) == (f == 1),
        (f & 2 != 0) == (f == 2),
        (f & 4 != 0) == (f == 4),
        (f & 8 != 0) == (f == 8),
        (f & 0x200000 != 0) == (f == 0x200000),
        (f & 1024 != 0) == (f == 1024),
        (f & 0x1000000 != 0) == (f == 0x1000000),
        (f & 4096 != 0) == (f == 4096 || f == 4096 | 16384),
        (f & 0x40000 != 0) == (f == 0x40000 || f == 0x40000 | 16384),
        (f & 0x100000 != 0) == (f == 0x100000 || f == 0x100000 | 16384),
        (f & 0x80000 != 0) == (f == 0x80000 || f == 0x80000 | 16384),
        (f & 16384 != 0) == (f == 4096 | 16384 || f == 0x40000 | 16384 || f == 0x100000 | 16384 || f
            == 0x80000 | 16384),
        4096u64 | 16384 == 20480,
        0x40000u64 | 16384 == 278528,
        0x100000u64 | 16384 == 1064960,
        0x80000u64 | 16384 == 540672,
{
}

/// Which bits an option sets.
proof fn lemma_option_bits(o: Seq<char>)
    ensures
        option_has(o, 1) <==> o == "ro"@,
        option_has(o, 2) <==> o == "nosuid"@,
        option_has(o, 4) <==> o == "nodev"@,
        option_has(o, 8) <==> o == "noexec"@,
        option_has(o, 0x200000) <==> o == "relatime"@,
        option_has(o, 1024) <==> o == "noatime"@,
        option_has(o, 0x1000000) <==> o == "strictatime"@,
        option_has(o, 4096) <==> o == "bind"@ || o == "rbind"@,
        option_has(o, 0x40000) <==> o == "private"@ || o == "rprivate"@,
        option_has(o, 0x100000) <==> o == "shared"@ || o == "rshared"@,
        option_has(o, 0x80000) <==> o == "slave"@ || o == "rslave"@,
        option_has(o, 16384) <==> o == "rbind"@ || o == "rprivate"@ || o == "rshared"@ || o
            == "rslave"@,
        o == "rw"@ ==> option_flags(o) is Some,
{
    reveal_strlit("ro");
    reveal_strlit("rw");
    reveal_strlit("nosuid");
    reveal_strlit("nodev");
    reveal_strlit("noexec");
    reveal_strlit("relatime");
    reveal_strlit("noatime");
    reveal_strlit("strictatime");
    reveal_strlit("bind");
    reveal_strlit("rbind");
    reveal_strlit("private");
    reveal_strlit("rprivate");
    reveal_strlit("shared");
    reveal_strlit("rshared");
    reveal_strlit("slave");
    reveal_strlit("rslave");
    assert("ro"@.len() == 2 && "rw"@.len() == 2 && "ro"@[1] == 'o' && "rw"@[1] == 'w');
    assert("nosuid"@.len() == 6 && "noexec"@.len() == 6 && "shared"@.len() == 6 && "rslave"@.len()
        == 6);
    assert("nosuid"@[2] == 's' && "noexec"@[2] == 'e' && "shared"@[2] == 'a' && "rslave"@[2] == 'l');
    assert("nodev"@.len() == 5 && "rbind"@.len() == 5 && "slave"@.len() == 5);
    assert("nodev"@[0] == 'n' && "rbind"@[0] == 'r' && "slave"@[0] == 's');
    assert("relatime"@.len() == 8 && "rprivate"@.len() == 8 && "relatime"@[1] == 'e'
        && "rprivate"@[1] == 'p');
    assert("noatime"@.len() == 7 && "private"@.len() == 7 && "rshared"@.len() == 7);
    assert("noatime"@[0] == 'n' && "private"@[0] == 'p' && "rshared"@[0] == 'r');
    assert("strictatime"@.len() == 11 && "bind"@.len() == 4);
    match option_flags(o) {
        Some(f) => {
            lemma_flag_bits(f);
        },
        None => {},
    }
}

/// Whether one of two texts is in a list.
pub open spec fn has_either(l: Seq<Seq<char>>, a: Seq<char>, b: Seq<char>) -> bool {
    l.contains(a) || l.contains(b)
}

/// Each flag of a compiled mount is set exactly where the list of options has an option that asks
/// for it, by its name.
pub proof fn law_mount_options_by_name(p: CompiledPlan, s: Spec, i: int)
    requires
        p.compiled_from(s),
        0 <= i < s.mounts@.len(),
    ensures
        ({
            let o = text::texts(s.mounts@[i].options@);
            let f = p.mounts@[i].flags;
            &&& f & 1 != 0 <==> o.contains("ro"@)
            &&& f & 2 != 0 <==> o.contains("nosuid"@)
            &&& f & 4 != 0 <==> o.contains("nodev"@)
            &&& f & 8 != 0 <==> o.contains("noexec"@)
            &&& f & 1024 != 0 <==> o.contains("noatime"@)
            &&& f & 4096 != 0 <==> has_either(o, "bind"@, "rbind"@)
            &&& f & 16384 != 0 <==> has_either(o, "rbind"@, "rprivate"@) || has_either(
                o,
                "rshared"@,
                "rslave"@,
            )
            &&& f & 0x40000 != 0 <==> has_either(o, "private"@, "rprivate"@)
            &&& f & 0x80000 != 0 <==> has_either(o, "slave"@, "rslave"@)
            &&& f & 0x100000 != 0 <==> has_either(o, "shared"@, "rshared"@)
            &&& f & 0x200000 != 0 <==> o.contains("relatime"@)
            &&& f & 0x1000000 != 0 <==> o.contains("strictatime"@)
        }),
{
    let m = s.mounts@[i]@;
    lemma_mount_at(p, s, i);
    let o = m.options;
    let f = p.mounts@[i].flags;
    assert(f == all_flags(o));
    lemma_bit_names(o, 1, "ro"@, "ro"@, "ro"@, "ro"@);
    lemma_bit_names(o, 2, "nosuid"@, "nosuid"@, "nosuid"@, "nosuid"@);
    lemma_bit_names(o, 4, "nodev"@, "nodev"@, "nodev"@, "nodev"@);
    lemma_bit_names(o, 8, "noexec"@, "noexec"@, "noexec"@, "noexec"@);
    lemma_bit_names(o, 1024, "noatime"@, "noatime"@, "noatime"@, "noatime"@);
    lemma_bit_names(o, 4096, "bind"@, "rbind"@, "bind"@, "rbind"@);
    lemma_bit_names(o, 16384, "rbind"@, "rprivate"@, "rshared"@, "rslave"@);
    lemma_bit_names(o, 0x40000, "private"@, "rprivate"@, "private"@, "rprivate"@);
    lemma_bit_names(o, 0x80000, "slave"@, "rslave"@, "slave"@, "rslave"@);
    lemma_bit_names(o, 0x100000, "shared"@, "rshared"@, "shared"@, "rshared"@);
    lemma_bit_names(o, 0x200000, "relatime"@, "relatime"@, "relatime"@, "relatime"@);
    lemma_bit_names(o, 0x1000000, "strictatime"@, "strictatime"@, "strictatime"@, "strictatime"@);
}

/// A bit that some options ask for is set where one of them is in the list.
proof fn lemma_bit_names(
    o: Seq<Seq<char>>,
    bit: u64,
    a: Seq<char>,
    b: Seq<char>,
    c: Seq<char>,
    d: Seq<char>,
)
    requires
        bit == 1 && a == "ro"@ && b == a && c == a && d == a || bit == 2 && a == "nosuid"@ && b == a
            && c == a && d == a || bit == 4 && a == "nodev"@ && b == a && c == a && d == a || bit
            == 8 && a == "noexec"@ && b == a && c == a && d == a || bit == 1024 && a == "noatime"@
            && b == a && c == a && d == a || bit == 4096 && a == "bind"@ && b == "rbind"@ && c == a
            && d == b || bit == 16384 && a == "rbind"@ && b == "rprivate"@ && c == "rshared"@ && d
            == "rslave"@ || bit == 0x40000 && a == "private"@ && b == "rprivate"@ && c == a && d
            == b || bit == 0x80000 && a == "slave"@ && b == "rslave"@ && c == a && d == b || bit
            == 0x100000 && a == "shared"@ && b == "rshared"@ && c == a && d == b || bit == 0x200000
            && a == "relatime"@ && b == a && c == a && d == a || bit == 0x1000000 && a
            == "strictatime"@ && b == a && c == a && d == a,
    ensures
        all_flags(o) & bit != 0 <==> has_either(o, a, b) || has_either(o, c, d),
{
    lemma_all_flags(o, bit);
    assert forall|j: int| 0 <= j < o.len() implies (option_has(#[trigger] o[j], bit) <==> o[j] == a
        || o[j] == b || o[j] == c || o[j] == d) by {
        lemma_option_bits(o[j]);
    }
    if all_flags(o) & bit != 0 {
        let j = choose|j: int| 0 <= j < o.len() && option_has(#[trigger] o[j], bit);
        assert(o[j] == a || o[j] == b || o[j] == c || o[j] == d);
        assert(o.contains(o[j]));
    }
    if has_either(o, a, b) || has_either(o, c, d) {
        let t = if o.contains(a) {
            a
        } else if o.contains(b) {
            b
        } else if o.contains(c) {
            c
        } else {
            d
        };
        let j = choose|j: int| 0 <= j < o.len() && o[j] == t;
        assert(option_has(o[j], bit));
    }
}

/// Which namespaces a plan makes and which it joins: the flag of a kind is set exactly where an
/// entry of that kind has no path, and the entries with a path are joined, in their order.
pub proof fn law_namespace_flags(p: CompiledPlan, s: Spec)
    requires
        p.compiled_from(s),
    ensures
        ({
            let ns = spec::namespace_views(s.namespaces@);
            let f = p.clone_flags;
            &&& f & 0x20000 != 0 <==> creates(ns, NamespaceKind::Mount)
            &&& f & 0x2000000 != 0 <==> creates(ns, NamespaceKind::Cgroup)
            &&& f & 0x4000000 != 0 <==> creates(ns, NamespaceKind::Uts)
            &&& f & 0x8000000 != 0 <==> creates(ns, NamespaceKind::Ipc)
            &&& f & 0x10000000 != 0 <==> creates(ns, NamespaceKind::User)
            &&& f & 0x20000000 != 0 <==> creates(ns, NamespaceKind::Pid)
            &&& f & 0x40000000 != 0 <==> creates(ns, NamespaceKind::Network)
            &&& p.wants_userns <==> f & 0x10000000 != 0
            &&& join_views(p.join_namespaces@) == ns.filter(
                |n: NamespaceView| n.path is Some,
            ).map_values(|n: NamespaceView| (n.kind, n.path->Some_0))
        }),
{
    let ns = spec::namespace_views(s.namespaces@);
    law_namespaces_split(ns, NamespaceKind::Mount);
    law_namespaces_split(ns, NamespaceKind::Cgroup);
    law_namespaces_split(ns, NamespaceKind::Uts);
    law_namespaces_split(ns, NamespaceKind::Ipc);
    law_namespaces_split(ns, NamespaceKind::User);
    law_namespaces_split(ns, NamespaceKind::Pid);
    law_namespaces_split(ns, NamespaceKind::Network);
    lemma_joins_filtered(ns);
}

/// The namespaces joined are the entries with a path.
proof fn lemma_joins_filtered(ns: Seq<NamespaceView>)
    ensures
        joins(ns) == ns.filter(|n: NamespaceView| n.path is Some).map_values(
            |n: NamespaceView| (n.kind, n.path->Some_0),
        ),
    decreases ns.len(),
{
    reveal(Seq::filter);
    let pass = |n: NamespaceView| n.path is Some;
    let f = |n: NamespaceView| (n.kind, n.path->Some_0);
    if ns.len() > 0 {
        lemma_joins_filtered(ns.drop_last());
        let h = ns.drop_last().filter(pass);
        assert(h.push(ns.last()).map_values(f) =~= h.map_values(f).push(f(ns.last())));
    }
    assert(joins(ns) =~= ns.filter(pass).map_values(f));
}

/// The lines of mappings.
proof fn lemma_map_lines(maps: Seq<IdMapping>)
    ensures
        ({
            let lines = text::pieces(id_map_text(maps), '\n');
            &&& lines.len() == maps.len() + 1
            &&& lines.last() == Seq::<char>::empty()
            &&& forall|i: int|
                0 <= i < maps.len() ==> text::pieces(#[trigger] lines[i], ' ') == seq![
                    text::dec(maps[i].container_id as nat),
                    text::dec(maps[i].host_id as nat),
                    text::dec(maps[i].size as nat),
                ]
        }),
    decreases maps.len(),
{
    let lines = text::pieces(id_map_text(maps), '\n');
    if maps.len() > 0 {
        let h = maps.drop_last();
        let m = maps.last();
        lemma_map_lines(h);
        let a = text::dec(m.container_id as nat);
        let b = text::dec(m.host_id as nat);
        let c = text::dec(m.size as nat);
        text::lemma_dec_lacks(m.container_id as nat, ' ');
        text::lemma_dec_lacks(m.host_id as nat, ' ');
        text::lemma_dec_lacks(m.size as nat, ' ');
        text::lemma_dec_lacks(m.container_id as nat, '\n');
        text::lemma_dec_lacks(m.host_id as nat, '\n');
        text::lemma_dec_lacks(m.size as nat, '\n');
        reveal_strlit(" ");
        let parts = seq![a, b, c];
        let two = seq![a, b];
        let one = seq![a];
        assert(" "@ =~= seq![' ']);
        assert(parts.drop_last() =~= two);
        assert(two.drop_last() =~= one);
        assert(text::joined_texts(one, " "@) == a);
        assert(text::joined_texts(two, " "@) == a + " "@ + b);
        let line = a + " "@ + b + " "@ + c;
        assert(text::joined_texts(parts, " "@) == line);
        text::law_split_undoes_join(parts, ' ', " "@);
        assert(!text::has_char(line, '\n'));
        let before = id_map_text(h);
        assert(id_map_text(maps) =~= before + line + "\n"@);
        text::lemma_line_split(before, line);
        let p = text::pieces(before, '\n');
        assert(p.last() + line =~= line);
        assert(lines == p.update(p.len() - 1, line).push(Seq::empty()));
        assert forall|i: int| 0 <= i < maps.len() implies text::pieces(#[trigger] lines[i], ' ')
            == seq![
            text::dec(maps[i].container_id as nat),
            text::dec(maps[i].host_id as nat),
            text::dec(maps[i].size as nat),
        ] by {
            if i < h.len() {
                assert(h[i] == maps[i]);
                assert(lines[i] == p[i]);
            }
        }
    }
}

/// Whether bytes are the text of a map: one line for each mapping, in their order, with the id in the
/// container, the id outside and how many ids, in decimal.
pub open spec fn tells_map(bytes: Seq<u8>, maps: Seq<IdMapping>) -> bool {
    let lines = text::pieces(decode_utf8(bytes), '\n');
    &&& lines.len() == maps.len() + 1
    &&& lines.last() == Seq::<char>::empty()
    &&& forall|i: int|
        0 <= i < maps.len() ==> text::pieces(#[trigger] lines[i], ' ') == seq![
            text::dec(maps[i].container_id as nat),
            text::dec(maps[i].host_id as nat),
            text::dec(maps[i].size as nat),
        ]
}

/// What is written as the maps of ids: with a user namespace of its own, those of the container; and
/// for each mount those of the mount.
pub proof fn law_id_maps(p: CompiledPlan, s: Spec, i: int)
    requires
        p.compiled_from(s),
    ensures
        p.wants_userns ==> tells_map(p.uid_map_data@, s.uid_mappings@) && tells_map(
            p.gid_map_data@,
            s.gid_mappings@,
        ),
        !p.wants_userns ==> p.uid_map_data@.len() == 0 && p.gid_map_data@.len() == 0,
        0 <= i < s.mounts@.len() ==> tells_map(
            p.mounts@[i].idmap_uid@,
            s.mounts@[i].uid_mappings@,
        ) && tells_map(p.mounts@[i].idmap_gid@, s.mounts@[i].gid_mappings@),
{
    lemma_map_told(s.uid_mappings@);
    lemma_map_told(s.gid_mappings@);
    if 0 <= i < s.mounts@.len() {
        lemma_mount_at(p, s, i);
        lemma_map_told(s.mounts@[i].uid_mappings@);
        lemma_map_told(s.mounts@[i].gid_mappings@);
    }
}

/// The text of a map tells it.
proof fn lemma_map_told(maps: Seq<IdMapping>)
    ensures
        tells_map(encode_utf8(id_map_text(maps)), maps),
{
    encode_utf8_decode_utf8(id_map_text(maps));
    lemma_map_lines(maps);
}

/// The limits of a plan, by kind: the kernel's number, then the soft and the hard value.
pub proof fn law_rlimit_numbers(p: CompiledPlan, s: Spec, i: int)
    requires
        p.compiled_from(s),
        0 <= i < s.rlimits@.len(),
    ensures
        p.rlimits@.len() == s.rlimits@.len(),
        p.rlimits@[i].1 == s.rlimits@[i].soft,
        p.rlimits@[i].2 == s.rlimits@[i].hard,
        s.rlimits@[i].kind == RLimitKind::Cpu <==> p.rlimits@[i].0 == 0,
        s.rlimits@[i].kind == RLimitKind::Fsize <==> p.rlimits@[i].0 == 1,
        s.rlimits@[i].kind == RLimitKind::Data <==> p.rlimits@[i].0 == 2,
        s.rlimits@[i].kind == RLimitKind::Stack <==> p.rlimits@[i].0 == 3,
        s.rlimits@[i].kind == RLimitKind::Core <==> p.rlimits@[i].0 == 4,
        s.rlimits@[i].kind == RLimitKind::Rss <==> p.rlimits@[i].0 == 5,
        s.rlimits@[i].kind == RLimitKind::Nproc <==> p.rlimits@[i].0 == 6,
        s.rlimits@[i].kind == RLimitKind::Nofile <==> p.rlimits@[i].0 == 7,
        s.rlimits@[i].kind == RLimitKind::Memlock <==> p.rlimits@[i].0 == 8,
        s.rlimits@[i].kind == RLimitKind::As <==> p.rlimits@[i].0 == 9,
        s.rlimits@[i].kind == RLimitKind::Locks <==> p.rlimits@[i].0 == 10,
        s.rlimits@[i].kind == RLimitKind::Sigpending <==> p.rlimits@[i].0 == 11,
        s.rlimits@[i].kind == RLimitKind::Msgqueue <==> p.rlimits@[i].0 == 12,
        s.rlimits@[i].kind == RLimitKind::Nice <==> p.rlimits@[i].0 == 13,
        s.rlimits@[i].kind == RLimitKind::Rtprio <==> p.rlimits@[i].0 == 14,
        s.rlimits@[i].kind == RLimitKind::Rttime <==> p.rlimits@[i].0 == 15,
{
}

/// Whether a list of names has a capability.
pub open spec fn lists_cap(names: Seq<String>, bit: u32) -> bool {
    exists|i: int|
        0 <= i < names.len() && cap_number(#[trigger] text::texts(names)[i]) == Some(bit)
}

/// The capability sets of a plan: each bit of each set is there exactly where the list of that set
/// names the capability.
pub proof fn law_capability_sets(p: CompiledPlan, s: Spec, bit: u32)
    requires
        p.compiled_from(s),
        bit < 64,
    ensures
        p.caps is Some == s.capabilities is Some,
        s.capabilities matches Some(c) ==> {
            let m = p.caps->Some_0;
            &&& m.bounding & (1u64 << bit) != 0 <==> lists_cap(c.bounding@, bit)
            &&& m.effective & (1u64 << bit) != 0 <==> lists_cap(c.effective@, bit)
            &&& m.permitted & (1u64 << bit) != 0 <==> lists_cap(c.permitted@, bit)
            &&& m.inheritable & (1u64 << bit) != 0 <==> lists_cap(c.inheritable@, bit)
            &&& m.ambient & (1u64 << bit) != 0 <==> lists_cap(c.ambient@, bit)
        },
{
    if s.capabilities is Some {
        let c = s.capabilities->Some_0;
        law_cap_mask_bits(text::texts(c.bounding@), bit);
        law_cap_mask_bits(text::texts(c.effective@), bit);
        law_cap_mask_bits(text::texts(c.permitted@), bit);
        law_cap_mask_bits(text::texts(c.inheritable@), bit);
        law_cap_mask_bits(text::texts(c.ambient@), bit);
        assert(text::texts(c.bounding@).len() == c.bounding@.len());
        assert(text::texts(c.effective@).len() == c.effective@.len());
        assert(text::texts(c.permitted@).len() == c.permitted@.len());
        assert(text::texts(c.inheritable@).len() == c.inheritable@.len());
        assert(text::texts(c.ambient@).len() == c.ambient@.len());
    }
}

/// Where a kernel parameter is written and what: below `/proc/sys`, with a slash for each dot of the
/// key and every other character as it is; and its value.
pub proof fn law_sysctls(p: CompiledPlan, s: Spec, i: int)
    requires
        p.compiled_from(s),
        0 <= i < s.sysctls@.len(),
    ensures
        p.sysctls@.len() == s.sysctls@.len(),
        ({
            let key = s.sysctls@[i].0@;
            let path = p.sysctls@[i].0@;
            &&& "/proc/sys/"@.is_prefix_of(path)
            &&& path.len() == "/proc/sys/"@.len() + key.len()
            &&& forall|k: int|
                0 <= k < key.len() ==> (if #[trigger] key[k] == '.' {
                    path[k + "/proc/sys/"@.len()] == '/'
                } else {
                    path[k + "/proc/sys/"@.len()] == key[k]
                })
        }),
        decode_utf8(p.sysctls@[i].1@) == s.sysctls@[i].1@,
{
    let w = write_views(p.sysctls@);
    assert(w.len() == p.sysctls@.len());
    assert(w[i] == (p.sysctls@[i].0@, p.sysctls@[i].1@));
    encode_utf8_decode_utf8(s.sysctls@[i].1@);
    assert("/proc/sys/"@.is_prefix_of(p.sysctls@[i].0@));
}

/// How mounts of the root spread, by name; a name that is not known, like none, changes nothing.
pub proof fn law_root_propagation(p: CompiledPlan, s: Spec)
    requires
        p.compiled_from(s),
    ensures
        ({
            let t = text::opt_text(s.rootfs_propagation);
            let f = p.rootfs_propagation;
            &&& t is None ==> f == 0
            &&& t == Some("shared"@) <==> f == 0x100000
            &&& t == Some("slave"@) <==> f == 0x80000
            &&& t == Some("private"@) <==> f == 0x40000
            &&& t == Some("unbindable"@) <==> f == 0x20000
            &&& t == Some("rshared"@) <==> f == 0x104000
            &&& t == Some("rslave"@) <==> f == 0x84000
            &&& t == Some("rprivate"@) <==> f == 0x44000
            &&& t == Some("runbindable"@) <==> f == 0x24000
        }),
{
    reveal_strlit("shared");
    reveal_strlit("slave");
    reveal_strlit("private");
    reveal_strlit("unbindable");
    reveal_strlit("rshared");
    reveal_strlit("rslave");
    reveal_strlit("rprivate");
    reveal_strlit("runbindable");
    assert("shared"@.len() == 6 && "slave"@.len() == 5 && "private"@.len() == 7);
    assert("unbindable"@.len() == 10 && "rshared"@.len() == 7 && "rslave"@.len() == 6);
    assert("rprivate"@.len() == 8 && "runbindable"@.len() == 11);
    assert("shared"@[0] == 's' && "rslave"@[0] == 'r');
    assert("private"@[0] == 'p' && "rshared"@[0] == 'r');
    let a = MS_SHARED | MS_REC;
    let b = MS_SLAVE | MS_REC;
    let c = MS_PRIVATE | MS_REC;
    let d = MS_UNBINDABLE | MS_REC;
    assert(1048576u64 | 16384 == 0x104000 && 524288u64 | 16384 == 0x84000 && 262144u64 | 16384
        == 0x44000 && 131072u64 | 16384 == 0x24000) by (bit_vector);
    assert(a == 0x104000 && b == 0x84000 && c == 0x44000 && d == 0x24000);
}

/// What a plan takes over as it is: the root and whether it can be written, the paths to hide and to
/// protect, the sources and types of the mounts, each of which goes to its place below the root.
pub proof fn law_filesystem_carried(p: CompiledPlan, s: Spec, i: int)
    requires
        p.compiled_from(s),
    ensures
        p.root_path@ == s.root_path@,
        p.root_readonly == s.root_readonly,
        text::texts(p.masked_paths@) == text::texts(s.masked_paths@),
        text::texts(p.readonly_paths@) == text::texts(s.readonly_paths@),
        p.mounts@.len() == s.mounts@.len(),
        0 <= i < s.mounts@.len() ==> {
            &&& p.mounts@[i].source@ == s.mounts@[i].source@
            &&& p.mounts@[i].fstype@ == s.mounts@[i].fstype@
            &&& path::names(p.mounts@[i].target@) == path::names(s.root_path@) + path::names(
                s.mounts@[i].destination@,
            )
        },
{
    let v = mount_op_views(p.mounts@);
    assert(v.len() == p.mounts@.len());
    if 0 <= i < s.mounts@.len() {
        lemma_mount_at(p, s, i);
        let d = s.mounts@[i].destination@;
        text::law_without_front(d, '/');
        path::law_joined_names(s.root_path@, text::without_front(d, '/'));
        lemma_names_behind(d);
    }
}

/// Slashes in front of a path add no name.
proof fn lemma_names_behind(d: Seq<char>)
    ensures
        path::names(text::without_front(d, '/')) == path::names(d),
    decreases d.len(),
{
    if d.len() > 0 && d[0] == '/' {
        let rest = d.skip(1);
        lemma_names_behind(rest);
        assert(d =~= seq!['/'] + rest);
        path::lemma_leading_slash(rest);
    }
}

/// What a plan takes over of the process: its arguments, environment and directory, its host's name,
/// whom it runs as, and how it is bounded.
pub proof fn law_process_carried(p: CompiledPlan, s: Spec)
    requires
        p.compiled_from(s),
    ensures
        text::texts(p.argv@) == text::texts(s.args@),
        text::texts(p.envp@) == text::texts(s.env@),
        p.cwd@ == s.cwd@,
        p.hostname@ == s.hostname@,
        p.set_hostname <==> s.hostname@.len() > 0,
        p.user_uid == s.user_uid,
        p.user_gid == s.user_gid,
        p.user_additional_gids@ == s.user_additional_gids@,
        p.user_umask == s.user_umask,
        p.no_new_privileges == s.no_new_privileges,
        p.oom_score_adj == s.oom_score_adj,
        p.scheduler == s.scheduler,
        p.terminal == s.terminal,
        p.console_socket is None,
        !p.no_pivot,
        text::opt_text(p.apparmor_profile) == text::opt_text(s.apparmor_profile),
        text::opt_text(p.selinux_label) == text::opt_text(s.selinux_label),
{
}

/// Whether a list of devices has a character device that all may read and write.
pub open spec fn has_device(v: Seq<DefaultDevice>, path: Seq<char>, major: u32, minor: u32) -> bool {
    exists|i: int|
        0 <= i < v.len() && (#[trigger] v[i]).path@ == path && v[i].major == major && v[i].minor
            == minor && v[i].kind == 'c' && v[i].mode == 0o666
}

/// Whether a list of links has one.
pub open spec fn has_link(v: Seq<(String, String)>, at: Seq<char>, to: Seq<char>) -> bool {
    exists|i: int| 0 <= i < v.len() && (#[trigger] v[i]).0@ == to && v[i].1@ == at
}

/// Every container has the standard devices and links, and no others.
pub proof fn law_standard_devices(p: CompiledPlan, s: Spec)
    requires
        p.compiled_from(s),
    ensures
        p.default_devices@.len() == 6,
        has_device(p.default_devices@, "/dev/null"@, 1, 3),
        has_device(p.default_devices@, "/dev/zero"@, 1, 5),
        has_device(p.default_devices@, "/dev/full"@, 1, 7),
        has_device(p.default_devices@, "/dev/random"@, 1, 8),
        has_device(p.default_devices@, "/dev/urandom"@, 1, 9),
        has_device(p.default_devices@, "/dev/tty"@, 5, 0),
        p.default_symlinks@.len() == 5,
        has_link(p.default_symlinks@, "/dev/fd"@, "/proc/self/fd"@),
        has_link(p.default_symlinks@, "/dev/stdin"@, "/proc/self/fd/0"@),
        has_link(p.default_symlinks@, "/dev/stdout"@, "/proc/self/fd/1"@),
        has_link(p.default_symlinks@, "/dev/stderr"@, "/proc/self/fd/2"@),
        has_link(p.default_symlinks@, "/dev/ptmx"@, "pts/ptmx"@),
{
    let v = device_views(p.default_devices@);
    assert(v.len() == p.default_devices@.len());
    assert(v[0] == p.default_devices@[0]@ && v[1] == p.default_devices@[1]@);
    assert(v[2] == p.default_devices@[2]@ && v[3] == p.default_devices@[3]@);
    assert(v[4] == p.default_devices@[4]@ && v[5] == p.default_devices@[5]@);
    let l = spec::pair_texts(p.default_symlinks@);
    let n = p.default_symlinks@;
    assert(l.len() == n.len());
    assert(l[0] == (n[0].0@, n[0].1@) && l[1] == (n[1].0@, n[1].1@) && l[2] == (n[2].0@, n[2].1@));
    assert(l[3] == (n[3].0@, n[3].1@) && l[4] == (n[4].0@, n[4].1@));
}

/// A text with a NUL byte in it, wherever the kernel is handed it, keeps a plan from being made.
pub proof fn law_nul_refused(s: Spec, i: int)
    ensures
        0 <= i < s.args@.len() && text::has_char(s.args@[i]@, '\0') ==> !spec_clean(s),
        0 <= i < s.env@.len() && text::has_char(s.env@[i]@, '\0') ==> !spec_clean(s),
        0 <= i < s.masked_paths@.len() && text::has_char(s.masked_paths@[i]@, '\0') ==> !spec_clean(
            s,
        ),
        0 <= i < s.readonly_paths@.len() && text::has_char(s.readonly_paths@[i]@, '\0')
            ==> !spec_clean(s),
        text::has_char(s.hostname@, '\0') ==> !spec_clean(s),
        text::has_char(s.cwd@, '\0') ==> !spec_clean(s),
        s.apparmor_profile matches Some(t) && text::has_char(t@, '\0') ==> !spec_clean(s),
        s.selinux_label matches Some(t) && text::has_char(t@, '\0') ==> !spec_clean(s),
        0 <= i < s.mounts@.len() && (text::has_char(s.mounts@[i].source@, '\0') || text::has_char(
            s.mounts@[i].fstype@,
            '\0',
        )) ==> !spec_clean(s),
        0 <= i < s.sysctls@.len() && text::has_char(s.sysctls@[i].0@, '\0') ==> !spec_clean(s),
{
    if spec_clean(s) {
        if 0 <= i < s.args@.len() {
            assert(text::nul_free(text::texts(s.args@)[i]));
        }
        if 0 <= i < s.env@.len() {
            assert(text::nul_free(text::texts(s.env@)[i]));
        }
        if 0 <= i < s.masked_paths@.len() {
            assert(text::nul_free(text::texts(s.masked_paths@)[i]));
        }
        if 0 <= i < s.readonly_paths@.len() {
            assert(text::nul_free(text::texts(s.readonly_paths@)[i]));
        }
        if 0 <= i < s.mounts@.len() {
            assert(mount_clean(s.mounts@[i]@));
        }
        if 0 <= i < s.sysctls@.len() {
            let key = s.sysctls@[i].0@;
            let path = sysctl_path(key);
            assert(text::nul_free(path));
            assert forall|k: int| 0 <= k < key.len() implies key[k] != '\0' by {
                assert(path["/proc/sys/"@.len() + k] == text::replaced(key, '.', '/')[k]);
            }
        }
    }
}

} // verus!
