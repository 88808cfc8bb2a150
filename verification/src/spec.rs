//! The part of an OCI `config.json` that the runtime acts on. Members it does not know are
//! ignored.

use vstd::prelude::*;

use crate::text;
use crate::path;
use crate::json;
use crate::error::{Error, ErrorKind};
use crate::json::{
    get_at, get_bool_or, get_i64, get_i64_or, get_items, get_nonempty, get_strings, get_text,
    get_text_or, get_u64, get_u64_or, parse_json, Json,
};
use crate::json::JsonView;
use crate::path::join;
use crate::text::{cat2, owned, str_eq};

verus! {

/// What is taken from `config.json`.
pub struct Spec {
    pub args: Vec<String>,
    pub env: Vec<String>,
    pub cwd: String,
    pub terminal: bool,
    pub root_path: String,
    pub root_readonly: bool,
    pub hostname: String,
    pub namespaces: Vec<NamespaceEntry>,
    pub mounts: Vec<MountSpec>,
    /// Rootless user mappings; empty when the container is not rootless.
    pub uid_mappings: Vec<IdMapping>,
    pub gid_mappings: Vec<IdMapping>,
    pub rlimits: Vec<RLimit>,
    /// The capability sets; `None` leaves them as inherited.
    pub capabilities: Option<Capabilities>,
    pub no_new_privileges: bool,
    /// The AppArmor profile to enter at exec, if any.
    pub apparmor_profile: Option<String>,
    /// The SELinux context to enter at exec, if any.
    pub selinux_label: Option<String>,
    /// Kernel settings, keys in dot notation.
    pub sysctls: Vec<(String, String)>,
    /// How mounts below `/` propagate, if the bundle says so.
    pub rootfs_propagation: Option<String>,
    pub oom_score_adj: Option<i32>,
    pub masked_paths: Vec<String>,
    pub readonly_paths: Vec<String>,
    pub user_uid: u32,
    pub user_gid: u32,
    pub user_additional_gids: Vec<u32>,
    pub user_umask: Option<u32>,
    /// The scheduling class of the init process, if the bundle asks for one.
    pub scheduler: Option<SchedulerSpec>,
    /// The storage behind the root filesystem, if it is not the plain directory.
    pub rootfs_backend: Option<RootfsBackend>,
    /// The whole document, for the parts that are compiled separately.
    pub raw: Json,
    /// The bundle directory.
    pub bundle: String,
}

/// A resource limit.
#[derive(Debug, Clone, Copy)]
pub struct RLimit {
    pub kind: RLimitKind,
    pub soft: u64,
    pub hard: u64,
}

/// A limited resource.
#[derive(Debug, Clone, Copy, PartialEq, Eq, Structural)]
pub enum RLimitKind {
    Cpu,
    Fsize,
    Data,
    Stack,
    Core,
    Rss,
    Nproc,
    Nofile,
    Memlock,
    As,
    Locks,
    Sigpending,
    Msgqueue,
    Nice,
    Rtprio,
    Rttime,
}

/// The five capability sets, by name.
#[derive(Debug)]
pub struct Capabilities {
    pub bounding: Vec<String>,
    pub effective: Vec<String>,
    pub permitted: Vec<String>,
    pub inheritable: Vec<String>,
    pub ambient: Vec<String>,
}

/// A range of ids inside the container and the range outside it stands for.
#[derive(Debug, Clone, Copy)]
pub struct IdMapping {
    pub container_id: u32,
    pub host_id: u32,
    pub size: u32,
}

/// A kind of namespace.
#[derive(Debug, Clone, Copy, PartialEq, Eq, Structural)]
pub enum NamespaceKind {
    Pid,
    Network,
    Mount,
    Ipc,
    Uts,
    User,
    Cgroup,
}

/// A namespace: a fresh one, or the one at `path`.
#[derive(Debug)]
pub struct NamespaceEntry {
    pub kind: NamespaceKind,
    pub path: Option<String>,
}

/// A mount of the bundle.
#[derive(Debug)]
pub struct MountSpec {
    pub destination: String,
    pub source: String,
    pub fstype: String,
    pub options: Vec<String>,
    /// Id mappings of the mount itself; empty when it is not idmapped.
    pub uid_mappings: Vec<IdMapping>,
    pub gid_mappings: Vec<IdMapping>,
}

/// What `sched_setattr` is to be told about the init process.
#[derive(Debug, Clone, Copy)]
pub struct SchedulerSpec {
    pub policy: u32,
    pub flags: u64,
    pub nice: i32,
    pub priority: u32,
    pub runtime: u64,
    pub deadline: u64,
    pub period: u64,
}

/// The storage a bundle asks for, with the directories it names.
#[derive(Debug)]
pub struct RootfsBackend {
    pub backend: String,
    pub lowerdir: Option<String>,
    pub upperdir: Option<String>,
    pub workdir: Option<String>,
    pub merged: Option<String>,
}

/// The resource a limit is named after.
pub open spec fn rlimit_kind(s: Seq<char>) -> Option<RLimitKind> {
    if s == "RLIMIT_CPU"@ {
        Some(RLimitKind::Cpu)
    } else if s == "RLIMIT_FSIZE"@ {
        Some(RLimitKind::Fsize)
    } else if s == "RLIMIT_DATA"@ {
        Some(RLimitKind::Data)
    } else if s == "RLIMIT_STACK"@ {
        Some(RLimitKind::Stack)
    } else if s == "RLIMIT_CORE"@ {
        Some(RLimitKind::Core)
    } else if s == "RLIMIT_RSS"@ {
        Some(RLimitKind::Rss)
    } else if s == "RLIMIT_NPROC"@ {
        Some(RLimitKind::Nproc)
    } else if s == "RLIMIT_NOFILE"@ {
        Some(RLimitKind::Nofile)
    } else if s == "RLIMIT_MEMLOCK"@ {
        Some(RLimitKind::Memlock)
    } else if s == "RLIMIT_AS"@ {
        Some(RLimitKind::As)
    } else if s == "RLIMIT_LOCKS"@ {
        Some(RLimitKind::Locks)
    } else if s == "RLIMIT_SIGPENDING"@ {
        Some(RLimitKind::Sigpending)
    } else if s == "RLIMIT_MSGQUEUE"@ {
        Some(RLimitKind::Msgqueue)
    } else if s == "RLIMIT_NICE"@ {
        Some(RLimitKind::Nice)
    } else if s == "RLIMIT_RTPRIO"@ {
        Some(RLimitKind::Rtprio)
    } else if s == "RLIMIT_RTTIME"@ {
        Some(RLimitKind::Rttime)
    } else {
        None
    }
}

/// The resource a limit is named after.
pub fn parse_rlimit_kind(s: &str) -> (r: Option<RLimitKind>)
    ensures
        r == rlimit_kind(s@),
{
    if str_eq(s, "RLIMIT_CPU") {
        Some(RLimitKind::Cpu)
    } else if str_eq(s, "RLIMIT_FSIZE") {
        Some(RLimitKind::Fsize)
    } else if str_eq(s, "RLIMIT_DATA") {
        Some(RLimitKind::Data)
    } else if str_eq(s, "RLIMIT_STACK") {
        Some(RLimitKind::Stack)
    } else if str_eq(s, "RLIMIT_CORE") {
        Some(RLimitKind::Core)
    } else if str_eq(s, "RLIMIT_RSS") {
        Some(RLimitKind::Rss)
    } else if str_eq(s, "RLIMIT_NPROC") {
        Some(RLimitKind::Nproc)
    } else if str_eq(s, "RLIMIT_NOFILE") {
        Some(RLimitKind::Nofile)
    } else if str_eq(s, "RLIMIT_MEMLOCK") {
        Some(RLimitKind::Memlock)
    } else if str_eq(s, "RLIMIT_AS") {
        Some(RLimitKind::As)
    } else if str_eq(s, "RLIMIT_LOCKS") {
        Some(RLimitKind::Locks)
    } else if str_eq(s, "RLIMIT_SIGPENDING") {
        Some(RLimitKind::Sigpending)
    } else if str_eq(s, "RLIMIT_MSGQUEUE") {
        Some(RLimitKind::Msgqueue)
    } else if str_eq(s, "RLIMIT_NICE") {
        Some(RLimitKind::Nice)
    } else if str_eq(s, "RLIMIT_RTPRIO") {
        Some(RLimitKind::Rtprio)
    } else if str_eq(s, "RLIMIT_RTTIME") {
        Some(RLimitKind::Rttime)
    } else {
        None
    }
}

/// The kind of namespace a name stands for.
pub open spec fn namespace_kind(s: Seq<char>) -> Option<NamespaceKind> {
    if s == "pid"@ {
        Some(NamespaceKind::Pid)
    } else if s == "network"@ {
        Some(NamespaceKind::Network)
    } else if s == "mount"@ {
        Some(NamespaceKind::Mount)
    } else if s == "ipc"@ {
        Some(NamespaceKind::Ipc)
    } else if s == "uts"@ {
        Some(NamespaceKind::Uts)
    } else if s == "user"@ {
        Some(NamespaceKind::User)
    } else if s == "cgroup"@ {
        Some(NamespaceKind::Cgroup)
    } else {
        None
    }
}

/// The kind of namespace a name stands for.
pub fn parse_ns(s: &str) -> (r: Option<NamespaceKind>)
    ensures
        r == namespace_kind(s@),
{
    if str_eq(s, "pid") {
        Some(NamespaceKind::Pid)
    } else if str_eq(s, "network") {
        Some(NamespaceKind::Network)
    } else if str_eq(s, "mount") {
        Some(NamespaceKind::Mount)
    } else if str_eq(s, "ipc") {
        Some(NamespaceKind::Ipc)
    } else if str_eq(s, "uts") {
        Some(NamespaceKind::Uts)
    } else if str_eq(s, "user") {
        Some(NamespaceKind::User)
    } else if str_eq(s, "cgroup") {
        Some(NamespaceKind::Cgroup)
    } else {
        None
    }
}

/// The number of a scheduling policy.
pub open spec fn sched_policy(s: Seq<char>) -> Option<u32> {
    if s == "SCHED_OTHER"@ {
        Some(0u32)
    } else if s == "SCHED_FIFO"@ {
        Some(1u32)
    } else if s == "SCHED_RR"@ {
        Some(2u32)
    } else if s == "SCHED_BATCH"@ {
        Some(3u32)
    } else if s == "SCHED_IDLE"@ {
        Some(5u32)
    } else if s == "SCHED_DEADLINE"@ {
        Some(6u32)
    } else {
        None
    }
}

/// The number of a scheduling policy.
pub fn parse_sched_policy(s: &str) -> (r: Option<u32>)
    ensures
        r == sched_policy(s@),
{
    if str_eq(s, "SCHED_OTHER") {
        Some(0u32)
    } else if str_eq(s, "SCHED_FIFO") {
        Some(1u32)
    } else if str_eq(s, "SCHED_RR") {
        Some(2u32)
    } else if str_eq(s, "SCHED_BATCH") {
        Some(3u32)
    } else if str_eq(s, "SCHED_IDLE") {
        Some(5u32)
    } else if str_eq(s, "SCHED_DEADLINE") {
        Some(6u32)
    } else {
        None
    }
}

/// The bit of a scheduling flag.
pub open spec fn sched_flag(s: Seq<char>) -> Option<u64> {
    if s == "SCHED_FLAG_RESET_ON_FORK"@ {
        Some(1u64)
    } else if s == "SCHED_FLAG_RECLAIM"@ {
        Some(2u64)
    } else if s == "SCHED_FLAG_DL_OVERRUN"@ {
        Some(4u64)
    } else if s == "SCHED_FLAG_KEEP_POLICY"@ {
        Some(8u64)
    } else if s == "SCHED_FLAG_KEEP_PARAMS"@ {
        Some(16u64)
    } else if s == "SCHED_FLAG_UTIL_CLAMP_MIN"@ {
        Some(32u64)
    } else if s == "SCHED_FLAG_UTIL_CLAMP_MAX"@ {
        Some(64u64)
    } else {
        None
    }
}

/// The bit of a scheduling flag.
pub fn parse_sched_flag(s: &str) -> (r: Option<u64>)
    ensures
        r == sched_flag(s@),
{
    if str_eq(s, "SCHED_FLAG_RESET_ON_FORK") {
        Some(1u64)
    } else if str_eq(s, "SCHED_FLAG_RECLAIM") {
        Some(2u64)
    } else if str_eq(s, "SCHED_FLAG_DL_OVERRUN") {
        Some(4u64)
    } else if str_eq(s, "SCHED_FLAG_KEEP_POLICY") {
        Some(8u64)
    } else if str_eq(s, "SCHED_FLAG_KEEP_PARAMS") {
        Some(16u64)
    } else if str_eq(s, "SCHED_FLAG_UTIL_CLAMP_MIN") {
        Some(32u64)
    } else if str_eq(s, "SCHED_FLAG_UTIL_CLAMP_MAX") {
        Some(64u64)
    } else {
        None
    }
}

/// The elements that `f` makes something of, in order.
pub open spec fn kept<T>(a: Seq<JsonView>, f: spec_fn(JsonView) -> Option<T>) -> Seq<T>
    decreases a.len(),
{
    if a.len() == 0 {
        Seq::empty()
    } else {
        match f(a.last()) {
            Some(t) => kept(a.drop_last(), f).push(t),
            None => kept(a.drop_last(), f),
        }
    }
}

/// The elements of an array that may be missing.
pub open spec fn elements(v: Option<JsonView>) -> Seq<JsonView> {
    match json::items_at(v) {
        Some(a) => a,
        None => Seq::empty(),
    }
}

/// A resource limit: its three members are all there and the resource is known.
pub open spec fn rlimit_of(v: JsonView) -> Option<RLimit> {
    match (
        json::text_at(json::field(v, "type"@)),
        json::u64_at(json::field(v, "soft"@)),
        json::u64_at(json::field(v, "hard"@)),
    ) {
        (Some(ty), Some(soft), Some(hard)) => match rlimit_kind(ty) {
            Some(kind) => Some(RLimit { kind, soft, hard }),
            None => None,
        },
        _ => None,
    }
}

/// An id mapping: its three members are all there.
pub open spec fn mapping_of(v: JsonView) -> Option<IdMapping> {
    match (
        json::u64_at(json::field(v, "containerID"@)),
        json::u64_at(json::field(v, "hostID"@)),
        json::u64_at(json::field(v, "size"@)),
    ) {
        (Some(c), Some(h), Some(s)) => Some(
            IdMapping { container_id: c as u32, host_id: h as u32, size: s as u32 },
        ),
        _ => None,
    }
}

/// What a namespace entry says.
pub struct NamespaceView {
    pub kind: NamespaceKind,
    pub path: Option<Seq<char>>,
}

impl View for NamespaceEntry {
    type V = NamespaceView;

    open spec fn view(&self) -> NamespaceView {
        NamespaceView { kind: self.kind, path: text::opt_text(self.path) }
    }
}

/// A namespace entry of a known kind; an empty path is no path.
pub open spec fn namespace_of(v: JsonView) -> Option<NamespaceView> {
    match json::text_at(json::field(v, "type"@)) {
        Some(ty) => match namespace_kind(ty) {
            Some(kind) => Some(NamespaceView { kind, path: json::nonempty_text(json::field(v, "path"@)) }),
            None => None,
        },
        None => None,
    }
}

/// What a mount says.
pub struct MountView {
    pub destination: Seq<char>,
    pub source: Seq<char>,
    pub fstype: Seq<char>,
    pub options: Seq<Seq<char>>,
    pub uid_mappings: Seq<IdMapping>,
    pub gid_mappings: Seq<IdMapping>,
}

impl View for MountSpec {
    type V = MountView;

    open spec fn view(&self) -> MountView {
        MountView {
            destination: self.destination@,
            source: self.source@,
            fstype: self.fstype@,
            options: text::texts(self.options@),
            uid_mappings: self.uid_mappings@,
            gid_mappings: self.gid_mappings@,
        }
    }
}

/// What becomes of an element of a list of id mappings.
pub open spec fn mapping_rule() -> spec_fn(JsonView) -> Option<IdMapping> {
    |x: JsonView| mapping_of(x)
}

/// What becomes of an element of a list of resource limits.
pub open spec fn rlimit_rule() -> spec_fn(JsonView) -> Option<RLimit> {
    |x: JsonView| rlimit_of(x)
}

/// What becomes of an element of a list of namespaces.
pub open spec fn namespace_rule() -> spec_fn(JsonView) -> Option<NamespaceView> {
    |x: JsonView| namespace_of(x)
}

/// What becomes of an element of a list of mounts.
pub open spec fn mount_rule() -> spec_fn(JsonView) -> Option<MountView> {
    |x: JsonView| mount_of(x)
}

/// What becomes of an element of a list of numbers.
pub open spec fn u32_rule() -> spec_fn(JsonView) -> Option<u32> {
    |x: JsonView|
        match json::u64_at(Some(x)) {
            Some(n) => Some(n as u32),
            None => None,
        }
}

/// The id mappings in an array.
pub open spec fn mapping_list(v: Option<JsonView>) -> Seq<IdMapping> {
    kept(elements(v), mapping_rule())
}

/// The resource limits in an array.
pub open spec fn rlimit_list(v: Option<JsonView>) -> Seq<RLimit> {
    kept(elements(v), rlimit_rule())
}

/// The namespaces in an array.
pub open spec fn namespace_list(v: Option<JsonView>) -> Seq<NamespaceView> {
    kept(elements(v), namespace_rule())
}

/// A mount: one without a destination is none.
pub open spec fn mount_of(v: JsonView) -> Option<MountView> {
    match json::nonempty_text(json::field(v, "destination"@)) {
        Some(destination) => Some(
            MountView {
                destination,
                source: json::text_or(json::field(v, "source"@), ""@),
                fstype: json::text_or(json::field(v, "type"@), "none"@),
                options: json::string_list(json::field(v, "options"@)),
                uid_mappings: mapping_list(json::field(v, "uidMappings"@)),
                gid_mappings: mapping_list(json::field(v, "gidMappings"@)),
            },
        ),
        None => None,
    }
}

/// The mounts in an array.
pub open spec fn mount_list(v: Option<JsonView>) -> Seq<MountView> {
    kept(elements(v), mount_rule())
}

/// The numbers in an array, cut to 32 bits.
pub open spec fn u32_list(v: Option<JsonView>) -> Seq<u32> {
    kept(elements(v), u32_rule())
}

/// The members of an object that are texts, with their keys.
pub open spec fn text_members(m: Seq<(Seq<char>, JsonView)>) -> Seq<(Seq<char>, Seq<char>)>
    decreases m.len(),
{
    if m.len() == 0 {
        Seq::empty()
    } else {
        match m.last().1 {
            JsonView::Str(s) => text_members(m.drop_last()).push((m.last().0, s)),
            _ => text_members(m.drop_last()),
        }
    }
}

/// The text members of an object that may be missing.
pub open spec fn text_member_list(v: Option<JsonView>) -> Seq<(Seq<char>, Seq<char>)> {
    match json::members_at(v) {
        Some(m) => text_members(m),
        None => Seq::empty(),
    }
}

/// The texts of pairs of strings.
pub open spec fn pair_texts(v: Seq<(String, String)>) -> Seq<(Seq<char>, Seq<char>)> {
    Seq::new(v.len(), |i: int| (v[i].0@, v[i].1@))
}

/// What the entries of a list say.
pub open spec fn namespace_views(v: Seq<NamespaceEntry>) -> Seq<NamespaceView> {
    Seq::new(v.len(), |i: int| v[i]@)
}

/// What the mounts of a list say.
pub open spec fn mount_views(v: Seq<MountSpec>) -> Seq<MountView> {
    Seq::new(v.len(), |i: int| v[i]@)
}

/// Reads a resource limit.
fn parse_rlimit(v: &Json) -> (r: Option<RLimit>)
    ensures
        r == rlimit_of(v@),
{
    let ty = get_text(v.get("type"));
    let soft = get_u64(v.get("soft"));
    let hard = get_u64(v.get("hard"));
    match (ty, soft, hard) {
        (Some(ty), Some(soft), Some(hard)) => match parse_rlimit_kind(ty) {
            Some(kind) => Some(RLimit { kind, soft, hard }),
            None => None,
        },
        _ => None,
    }
}

/// Reads an id mapping.
fn parse_mapping(v: &Json) -> (r: Option<IdMapping>)
    ensures
        r == mapping_of(v@),
{
    let c = get_u64(v.get("containerID"));
    let h = get_u64(v.get("hostID"));
    let s = get_u64(v.get("size"));
    match (c, h, s) {
        (Some(c), Some(h), Some(s)) => Some(
            IdMapping { container_id: c as u32, host_id: h as u32, size: s as u32 },
        ),
        _ => None,
    }
}

/// What an optional namespace says.
pub open spec fn opt_namespace(n: Option<NamespaceEntry>) -> Option<NamespaceView> {
    match n {
        Some(n) => Some(n@),
        None => None,
    }
}

/// Reads a namespace.
fn parse_namespace(v: &Json) -> (r: Option<NamespaceEntry>)
    ensures
        opt_namespace(r) == namespace_of(v@),
{
    match get_text(v.get("type")) {
        Some(ty) => match parse_ns(ty) {
            Some(kind) => Some(NamespaceEntry { kind, path: get_nonempty(v.get("path")) }),
            None => None,
        },
        None => None,
    }
}

/// What an optional mount says.
pub open spec fn opt_mount(m: Option<MountSpec>) -> Option<MountView> {
    match m {
        Some(m) => Some(m@),
        None => None,
    }
}

/// Reads a number and cuts it to 32 bits.
fn parse_u32(v: &Json) -> (r: Option<u32>)
    ensures
        r == u32_rule()(v@),
{
    match v.as_u64() {
        Some(n) => Some(n as u32),
        None => None,
    }
}

/// Reads the id mappings of an array.
fn get_mappings(v: Option<&Json>) -> (r: Vec<IdMapping>)
    ensures
        r@ == mapping_list(json::opt_view(v)),
{
    let mut r: Vec<IdMapping> = Vec::new();
    if let Some(a) = get_items(v) {
        let ghost all = json::views(a@);
        let mut i: usize = 0;
        proof {
            assert(all.subrange(0, 0) =~= Seq::<JsonView>::empty());
            assert(r@ =~= kept(all.subrange(0, 0), mapping_rule()));
        }
        while i < a.len()
            invariant
                i <= a.len(),
                all == json::views(a@),
                r@ == kept(all.subrange(0, i as int), mapping_rule()),
            decreases a.len() - i,
        {
            proof {
                assert(all.subrange(0, i + 1).drop_last() =~= all.subrange(0, i as int));
                assert(all.subrange(0, i + 1).last() == a@[i as int]@);
            }
            if let Some(x) = parse_mapping(&a[i]) {
                let ghost was = r@;
                r.push(x);
                proof {
                    assert(r@ =~= was.push(x));
                }
            }
            i = i + 1;
        }
        proof {
            assert(all.subrange(0, a@.len() as int) =~= all);
        }
    } else {
        proof {
            assert(r@ =~= kept(Seq::<JsonView>::empty(), mapping_rule()));
        }
    }
    r
}

/// Reads the resource limits of an array.
fn get_rlimits(v: Option<&Json>) -> (r: Vec<RLimit>)
    ensures
        r@ == rlimit_list(json::opt_view(v)),
{
    let mut r: Vec<RLimit> = Vec::new();
    if let Some(a) = get_items(v) {
        let ghost all = json::views(a@);
        let mut i: usize = 0;
        proof {
            assert(all.subrange(0, 0) =~= Seq::<JsonView>::empty());
            assert(r@ =~= kept(all.subrange(0, 0), rlimit_rule()));
        }
        while i < a.len()
            invariant
                i <= a.len(),
                all == json::views(a@),
                r@ == kept(all.subrange(0, i as int), rlimit_rule()),
            decreases a.len() - i,
        {
            proof {
                assert(all.subrange(0, i + 1).drop_last() =~= all.subrange(0, i as int));
                assert(all.subrange(0, i + 1).last() == a@[i as int]@);
            }
            if let Some(x) = parse_rlimit(&a[i]) {
                let ghost was = r@;
                r.push(x);
                proof {
                    assert(r@ =~= was.push(x));
                }
            }
            i = i + 1;
        }
        proof {
            assert(all.subrange(0, a@.len() as int) =~= all);
        }
    } else {
        proof {
            assert(r@ =~= kept(Seq::<JsonView>::empty(), rlimit_rule()));
        }
    }
    r
}

/// Reads the numbers of an array.
pub fn get_u32s(v: Option<&Json>) -> (r: Vec<u32>)
    ensures
        r@ == u32_list(json::opt_view(v)),
{
    let mut r: Vec<u32> = Vec::new();
    if let Some(a) = get_items(v) {
        let ghost all = json::views(a@);
        let mut i: usize = 0;
        proof {
            assert(all.subrange(0, 0) =~= Seq::<JsonView>::empty());
            assert(r@ =~= kept(all.subrange(0, 0), u32_rule()));
        }
        while i < a.len()
            invariant
                i <= a.len(),
                all == json::views(a@),
                r@ == kept(all.subrange(0, i as int), u32_rule()),
            decreases a.len() - i,
        {
            proof {
                assert(all.subrange(0, i + 1).drop_last() =~= all.subrange(0, i as int));
                assert(all.subrange(0, i + 1).last() == a@[i as int]@);
            }
            if let Some(x) = parse_u32(&a[i]) {
                let ghost was = r@;
                r.push(x);
                proof {
                    assert(r@ =~= was.push(x));
                }
            }
            i = i + 1;
        }
        proof {
            assert(all.subrange(0, a@.len() as int) =~= all);
        }
    } else {
        proof {
            assert(r@ =~= kept(Seq::<JsonView>::empty(), u32_rule()));
        }
    }
    r
}

/// Reads the namespaces of an array.
fn get_namespaces(v: Option<&Json>) -> (r: Vec<NamespaceEntry>)
    ensures
        namespace_views(r@) == namespace_list(json::opt_view(v)),
{
    let mut r: Vec<NamespaceEntry> = Vec::new();
    if let Some(a) = get_items(v) {
        let ghost all = json::views(a@);
        let mut i: usize = 0;
        proof {
            assert(all.subrange(0, 0) =~= Seq::<JsonView>::empty());
            assert(namespace_views(r@) =~= kept(all.subrange(0, 0), namespace_rule()));
        }
        while i < a.len()
            invariant
                i <= a.len(),
                all == json::views(a@),
                namespace_views(r@) == kept(all.subrange(0, i as int), namespace_rule()),
            decreases a.len() - i,
        {
            proof {
                assert(all.subrange(0, i + 1).drop_last() =~= all.subrange(0, i as int));
                assert(all.subrange(0, i + 1).last() == a@[i as int]@);
            }
            if let Some(x) = parse_namespace(&a[i]) {
                let ghost was = r@;
                r.push(x);
                proof {
                    assert(namespace_views(r@) =~= namespace_views(was).push(x@));
                }
            }
            i = i + 1;
        }
        proof {
            assert(all.subrange(0, a@.len() as int) =~= all);
        }
    } else {
        proof {
            assert(namespace_views(r@) =~= kept(Seq::<JsonView>::empty(), namespace_rule()));
        }
    }
    r
}

/// Reads a mount.
fn parse_mount(v: &Json) -> (r: Option<MountSpec>)
    ensures
        opt_mount(r) == mount_of(v@),
{
    match get_nonempty(v.get("destination")) {
        Some(destination) => Some(
            MountSpec {
                destination,
                source: get_text_or(v.get("source"), ""),
                fstype: get_text_or(v.get("type"), "none"),
                options: get_strings(v.get("options")),
                uid_mappings: get_mappings(v.get("uidMappings")),
                gid_mappings: get_mappings(v.get("gidMappings")),
            },
        ),
        None => None,
    }
}

/// Reads the mounts of an array.
fn get_mounts(v: Option<&Json>) -> (r: Vec<MountSpec>)
    ensures
        mount_views(r@) == mount_list(json::opt_view(v)),
{
    let mut r: Vec<MountSpec> = Vec::new();
    if let Some(a) = get_items(v) {
        let ghost all = json::views(a@);
        let mut i: usize = 0;
        proof {
            assert(all.subrange(0, 0) =~= Seq::<JsonView>::empty());
            assert(mount_views(r@) =~= kept(all.subrange(0, 0), mount_rule()));
        }
        while i < a.len()
            invariant
                i <= a.len(),
                all == json::views(a@),
                mount_views(r@) == kept(all.subrange(0, i as int), mount_rule()),
            decreases a.len() - i,
        {
            proof {
                assert(all.subrange(0, i + 1).drop_last() =~= all.subrange(0, i as int));
                assert(all.subrange(0, i + 1).last() == a@[i as int]@);
            }
            if let Some(x) = parse_mount(&a[i]) {
                let ghost was = r@;
                r.push(x);
                proof {
                    assert(mount_views(r@) =~= mount_views(was).push(x@));
                }
            }
            i = i + 1;
        }
        proof {
            assert(all.subrange(0, a@.len() as int) =~= all);
        }
    } else {
        proof {
            assert(mount_views(r@) =~= kept(Seq::<JsonView>::empty(), mount_rule()));
        }
    }
    r
}

/// Reads the text members of an object.
fn get_text_members(v: Option<&Json>) -> (r: Vec<(String, String)>)
    ensures
        pair_texts(r@) == text_member_list(json::opt_view(v)),
{
    let mut r: Vec<(String, String)> = Vec::new();
    let members = match v {
        Some(j) => j.as_object(),
        None => None,
    };
    if let Some(m) = members {
        let ghost all = json::member_views(m@);
        let mut i: usize = 0;
        proof {
            assert(all.subrange(0, 0) =~= Seq::<(Seq<char>, JsonView)>::empty());
            assert(pair_texts(r@) =~= text_members(all.subrange(0, 0)));
        }
        while i < m.len()
            invariant
                i <= m.len(),
                all == json::member_views(m@),
                pair_texts(r@) == text_members(all.subrange(0, i as int)),
            decreases m.len() - i,
        {
            proof {
                assert(all.subrange(0, i + 1).drop_last() =~= all.subrange(0, i as int));
                assert(all.subrange(0, i + 1).last() == (m@[i as int].0@, m@[i as int].1@));
            }
            if let Some(t) = m[i].1.as_str() {
                let ghost was = r@;
                let key = m[i].0.clone();
                let val = owned(t);
                r.push((key, val));
                proof {
                    assert(pair_texts(r@) =~= pair_texts(was).push((key@, val@)));
                }
            }
            i = i + 1;
        }
        proof {
            assert(all.subrange(0, m@.len() as int) =~= all);
        }
    } else {
        proof {
            assert(pair_texts(r@) =~= Seq::<(Seq<char>, Seq<char>)>::empty());
        }
    }
    r
}

/// The bits of a list of scheduling flags, or the first name that is none.
pub open spec fn sched_flag_bits(names: Seq<Seq<char>>) -> Result<u64, Seq<char>>
    decreases names.len(),
{
    if names.len() == 0 {
        Ok(0u64)
    } else {
        match sched_flag_bits(names.drop_last()) {
            Ok(bits) => match sched_flag(names.last()) {
                Some(bit) => Ok(bits | bit),
                None => Err(names.last()),
            },
            Err(name) => Err(name),
        }
    }
}

/// What a scheduler entry says, or what is wrong with it.
pub open spec fn scheduler_of(v: JsonView) -> Result<SchedulerSpec, Seq<char>> {
    match json::text_at(json::field(v, "policy"@)) {
        None => Err("missing OCI field: "@ + "process.scheduler.policy"@),
        Some(name) => match sched_policy(name) {
            None => Err("unsupported scheduler policy: "@ + name),
            Some(policy) => match sched_flag_bits(json::string_list(json::field(v, "flags"@))) {
                Err(flag) => Err("unsupported scheduler flag: "@ + flag),
                Ok(flags) => Ok(
                    SchedulerSpec {
                        policy,
                        flags,
                        nice: json::i64_or(json::field(v, "nice"@), 0) as i32,
                        priority: json::u64_or(json::field(v, "priority"@), 0) as u32,
                        runtime: json::u64_or(json::field(v, "runtime"@), 0),
                        deadline: json::u64_or(json::field(v, "deadline"@), 0),
                        period: json::u64_or(json::field(v, "period"@), 0),
                    },
                ),
            },
        },
    }
}

/// Reads a scheduler entry; a policy or a flag that is not known is refused.
fn parse_scheduler(v: &Json) -> (r: Result<SchedulerSpec, Error>)
    ensures
        match r {
            Ok(s) => scheduler_of(v@) == Ok::<SchedulerSpec, Seq<char>>(s),
            Err(e) => scheduler_of(v@) == Err::<SchedulerSpec, Seq<char>>(e@) && e.kind
                == ErrorKind::InvalidData,
        },
{
    let name = match get_text(v.get("policy")) {
        Some(name) => name,
        None => return Err(missing("process.scheduler.policy")),
    };
    let policy: u32 = match parse_sched_policy(name) {
        Some(policy) => policy,
        None => return Err(refused("unsupported scheduler policy: ", name)),
    };
    let names = get_strings(v.get("flags"));
    let ghost all = text::texts(names@);
    let mut flags: u64 = 0;
    let mut i: usize = 0;
    proof {
        assert(all.subrange(0, 0) =~= Seq::<Seq<char>>::empty());
    }
    while i < names.len()
        invariant
            i <= names.len(),
            all == text::texts(names@),
            all == json::string_list(json::field(v@, "flags"@)),
            json::text_at(json::field(v@, "policy"@)) == Some(name@),
            sched_policy(name@) == Some(policy),
            sched_flag_bits(all.subrange(0, i as int)) == Ok::<u64, Seq<char>>(flags),
        decreases names.len() - i,
    {
        proof {
            assert(all.subrange(0, i + 1).drop_last() =~= all.subrange(0, i as int));
            assert(all.subrange(0, i + 1).last() == names@[i as int]@);
        }
        match parse_sched_flag(names[i].as_str()) {
            Some(bit) => {
                flags = flags | bit;
            },
            None => {
                proof {
                    lemma_bad_flag(all, i + 1);
                    assert(all.subrange(0, all.len() as int) =~= all);
                }
                return Err(refused("unsupported scheduler flag: ", names[i].as_str()));
            },
        }
        i = i + 1;
    }
    proof {
        assert(all.subrange(0, all.len() as int) =~= all);
    }
    Ok(
        SchedulerSpec {
            policy,
            flags,
            nice: get_i64_or(v.get("nice"), 0) as i32,
            priority: get_u64_or(v.get("priority"), 0) as u32,
            runtime: get_u64_or(v.get("runtime"), 0),
            deadline: get_u64_or(v.get("deadline"), 0),
            period: get_u64_or(v.get("period"), 0),
        },
    )
}

/// The first flag that is not known decides, whatever follows it.
proof fn lemma_bad_flag(all: Seq<Seq<char>>, k: int)
    requires
        0 <= k <= all.len(),
        sched_flag_bits(all.subrange(0, k)) is Err,
    ensures
        sched_flag_bits(all.subrange(0, all.len() as int)) == sched_flag_bits(all.subrange(0, k)),
    decreases all.len() - k,
{
    if k < all.len() {
        assert(all.subrange(0, k + 1).drop_last() =~= all.subrange(0, k));
        lemma_bad_flag(all, k + 1);
    }
}

/// Whether the capability sets are those that `v` lists.
pub open spec fn lists_capabilities(c: Capabilities, v: JsonView) -> bool {
    &&& text::texts(c.bounding@) == json::string_list(json::field(v, "bounding"@))
    &&& text::texts(c.effective@) == json::string_list(json::field(v, "effective"@))
    &&& text::texts(c.permitted@) == json::string_list(json::field(v, "permitted"@))
    &&& text::texts(c.inheritable@) == json::string_list(json::field(v, "inheritable"@))
    &&& text::texts(c.ambient@) == json::string_list(json::field(v, "ambient"@))
}

/// Reads the capability sets.
pub fn parse_capabilities(v: &Json) -> (c: Capabilities)
    ensures
        lists_capabilities(c, v@),
{
    Capabilities {
        bounding: get_strings(v.get("bounding")),
        effective: get_strings(v.get("effective")),
        permitted: get_strings(v.get("permitted")),
        inheritable: get_strings(v.get("inheritable")),
        ambient: get_strings(v.get("ambient")),
    }
}

/// Whether the storage is the one that `rsrun.rootfs` in `v` asks for: there is one where a
/// backend is named.
pub open spec fn names_backend(b: Option<RootfsBackend>, v: JsonView) -> bool {
    let cfg = json::at(json::field(v, "rsrun"@), "rootfs"@);
    match b {
        Some(b) => {
            &&& json::text_at(json::at(cfg, "backend"@)) == Some(b.backend@)
            &&& text::opt_text(b.lowerdir) == json::text_at(json::at(cfg, "lowerdir"@))
            &&& text::opt_text(b.upperdir) == json::text_at(json::at(cfg, "upperdir"@))
            &&& text::opt_text(b.workdir) == json::text_at(json::at(cfg, "workdir"@))
            &&& text::opt_text(b.merged) == json::text_at(json::at(cfg, "merged"@))
        },
        None => json::text_at(json::at(cfg, "backend"@)) is None,
    }
}

/// An owned text where there is one.
fn owned_text(v: Option<&Json>) -> (r: Option<String>)
    ensures
        text::opt_text(r) == json::text_at(json::opt_view(v)),
{
    match get_text(v) {
        Some(t) => Some(owned(t)),
        None => None,
    }
}

/// Reads the storage a bundle asks for.
fn parse_backend(v: &Json) -> (b: Option<RootfsBackend>)
    ensures
        names_backend(b, v@),
{
    let cfg = get_at(v.get("rsrun"), "rootfs");
    match get_text(get_at(cfg, "backend")) {
        Some(backend) => Some(
            RootfsBackend {
                backend: owned(backend),
                lowerdir: owned_text(get_at(cfg, "lowerdir")),
                upperdir: owned_text(get_at(cfg, "upperdir")),
                workdir: owned_text(get_at(cfg, "workdir")),
                merged: owned_text(get_at(cfg, "merged")),
            },
        ),
        None => None,
    }
}

/// Why a document is no usable configuration, if it is none.
pub open spec fn spec_fault(v: JsonView) -> Option<Seq<char>> {
    match json::field(v, "process"@) {
        None => Some("missing OCI field: "@ + "process"@),
        Some(process) => if json::field(process, "args"@) is None {
            Some("missing OCI field: "@ + "process.args"@)
        } else {
            match json::field(process, "scheduler"@) {
                Some(s) => match scheduler_of(s) {
                    Err(why) => Some(why),
                    Ok(_) => root_fault(v),
                },
                None => root_fault(v),
            }
        },
    }
}

/// Why the root filesystem entry is not usable, if it is not.
pub open spec fn root_fault(v: JsonView) -> Option<Seq<char>> {
    match json::field(v, "root"@) {
        None => Some("missing OCI field: "@ + "root"@),
        Some(root) => if json::text_at(json::field(root, "path"@)) is None {
            Some("missing OCI field: "@ + "root.path"@)
        } else {
            None
        },
    }
}

impl Spec {
    /// Whether the process settings are those of `p`.
    pub open spec fn says_process(&self, p: JsonView) -> bool {
        &&& text::texts(self.args@) == json::string_list(json::field(p, "args"@))
        &&& text::texts(self.env@) == json::string_list(json::field(p, "env"@))
        &&& self.cwd@ == json::text_or(json::field(p, "cwd"@), "/"@)
        &&& self.terminal == json::bool_or(json::field(p, "terminal"@), false)
        &&& self.no_new_privileges == json::bool_or(json::field(p, "noNewPrivileges"@), false)
        &&& self.oom_score_adj == (match json::i64_at(json::field(p, "oomScoreAdj"@)) {
            Some(n) => Some(n as i32),
            None => None,
        })
        &&& text::opt_text(self.apparmor_profile) == json::nonempty_text(
            json::field(p, "apparmorProfile"@),
        )
        &&& text::opt_text(self.selinux_label) == json::nonempty_text(
            json::field(p, "selinuxLabel"@),
        )
        &&& self.rlimits@ == rlimit_list(json::field(p, "rlimits"@))
        &&& match json::field(p, "capabilities"@) {
            Some(c) => self.capabilities is Some && lists_capabilities(
                self.capabilities->0,
                c,
            ),
            None => self.capabilities is None,
        }
        &&& match json::field(p, "scheduler"@) {
            Some(s) => self.scheduler is Some && scheduler_of(s) == Ok::<SchedulerSpec, Seq<char>>(
                self.scheduler->0,
            ),
            None => self.scheduler is None,
        }
        &&& self.says_user(json::field(p, "user"@))
    }

    /// Whether the user is the one of `u`.
    pub open spec fn says_user(&self, u: Option<JsonView>) -> bool {
        &&& self.user_uid == json::u64_or(json::at(u, "uid"@), 0) as u32
        &&& self.user_gid == json::u64_or(json::at(u, "gid"@), 0) as u32
        &&& self.user_additional_gids@ == u32_list(json::at(u, "additionalGids"@))
        &&& self.user_umask == (match json::u64_at(json::at(u, "umask"@)) {
            Some(n) => Some(n as u32),
            None => None,
        })
    }

    /// Whether the Linux settings are those of `l`.
    pub open spec fn says_linux(&self, l: Option<JsonView>) -> bool {
        &&& pair_texts(self.sysctls@) == text_member_list(json::at(l, "sysctl"@))
        &&& text::opt_text(self.rootfs_propagation) == json::nonempty_text(
            json::at(l, "rootfsPropagation"@),
        )
        &&& text::texts(self.masked_paths@) == json::string_list(json::at(l, "maskedPaths"@))
        &&& text::texts(self.readonly_paths@) == json::string_list(json::at(l, "readonlyPaths"@))
        &&& namespace_views(self.namespaces@) == namespace_list(json::at(l, "namespaces"@))
        &&& self.uid_mappings@ == mapping_list(json::at(l, "uidMappings"@))
        &&& self.gid_mappings@ == mapping_list(json::at(l, "gidMappings"@))
    }

    /// Whether this is what the document `v` of the bundle `bundle` says.
    pub open spec fn says(&self, v: JsonView, bundle: Seq<char>) -> bool {
        let root = json::field(v, "root"@);
        &&& json::field(v, "process"@) is Some
        &&& self.says_process(json::field(v, "process"@)->0)
        &&& self.says_linux(json::field(v, "linux"@))
        &&& self.root_path@ == path::joined(bundle, json::text_or(json::at(root, "path"@), ""@))
        &&& self.root_readonly == json::bool_or(json::at(root, "readonly"@), false)
        &&& self.hostname@ == json::text_or(json::field(v, "hostname"@), "rsrun"@)
        &&& mount_views(self.mounts@) == mount_list(json::field(v, "mounts"@))
        &&& names_backend(self.rootfs_backend, v)
        &&& self.raw@ == v
        &&& self.bundle@ == bundle
    }

    /// Reads the configuration of a bundle out of a document.
    pub fn from_value(v: Json, bundle: &str) -> (r: Result<Spec, Error>)
        ensures
            match r {
                Ok(s) => spec_fault(v@) is None && s.says(v@, bundle@),
                Err(e) => spec_fault(v@) == Some(e@) && e.kind == ErrorKind::InvalidData,
            },
    {
        let process = match v.get("process") {
            Some(p) => p,
            None => return Err(missing("process")),
        };
        let args_entry = process.get("args");
        if args_entry.is_none() {
            return Err(missing("process.args"));
        }
        let args = get_strings(args_entry);
        let scheduler = match process.get("scheduler") {
            Some(s) => match parse_scheduler(s) {
                Ok(s) => Some(s),
                Err(e) => return Err(e),
            },
            None => None,
        };
        let root = v.get("root");
        if root.is_none() {
            return Err(missing("root"));
        }
        let root_rel = match get_text(get_at(root, "path")) {
            Some(p) => p,
            None => return Err(missing("root.path")),
        };
        let root_path = join(bundle, root_rel);
        let root_readonly = get_bool_or(get_at(root, "readonly"), false);
        let capabilities = match process.get("capabilities") {
            Some(c) => Some(parse_capabilities(c)),
            None => None,
        };
        let oom_score_adj = match get_i64(process.get("oomScoreAdj")) {
            Some(n) => Some(n as i32),
            None => None,
        };
        let user = process.get("user");
        let user_umask = match get_u64(get_at(user, "umask")) {
            Some(n) => Some(n as u32),
            None => None,
        };
        let env = get_strings(process.get("env"));
        let cwd = get_text_or(process.get("cwd"), "/");
        let terminal = get_bool_or(process.get("terminal"), false);
        let no_new_privileges = get_bool_or(process.get("noNewPrivileges"), false);
        let apparmor_profile = get_nonempty(process.get("apparmorProfile"));
        let selinux_label = get_nonempty(process.get("selinuxLabel"));
        let rlimits = get_rlimits(process.get("rlimits"));
        let user_uid: u32 = get_u64_or(get_at(user, "uid"), 0) as u32;
        let user_gid: u32 = get_u64_or(get_at(user, "gid"), 0) as u32;
        let user_additional_gids = get_u32s(get_at(user, "additionalGids"));
        let linux = v.get("linux");
        let sysctls = get_text_members(get_at(linux, "sysctl"));
        let rootfs_propagation = get_nonempty(get_at(linux, "rootfsPropagation"));
        let masked_paths = get_strings(get_at(linux, "maskedPaths"));
        let readonly_paths = get_strings(get_at(linux, "readonlyPaths"));
        let namespaces = get_namespaces(get_at(linux, "namespaces"));
        let uid_mappings = get_mappings(get_at(linux, "uidMappings"));
        let gid_mappings = get_mappings(get_at(linux, "gidMappings"));
        let hostname = get_text_or(v.get("hostname"), "rsrun");
        let mounts = get_mounts(v.get("mounts"));
        let rootfs_backend = parse_backend(&v);
        Ok(
            Spec {
                args,
                env,
                cwd,
                terminal,
                root_path,
                root_readonly,
                hostname,
                namespaces,
                mounts,
                uid_mappings,
                gid_mappings,
                rlimits,
                capabilities,
                no_new_privileges,
                apparmor_profile,
                selinux_label,
                sysctls,
                rootfs_propagation,
                oom_score_adj,
                masked_paths,
                readonly_paths,
                user_uid,
                user_gid,
                user_additional_gids,
                user_umask,
                scheduler,
                rootfs_backend,
                raw: v,
                bundle: owned(bundle),
            },
        )
    }

    /// Reads the configuration of the bundle `bundle` out of the bytes of its `config.json`.
    pub fn from_bundle(bytes: &[u8], bundle: &str) -> (r: Result<Spec, Error>)
        ensures
            match json::json_text(bytes@) {
                Err(why) => r is Err && (r->Err_0)@ == why && (r->Err_0).kind
                    == ErrorKind::InvalidData,
                Ok(v) => match r {
                    Ok(s) => spec_fault(v) is None && s.says(v, bundle@),
                    Err(e) => spec_fault(v) == Some(e@) && e.kind == ErrorKind::InvalidData,
                },
            },
    {
        match parse_json(bytes) {
            Ok(v) => Spec::from_value(v, bundle),
            Err(e) => Err(Error::of_kind(ErrorKind::InvalidData, e.msg)),
        }
    }
}

/// The error for a member that is not there.
fn missing(name: &str) -> (e: Error)
    ensures
        e@ == "missing OCI field: "@ + name@,
        e.kind == ErrorKind::InvalidData,
{
    refused("missing OCI field: ", name)
}

/// The error for a configuration that is refused.
fn refused(why: &str, what: &str) -> (e: Error)
    ensures
        e@ == why@ + what@,
        e.kind == ErrorKind::InvalidData,
{
    Error::of_kind(ErrorKind::InvalidData, cat2(why, what))
}

/// What is kept of an array: what the rule makes of each element that passes, in their order.
pub proof fn law_kept<T>(a: Seq<JsonView>, f: spec_fn(JsonView) -> Option<T>)
    ensures
        kept(a, f) == a.filter(|x: JsonView| f(x) is Some).map_values(
            |x: JsonView| f(x)->Some_0,
        ),
    decreases a.len(),
{
    reveal(Seq::filter);
    let pass = |x: JsonView| f(x) is Some;
    let g = |x: JsonView| f(x)->Some_0;
    if a.len() > 0 {
        law_kept(a.drop_last(), f);
        let h = a.drop_last().filter(pass);
        assert(h.push(a.last()).map_values(g) =~= h.map_values(g).push(g(a.last())));
    }
    assert(kept(a, f) =~= a.filter(pass).map_values(g));
}

/// The names of the limits.
pub proof fn law_rlimit_names(s: Seq<char>)
    ensures
        rlimit_kind(s) == Some(RLimitKind::Cpu) <==> s == "RLIMIT_CPU"@,
        rlimit_kind(s) == Some(RLimitKind::Fsize) <==> s == "RLIMIT_FSIZE"@,
        rlimit_kind(s) == Some(RLimitKind::Data) <==> s == "RLIMIT_DATA"@,
        rlimit_kind(s) == Some(RLimitKind::Stack) <==> s == "RLIMIT_STACK"@,
        rlimit_kind(s) == Some(RLimitKind::Core) <==> s == "RLIMIT_CORE"@,
        rlimit_kind(s) == Some(RLimitKind::Rss) <==> s == "RLIMIT_RSS"@,
        rlimit_kind(s) == Some(RLimitKind::Nproc) <==> s == "RLIMIT_NPROC"@,
        rlimit_kind(s) == Some(RLimitKind::Nofile) <==> s == "RLIMIT_NOFILE"@,
        rlimit_kind(s) == Some(RLimitKind::Memlock) <==> s == "RLIMIT_MEMLOCK"@,
        rlimit_kind(s) == Some(RLimitKind::As) <==> s == "RLIMIT_AS"@,
        rlimit_kind(s) == Some(RLimitKind::Locks) <==> s == "RLIMIT_LOCKS"@,
        rlimit_kind(s) == Some(RLimitKind::Sigpending) <==> s == "RLIMIT_SIGPENDING"@,
        rlimit_kind(s) == Some(RLimitKind::Msgqueue) <==> s == "RLIMIT_MSGQUEUE"@,
        rlimit_kind(s) == Some(RLimitKind::Nice) <==> s == "RLIMIT_NICE"@,
        rlimit_kind(s) == Some(RLimitKind::Rtprio) <==> s == "RLIMIT_RTPRIO"@,
        rlimit_kind(s) == Some(RLimitKind::Rttime) <==> s == "RLIMIT_RTTIME"@,
{
    reveal_strlit("RLIMIT_CPU");
    reveal_strlit("RLIMIT_FSIZE");
    reveal_strlit("RLIMIT_DATA");
    reveal_strlit("RLIMIT_STACK");
    reveal_strlit("RLIMIT_CORE");
    reveal_strlit("RLIMIT_RSS");
    reveal_strlit("RLIMIT_NPROC");
    reveal_strlit("RLIMIT_NOFILE");
    reveal_strlit("RLIMIT_MEMLOCK");
    reveal_strlit("RLIMIT_AS");
    reveal_strlit("RLIMIT_LOCKS");
    reveal_strlit("RLIMIT_SIGPENDING");
    reveal_strlit("RLIMIT_MSGQUEUE");
    reveal_strlit("RLIMIT_NICE");
    reveal_strlit("RLIMIT_RTPRIO");
    reveal_strlit("RLIMIT_RTTIME");
    assert("RLIMIT_CPU"@.len() == 10);
    assert("RLIMIT_FSIZE"@.len() == 12);
    assert("RLIMIT_DATA"@.len() == 11);
    assert("RLIMIT_STACK"@.len() == 12);
    assert("RLIMIT_CORE"@.len() == 11);
    assert("RLIMIT_RSS"@.len() == 10);
    assert("RLIMIT_NPROC"@.len() == 12);
    assert("RLIMIT_NOFILE"@.len() == 13);
    assert("RLIMIT_MEMLOCK"@.len() == 14);
    assert("RLIMIT_AS"@.len() == 9);
    assert("RLIMIT_LOCKS"@.len() == 12);
    assert("RLIMIT_SIGPENDING"@.len() == 17);
    assert("RLIMIT_MSGQUEUE"@.len() == 15);
    assert("RLIMIT_NICE"@.len() == 11);
    assert("RLIMIT_RTPRIO"@.len() == 13);
    assert("RLIMIT_RTTIME"@.len() == 13);
    assert("RLIMIT_CPU"@[7] == 'C');
    assert("RLIMIT_RSS"@[7] == 'R');
    assert("RLIMIT_FSIZE"@[7] == 'F');
    assert("RLIMIT_STACK"@[7] == 'S');
    assert("RLIMIT_NPROC"@[7] == 'N');
    assert("RLIMIT_LOCKS"@[7] == 'L');
    assert("RLIMIT_DATA"@[7] == 'D');
    assert("RLIMIT_CORE"@[7] == 'C');
    assert("RLIMIT_NICE"@[7] == 'N');
    assert("RLIMIT_NOFILE"@[7] == 'N');
    assert("RLIMIT_RTPRIO"@[7] == 'R');
    assert("RLIMIT_RTTIME"@[7] == 'R');
    assert("RLIMIT_RTPRIO"@[9] == 'P');
    assert("RLIMIT_RTTIME"@[9] == 'T');
}

/// The names of the kinds of namespaces.
pub proof fn law_namespace_names(s: Seq<char>)
    ensures
        namespace_kind(s) == Some(NamespaceKind::Pid) <==> s == "pid"@,
        namespace_kind(s) == Some(NamespaceKind::Network) <==> s == "network"@,
        namespace_kind(s) == Some(NamespaceKind::Mount) <==> s == "mount"@,
        namespace_kind(s) == Some(NamespaceKind::Ipc) <==> s == "ipc"@,
        namespace_kind(s) == Some(NamespaceKind::Uts) <==> s == "uts"@,
        namespace_kind(s) == Some(NamespaceKind::User) <==> s == "user"@,
        namespace_kind(s) == Some(NamespaceKind::Cgroup) <==> s == "cgroup"@,
{
    reveal_strlit("pid");
    reveal_strlit("network");
    reveal_strlit("mount");
    reveal_strlit("ipc");
    reveal_strlit("uts");
    reveal_strlit("user");
    reveal_strlit("cgroup");
    assert("pid"@.len() == 3);
    assert("network"@.len() == 7);
    assert("mount"@.len() == 5);
    assert("ipc"@.len() == 3);
    assert("uts"@.len() == 3);
    assert("user"@.len() == 4);
    assert("cgroup"@.len() == 6);
    assert("pid"@[0] == 'p');
    assert("ipc"@[0] == 'i');
    assert("uts"@[0] == 'u');
}

/// The numbers of the scheduling policies.
pub proof fn law_sched_policies(s: Seq<char>)
    ensures
        sched_policy(s) == Some(0u32) <==> s == "SCHED_OTHER"@,
        sched_policy(s) == Some(1u32) <==> s == "SCHED_FIFO"@,
        sched_policy(s) == Some(2u32) <==> s == "SCHED_RR"@,
        sched_policy(s) == Some(3u32) <==> s == "SCHED_BATCH"@,
        sched_policy(s) == Some(5u32) <==> s == "SCHED_IDLE"@,
        sched_policy(s) == Some(6u32) <==> s == "SCHED_DEADLINE"@,
        sched_policy(s) matches Some(n) ==> n <= 6 && n != 4,
{
    reveal_strlit("SCHED_OTHER");
    reveal_strlit("SCHED_FIFO");
    reveal_strlit("SCHED_RR");
    reveal_strlit("SCHED_BATCH");
    reveal_strlit("SCHED_IDLE");
    reveal_strlit("SCHED_DEADLINE");
    assert("SCHED_OTHER"@.len() == 11);
    assert("SCHED_FIFO"@.len() == 10);
    assert("SCHED_RR"@.len() == 8);
    assert("SCHED_BATCH"@.len() == 11);
    assert("SCHED_IDLE"@.len() == 10);
    assert("SCHED_DEADLINE"@.len() == 14);
    assert("SCHED_OTHER"@[6] == 'O');
    assert("SCHED_BATCH"@[6] == 'B');
    assert("SCHED_FIFO"@[6] == 'F');
    assert("SCHED_IDLE"@[6] == 'I');
}

/// The bits of the scheduling flags.
pub proof fn law_sched_flags(s: Seq<char>)
    ensures
        sched_flag(s) == Some(0x01u64) <==> s == "SCHED_FLAG_RESET_ON_FORK"@,
        sched_flag(s) == Some(0x02u64) <==> s == "SCHED_FLAG_RECLAIM"@,
        sched_flag(s) == Some(0x04u64) <==> s == "SCHED_FLAG_DL_OVERRUN"@,
        sched_flag(s) == Some(0x08u64) <==> s == "SCHED_FLAG_KEEP_POLICY"@,
        sched_flag(s) == Some(0x10u64) <==> s == "SCHED_FLAG_KEEP_PARAMS"@,
        sched_flag(s) == Some(0x20u64) <==> s == "SCHED_FLAG_UTIL_CLAMP_MIN"@,
        sched_flag(s) == Some(0x40u64) <==> s == "SCHED_FLAG_UTIL_CLAMP_MAX"@,
        sched_flag(s) matches Some(f) ==> f <= 0x40,
{
    reveal_strlit("SCHED_FLAG_RESET_ON_FORK");
    reveal_strlit("SCHED_FLAG_RECLAIM");
    reveal_strlit("SCHED_FLAG_DL_OVERRUN");
    reveal_strlit("SCHED_FLAG_KEEP_POLICY");
    reveal_strlit("SCHED_FLAG_KEEP_PARAMS");
    reveal_strlit("SCHED_FLAG_UTIL_CLAMP_MIN");
    reveal_strlit("SCHED_FLAG_UTIL_CLAMP_MAX");
    assert("SCHED_FLAG_RESET_ON_FORK"@.len() == 24);
    assert("SCHED_FLAG_RECLAIM"@.len() == 18);
    assert("SCHED_FLAG_DL_OVERRUN"@.len() == 21);
    assert("SCHED_FLAG_KEEP_POLICY"@.len() == 22);
    assert("SCHED_FLAG_KEEP_PARAMS"@.len() == 22);
    assert("SCHED_FLAG_UTIL_CLAMP_MIN"@.len() == 25);
    assert("SCHED_FLAG_UTIL_CLAMP_MAX"@.len() == 25);
    assert("SCHED_FLAG_KEEP_POLICY"@[17] == 'O');
    assert("SCHED_FLAG_KEEP_PARAMS"@[17] == 'A');
    assert("SCHED_FLAG_UTIL_CLAMP_MIN"@[23] == 'I');
    assert("SCHED_FLAG_UTIL_CLAMP_MAX"@[23] == 'A');
}

/// Every flag that is named is in the bits, every bit comes from a flag that is named, and the
/// first name that is not known is the one complained of.
pub proof fn law_sched_flag_bits(names: Seq<Seq<char>>, i: int, bit: u64)
    requires
        0 <= i < names.len(),
    ensures
        match sched_flag_bits(names) {
            Ok(bits) => {
                &&& sched_flag(names[i]) matches Some(f) && bits & f == f
                &&& bits & bit != 0 ==> exists|j: int|
                    0 <= j < names.len() && sched_flag(#[trigger] names[j])->Some_0 & bit != 0
            },
            Err(name) => exists|j: int|
                0 <= j < names.len() && #[trigger] names[j] == name && sched_flag(name) is None
                    && forall|k: int| 0 <= k < j ==> sched_flag(#[trigger] names[k]) is Some,
        },
    decreases names.len(),
{
    let h = names.drop_last();
    assert forall|j: int| 0 <= j < h.len() implies h[j] == names[j] by {}
    if h.len() > 0 {
        law_sched_flag_bits(h, if i < h.len() { i } else { 0 }, bit);
    } else {
        assert(sched_flag_bits(h) == Ok::<u64, Seq<char>>(0u64));
    }
    match sched_flag_bits(h) {
        Ok(bits) => {
            assert forall|j: int| 0 <= j < h.len() implies sched_flag(#[trigger] names[j]) is Some by {
                law_sched_flag_bits(h, j, bit);
                assert(h[j] == names[j]);
            }
            match sched_flag(names.last()) {
                Some(f) => {
                    let all = bits | f;
                    assert(all & f == f) by (bit_vector)
                        requires
                            all == bits | f,
                    ;
                    assert(all & bit != 0 ==> bits & bit != 0 || f & bit != 0) by (bit_vector)
                        requires
                            all == bits | f,
                    ;
                    if i < h.len() {
                        let g = sched_flag(names[i])->Some_0;
                        assert(bits & g == g ==> all & g == g) by (bit_vector)
                            requires
                                all == bits | f,
                        ;
                    }
                    if all & bit != 0 {
                        if h.len() > 0 && bits & bit != 0 {
                            let j = choose|j: int|
                                0 <= j < h.len() && sched_flag(#[trigger] h[j])->Some_0 & bit != 0;
                            assert(sched_flag(names[j])->Some_0 & bit != 0);
                        } else {
                            assert(0u64 & bit == 0) by (bit_vector);
                            assert(sched_flag(names[names.len() - 1])->Some_0 & bit != 0);
                        }
                    }
                },
                None => {
                    assert(names[names.len() - 1] == names.last());
                },
            }
        },
        Err(name) => {
            let j = choose|j: int|
                0 <= j < h.len() && #[trigger] h[j] == name && sched_flag(name) is None && forall|
                    k: int,
                |
                    0 <= k < j ==> sched_flag(#[trigger] h[k]) is Some;
            assert(names[j] == name);
            assert forall|k: int| 0 <= k < j implies sched_flag(#[trigger] names[k]) is Some by {
                assert(h[k] == names[k]);
            }
        },
    }
}

/// What a document says of the process, member by member: a text, a truth value or a number that is
/// there counts, and where it is missing or of another kind the default does.
pub proof fn law_process_read(s: Spec, v: JsonView, bundle: Seq<char>)
    requires
        s.says(v, bundle),
    ensures
        ({
            let p = json::field(v, "process"@)->Some_0;
            let cwd = json::field(p, "cwd"@);
            let terminal = json::field(p, "terminal"@);
            let nnp = json::field(p, "noNewPrivileges"@);
            let profile = json::field(p, "apparmorProfile"@);
            let label = json::field(p, "selinuxLabel"@);
            let caps = json::field(p, "capabilities"@);
            &&& text::texts(s.args@) == json::strings_of(json::field(p, "args"@))
            &&& text::texts(s.env@) == json::strings_of(json::field(p, "env"@))
            &&& cwd matches Some(JsonView::Str(t)) ==> s.cwd@ == t
            &&& !(cwd matches Some(JsonView::Str(_))) ==> s.cwd@ == "/"@
            &&& s.terminal <==> terminal == Some(JsonView::Bool(true))
            &&& s.no_new_privileges <==> nnp == Some(JsonView::Bool(true))
            &&& s.oom_score_adj is Some <==> json::i64_at(json::field(p, "oomScoreAdj"@)) is Some
            &&& json::i64_at(json::field(p, "oomScoreAdj"@)) matches Some(n) ==> (i32::MIN <= n
                <= i32::MAX ==> s.oom_score_adj == Some(n as i32))
            &&& profile matches Some(JsonView::Str(t)) ==> (t.len() > 0 ==> text::opt_text(
                s.apparmor_profile,
            ) == Some(t))
            &&& s.apparmor_profile is Some ==> profile == Some(
                JsonView::Str(s.apparmor_profile->Some_0@),
            )
            &&& label matches Some(JsonView::Str(t)) ==> (t.len() > 0 ==> text::opt_text(
                s.selinux_label,
            ) == Some(t))
            &&& s.selinux_label is Some ==> label == Some(JsonView::Str(s.selinux_label->Some_0@))
            &&& s.rlimits@ == elements(json::field(p, "rlimits"@)).filter(
                |x: JsonView| rlimit_of(x) is Some,
            ).map_values(|x: JsonView| rlimit_of(x)->Some_0)
            &&& s.capabilities is Some == caps is Some
            &&& caps matches Some(c) ==> {
                let l = s.capabilities->Some_0;
                &&& text::texts(l.bounding@) == json::strings_of(json::field(c, "bounding"@))
                &&& text::texts(l.effective@) == json::strings_of(json::field(c, "effective"@))
                &&& text::texts(l.permitted@) == json::strings_of(json::field(c, "permitted"@))
                &&& text::texts(l.inheritable@) == json::strings_of(json::field(c, "inheritable"@))
                &&& text::texts(l.ambient@) == json::strings_of(json::field(c, "ambient"@))
            }
            &&& s.scheduler is Some == json::field(p, "scheduler"@) is Some
        }),
{
    let p = json::field(v, "process"@)->Some_0;
    json::law_string_list(json::field(p, "args"@));
    json::law_string_list(json::field(p, "env"@));
    law_kept(elements(json::field(p, "rlimits"@)), rlimit_rule());
    let a = elements(json::field(p, "rlimits"@));
    assert(a.filter(|x: JsonView| rlimit_of(x) is Some).map_values(
        |x: JsonView| rlimit_of(x)->Some_0,
    ) == a.filter(|x: JsonView| rlimit_rule()(x) is Some).map_values(
        |x: JsonView| rlimit_rule()(x)->Some_0,
    )) by {
        assert((|x: JsonView| rlimit_of(x) is Some) =~= (|x: JsonView| rlimit_rule()(x) is Some));
        assert((|x: JsonView| rlimit_of(x)->Some_0) =~= (|x: JsonView|
            rlimit_rule()(x)->Some_0));
    }
    match json::field(p, "capabilities"@) {
        Some(c) => {
            json::law_string_list(json::field(c, "bounding"@));
            json::law_string_list(json::field(c, "effective"@));
            json::law_string_list(json::field(c, "permitted"@));
            json::law_string_list(json::field(c, "inheritable"@));
            json::law_string_list(json::field(c, "ambient"@));
        },
        None => {},
    }
}

/// What a limit says, member by member: one without its kind or one of its values is no limit.
pub proof fn law_rlimit_read(x: JsonView)
    ensures
        rlimit_of(x) matches Some(r) ==> {
            &&& json::field(x, "soft"@) == Some(JsonView::UInt(r.soft))
            &&& json::field(x, "hard"@) == Some(JsonView::UInt(r.hard))
            &&& json::field(x, "type"@) matches Some(JsonView::Str(t)) && rlimit_kind(t) == Some(
                r.kind,
            )
        },
        rlimit_of(x) is None <==> !(json::field(x, "soft"@) matches Some(JsonView::UInt(_))) || !(
        json::field(x, "hard"@) matches Some(JsonView::UInt(_))) || !(json::field(x, "type"@)
            matches Some(JsonView::Str(t)) && rlimit_kind(t) is Some),
{
}

/// What a mapping says, member by member: the id in the container, the id outside, and how many.
pub proof fn law_mapping_read(x: JsonView)
    ensures
        mapping_of(x) is None <==> !(json::field(x, "containerID"@) matches Some(
            JsonView::UInt(_),
        )) || !(json::field(x, "hostID"@) matches Some(JsonView::UInt(_))) || !(json::field(
            x,
            "size"@,
        ) matches Some(JsonView::UInt(_))),
        mapping_of(x) matches Some(m) ==> {
            &&& json::u64_at(json::field(x, "containerID"@)) matches Some(n) && (n <= u32::MAX
                ==> m.container_id == n)
            &&& json::u64_at(json::field(x, "hostID"@)) matches Some(n) && (n <= u32::MAX
                ==> m.host_id == n)
            &&& json::u64_at(json::field(x, "size"@)) matches Some(n) && (n <= u32::MAX ==> m.size
                == n)
        },
{
}

/// What a mount says, member by member: it needs a destination; its source is empty where it is not
/// said, and its type then is `none`.
pub proof fn law_mount_read(x: JsonView)
    ensures
        mount_of(x) is Some <==> (json::field(x, "destination"@) matches Some(JsonView::Str(t))
            && t.len() > 0),
        mount_of(x) matches Some(m) ==> {
            let source = json::field(x, "source"@);
            let fstype = json::field(x, "type"@);
            &&& json::field(x, "destination"@) == Some(JsonView::Str(m.destination))
            &&& source matches Some(JsonView::Str(t)) ==> m.source == t
            &&& !(source matches Some(JsonView::Str(_))) ==> m.source.len() == 0
            &&& fstype matches Some(JsonView::Str(t)) ==> m.fstype == t
            &&& !(fstype matches Some(JsonView::Str(_))) ==> m.fstype == "none"@
            &&& m.options == json::strings_of(json::field(x, "options"@))
            &&& m.uid_mappings == mappings_of(json::field(x, "uidMappings"@))
            &&& m.gid_mappings == mappings_of(json::field(x, "gidMappings"@))
        },
{
    reveal_strlit("");
    json::law_string_list(json::field(x, "options"@));
    lemma_mappings(json::field(x, "uidMappings"@));
    lemma_mappings(json::field(x, "gidMappings"@));
}

/// The mappings of an array, in their order, without what is none.
pub open spec fn mappings_of(v: Option<JsonView>) -> Seq<IdMapping> {
    match v {
        Some(JsonView::Array(a)) => a.filter(|x: JsonView| mapping_of(x) is Some).map_values(
            |x: JsonView| mapping_of(x)->Some_0,
        ),
        _ => Seq::empty(),
    }
}

/// The list of mappings is the mappings of the array.
proof fn lemma_mappings(v: Option<JsonView>)
    ensures
        mapping_list(v) == mappings_of(v),
{
    let a = elements(v);
    law_kept(a, mapping_rule());
    assert((|x: JsonView| mapping_of(x) is Some) =~= (|x: JsonView| mapping_rule()(x) is Some));
    assert((|x: JsonView| mapping_of(x)->Some_0) =~= (|x: JsonView| mapping_rule()(x)->Some_0));
}

/// The mounts of an array, in their order, without what is none.
pub open spec fn mounts_of(v: Option<JsonView>) -> Seq<MountView> {
    match v {
        Some(JsonView::Array(a)) => a.filter(|x: JsonView| mount_of(x) is Some).map_values(
            |x: JsonView| mount_of(x)->Some_0,
        ),
        _ => Seq::empty(),
    }
}

/// The namespaces of an array, in their order, without what is none.
pub open spec fn namespaces_of(v: Option<JsonView>) -> Seq<NamespaceView> {
    match v {
        Some(JsonView::Array(a)) => a.filter(|x: JsonView| namespace_of(x) is Some).map_values(
            |x: JsonView| namespace_of(x)->Some_0,
        ),
        _ => Seq::empty(),
    }
}

/// What an entry of the namespaces says: its kind, and the path of one to join, where that is a text
/// that is not empty.
pub proof fn law_namespace_read(x: JsonView)
    ensures
        namespace_of(x) is Some <==> (json::field(x, "type"@) matches Some(JsonView::Str(t))
            && namespace_kind(t) is Some),
        namespace_of(x) matches Some(n) ==> {
            &&& json::field(x, "type"@) matches Some(JsonView::Str(t)) && namespace_kind(t)
                == Some(n.kind)
            &&& json::field(x, "path"@) matches Some(JsonView::Str(t)) ==> (t.len() > 0 ==> n.path
                == Some(t))
            &&& n.path matches Some(t) ==> json::field(x, "path"@) == Some(JsonView::Str(t))
                && t.len() > 0
        },
{
}

/// What a document says of the container, member by member: where its root is and whether it can be
/// written, its host's name, its mounts, namespaces, maps of ids, kernel parameters and the paths
/// to hide and to protect.
pub proof fn law_container_read(s: Spec, v: JsonView, bundle: Seq<char>)
    requires
        s.says(v, bundle),
    ensures
        ({
            let root = json::field(v, "root"@);
            let l = json::field(v, "linux"@);
            let host = json::field(v, "hostname"@);
            let spread = json::at(l, "rootfsPropagation"@);
            &&& json::at(root, "path"@) matches Some(JsonView::Str(t)) ==> s.root_path@
                == path::joined(bundle, t)
            &&& s.root_readonly <==> json::at(root, "readonly"@) == Some(JsonView::Bool(true))
            &&& host matches Some(JsonView::Str(t)) ==> s.hostname@ == t
            &&& !(host matches Some(JsonView::Str(_))) ==> s.hostname@ == "rsrun"@
            &&& mount_views(s.mounts@) == mounts_of(json::field(v, "mounts"@))
            &&& namespace_views(s.namespaces@) == namespaces_of(json::at(l, "namespaces"@))
            &&& s.uid_mappings@ == mappings_of(json::at(l, "uidMappings"@))
            &&& s.gid_mappings@ == mappings_of(json::at(l, "gidMappings"@))
            &&& text::texts(s.masked_paths@) == json::strings_of(json::at(l, "maskedPaths"@))
            &&& text::texts(s.readonly_paths@) == json::strings_of(json::at(l, "readonlyPaths"@))
            &&& spread matches Some(JsonView::Str(t)) ==> (t.len() > 0 ==> text::opt_text(
                s.rootfs_propagation,
            ) == Some(t))
            &&& s.rootfs_propagation is Some ==> spread == Some(
                JsonView::Str(s.rootfs_propagation->Some_0@),
            )
            &&& s.raw@ == v
            &&& s.bundle@ == bundle
        }),
{
    let l = json::field(v, "linux"@);
    lemma_mappings(json::at(l, "uidMappings"@));
    lemma_mappings(json::at(l, "gidMappings"@));
    json::law_string_list(json::at(l, "maskedPaths"@));
    json::law_string_list(json::at(l, "readonlyPaths"@));
    law_kept(elements(json::field(v, "mounts"@)), mount_rule());
    assert((|x: JsonView| mount_of(x) is Some) =~= (|x: JsonView| mount_rule()(x) is Some));
    assert((|x: JsonView| mount_of(x)->Some_0) =~= (|x: JsonView| mount_rule()(x)->Some_0));
    law_kept(elements(json::at(l, "namespaces"@)), namespace_rule());
    assert((|x: JsonView| namespace_of(x) is Some) =~= (|x: JsonView| namespace_rule()(x) is Some));
    assert((|x: JsonView| namespace_of(x)->Some_0) =~= (|x: JsonView|
        namespace_rule()(x)->Some_0));
}

/// The kernel parameters are the members that are texts, with their keys, in their order.
pub proof fn law_sysctls_read(s: Spec, v: JsonView, bundle: Seq<char>)
    requires
        s.says(v, bundle),
    ensures
        json::at(json::field(v, "linux"@), "sysctl"@) matches Some(JsonView::Object(m))
            ==> pair_texts(s.sysctls@) == m.filter(
            |x: (Seq<char>, JsonView)| x.1 is Str,
        ).map_values(|x: (Seq<char>, JsonView)| (x.0, x.1->Str_0)),
        !(json::at(json::field(v, "linux"@), "sysctl"@) matches Some(JsonView::Object(_)))
            ==> s.sysctls@.len() == 0,
{
    assert(pair_texts(s.sysctls@).len() == s.sysctls@.len());
    match json::at(json::field(v, "linux"@), "sysctl"@) {
        Some(JsonView::Object(m)) => {
            lemma_text_members(m);
        },
        _ => {},
    }
}

/// The members that are texts are those that pass.
proof fn lemma_text_members(m: Seq<(Seq<char>, JsonView)>)
    ensures
        text_members(m) == m.filter(|x: (Seq<char>, JsonView)| x.1 is Str).map_values(
            |x: (Seq<char>, JsonView)| (x.0, x.1->Str_0),
        ),
    decreases m.len(),
{
    reveal(Seq::filter);
    let pass = |x: (Seq<char>, JsonView)| x.1 is Str;
    let f = |x: (Seq<char>, JsonView)| (x.0, x.1->Str_0);
    if m.len() > 0 {
        lemma_text_members(m.drop_last());
        let h = m.drop_last().filter(pass);
        assert(h.push(m.last()).map_values(f) =~= h.map_values(f).push(f(m.last())));
    }
    assert(text_members(m) =~= m.filter(pass).map_values(f));
}

/// Whom the process runs as: the ids that are said, and zero where they are not.
pub proof fn law_user_read(s: Spec, v: JsonView, bundle: Seq<char>, n: u32)
    requires
        s.says(v, bundle),
    ensures
        ({
            let u = json::field(json::field(v, "process"@)->Some_0, "user"@);
            let uid = json::at(u, "uid"@);
            let gid = json::at(u, "gid"@);
            let umask = json::at(u, "umask"@);
            &&& uid == Some(JsonView::UInt(n as u64)) ==> s.user_uid == n
            &&& !(uid matches Some(JsonView::UInt(_))) ==> s.user_uid == 0
            &&& gid == Some(JsonView::UInt(n as u64)) ==> s.user_gid == n
            &&& !(gid matches Some(JsonView::UInt(_))) ==> s.user_gid == 0
            &&& umask == Some(JsonView::UInt(n as u64)) ==> s.user_umask == Some(n)
            &&& !(umask matches Some(JsonView::UInt(_))) ==> s.user_umask is None
            &&& json::at(u, "additionalGids"@) matches Some(JsonView::Array(a))
                ==> s.user_additional_gids@ == a.filter(|x: JsonView| x is UInt).map_values(
                |x: JsonView| x->UInt_0 as u32,
            )
        }),
{
    let u = json::field(json::field(v, "process"@)->Some_0, "user"@);
    match json::at(u, "additionalGids"@) {
        Some(JsonView::Array(a)) => {
            law_kept(a, u32_rule());
            assert((|x: JsonView| x is UInt) =~= (|x: JsonView| u32_rule()(x) is Some));
            lemma_same_u32s(a);
        },
        _ => {},
    }
}

/// The numbers of an array, as the rule takes them.
proof fn lemma_same_u32s(a: Seq<JsonView>)
    ensures
        a.filter(|x: JsonView| u32_rule()(x) is Some).map_values(
            |x: JsonView| u32_rule()(x)->Some_0,
        ) == a.filter(|x: JsonView| x is UInt).map_values(|x: JsonView| x->UInt_0 as u32),
    decreases a.len(),
{
    reveal(Seq::filter);
    let p = |x: JsonView| u32_rule()(x) is Some;
    let q = |x: JsonView| x is UInt;
    let f = |x: JsonView| u32_rule()(x)->Some_0;
    let g = |x: JsonView| x->UInt_0 as u32;
    if a.len() > 0 {
        lemma_same_u32s(a.drop_last());
        let h = a.drop_last().filter(p);
        let k = a.drop_last().filter(q);
        assert(h.push(a.last()).map_values(f) =~= h.map_values(f).push(f(a.last())));
        assert(k.push(a.last()).map_values(g) =~= k.map_values(g).push(g(a.last())));
    }
    assert(a.filter(p).map_values(f) =~= a.filter(q).map_values(g));
}

/// When a document is refused: it has no process or no arguments, a scheduler that is not known, or
/// no path of a root.
pub proof fn law_documents_refused(v: JsonView)
    ensures
        json::field(v, "process"@) is None ==> spec_fault(v) is Some,
        json::field(v, "process"@) matches Some(p) ==> (json::field(p, "args"@) is None
            ==> spec_fault(v) is Some),
        json::at(json::field(v, "root"@), "path"@) matches Some(JsonView::Str(_))
            || spec_fault(v) is Some,
        (json::field(v, "process"@) matches Some(p) && json::field(p, "args"@) is Some
            && json::field(p, "scheduler"@) is None) && (json::at(json::field(v, "root"@), "path"@)
            matches Some(JsonView::Str(_))) ==> spec_fault(v) is None,
{
}

/// What a scheduler says, member by member: a policy that is known and flags that are; numbers that
/// are not said are zero.
pub proof fn law_scheduler_read(v: JsonView)
    ensures
        scheduler_of(v) matches Ok(s) ==> {
            let nice = json::i64_at(json::field(v, "nice"@));
            let priority = json::u64_at(json::field(v, "priority"@));
            let runtime = json::u64_at(json::field(v, "runtime"@));
            let deadline = json::u64_at(json::field(v, "deadline"@));
            let period = json::u64_at(json::field(v, "period"@));
            &&& json::field(v, "policy"@) matches Some(JsonView::Str(t)) && sched_policy(t)
                == Some(s.policy)
            &&& sched_flag_bits(json::strings_of(json::field(v, "flags"@))) == Ok::<u64, Seq<char>>(
                s.flags,
            )
            &&& nice is None ==> s.nice == 0
            &&& nice matches Some(n) ==> (i32::MIN <= n <= i32::MAX ==> s.nice == n)
            &&& priority is None ==> s.priority == 0
            &&& priority matches Some(n) ==> (n <= u32::MAX ==> s.priority == n)
            &&& runtime is None ==> s.runtime == 0
            &&& runtime matches Some(n) ==> s.runtime == n
            &&& deadline is None ==> s.deadline == 0
            &&& deadline matches Some(n) ==> s.deadline == n
            &&& period is None ==> s.period == 0
            &&& period matches Some(n) ==> s.period == n
        },
        scheduler_of(v) is Ok <==> (json::field(v, "policy"@) matches Some(JsonView::Str(t))
            && sched_policy(t) is Some) && sched_flag_bits(
            json::strings_of(json::field(v, "flags"@)),
        ) is Ok,
{
    json::law_string_list(json::field(v, "flags"@));
}

/// What a document says of the storage behind the root, member by member; without a backend it says
/// nothing.
pub proof fn law_backend_read(s: Spec, v: JsonView, bundle: Seq<char>)
    requires
        s.says(v, bundle),
    ensures
        ({
            let cfg = json::at(json::field(v, "rsrun"@), "rootfs"@);
            &&& s.rootfs_backend is Some <==> (json::at(cfg, "backend"@) matches Some(
                JsonView::Str(_),
            ))
            &&& s.rootfs_backend matches Some(b) ==> {
                &&& json::at(cfg, "backend"@) == Some(JsonView::Str(b.backend@))
                &&& json::at(cfg, "lowerdir"@) matches Some(JsonView::Str(t)) ==> text::opt_text(
                    b.lowerdir,
                ) == Some(t)
                &&& json::at(cfg, "upperdir"@) matches Some(JsonView::Str(t)) ==> text::opt_text(
                    b.upperdir,
                ) == Some(t)
                &&& json::at(cfg, "workdir"@) matches Some(JsonView::Str(t)) ==> text::opt_text(
                    b.workdir,
                ) == Some(t)
                &&& json::at(cfg, "merged"@) matches Some(JsonView::Str(t)) ==> text::opt_text(
                    b.merged,
                ) == Some(t)
                &&& b.lowerdir is Some ==> (json::at(cfg, "lowerdir"@) matches Some(
                    JsonView::Str(_),
                ))
                &&& b.upperdir is Some ==> (json::at(cfg, "upperdir"@) matches Some(
                    JsonView::Str(_),
                ))
                &&& b.workdir is Some ==> (json::at(cfg, "workdir"@) matches Some(JsonView::Str(_)))
                &&& b.merged is Some ==> (json::at(cfg, "merged"@) matches Some(JsonView::Str(_)))
            }
        }),
{
}

} // verus!
