//! What a container changed in its root filesystem, read off the upper layer.

use vstd::prelude::*;
use vstd::string::*;

use crate::error::Error;
use crate::hooks;
use crate::hooks::opt_u64_to_json;
use crate::json;
use crate::json::{named, render_json, Json, JsonView};
use crate::order;
use crate::order::{pair_less, Keyed};
use crate::path;
use crate::path::{join, names_of};
use crate::state;
use crate::state::int_to_json;
use crate::text;
use crate::text::{
    cat2, contains_text, dec_i64, dec_u64, ends_with, in_base_u64, join_texts, owned, starts_with,
    str_eq, trim_front,
};

verus! {

/// What kind of file something is.
#[derive(Debug, Clone, Copy, PartialEq, Eq, Structural)]
pub enum FileKind {
    Directory,
    File,
    Symlink,
    CharDevice,
    BlockDevice,
    Fifo,
    Socket,
    Other,
}

/// What the filesystem says of a file.
#[derive(Debug, Clone, Copy, PartialEq, Eq, Structural)]
pub struct FileMeta {
    pub kind: FileKind,
    pub mode: u32,
    pub uid: u32,
    pub gid: u32,
    pub rdev: u64,
    pub len: u64,
    pub mtime: i64,
    pub mtime_nsec: i64,
    pub ctime: i64,
    pub ctime_nsec: i64,
}

/// A file in a layer, with the attributes that mean something to overlays.
#[derive(Debug)]
pub struct Seen {
    pub meta: FileMeta,
    /// The value of `trusted.overlay.whiteout`.
    pub whiteout: Option<Vec<u8>>,
    /// The value of `trusted.overlay.opaque`.
    pub opaque: Option<Vec<u8>>,
}

/// What a lower layer has at a path: the directories on the way there, from the top down, and the
/// file itself.
#[derive(Debug)]
pub struct LowerLook {
    pub ancestors: Vec<Option<Seen>>,
    pub own: Option<Seen>,
}

/// What the layers have at a path: the upper one, and the lower ones from the top down.
#[derive(Debug)]
pub struct UpperLook {
    /// The path below the root of the layer.
    pub rel: String,
    pub seen: Seen,
    pub lower: Vec<LowerLook>,
}

/// The name of a kind of file.
pub open spec fn kind_name(kind: FileKind) -> Seq<char> {
    match kind {
        FileKind::Directory => "directory"@,
        FileKind::File => "file"@,
        FileKind::Symlink => "symlink"@,
        FileKind::CharDevice => "char_device"@,
        FileKind::BlockDevice => "block_device"@,
        FileKind::Fifo => "fifo"@,
        FileKind::Socket => "socket"@,
        FileKind::Other => "other"@,
    }
}

/// The name of a kind of file.
pub fn file_type_name(kind: FileKind) -> (s: &'static str)
    ensures
        s@ == kind_name(kind),
{
    match kind {
        FileKind::Directory => "directory",
        FileKind::File => "file",
        FileKind::Symlink => "symlink",
        FileKind::CharDevice => "char_device",
        FileKind::BlockDevice => "block_device",
        FileKind::Fifo => "fifo",
        FileKind::Socket => "socket",
        FileKind::Other => "other",
    }
}

/// The major number of a device.
pub open spec fn major_of(dev: u64) -> u32 {
    (((dev & 0x0000_0000_000f_ff00) >> 8) | ((dev & 0xffff_f000_0000_0000) >> 32)) as u32
}

/// The minor number of a device.
pub open spec fn minor_of(dev: u64) -> u32 {
    ((dev & 0x0000_0000_0000_00ff) | ((dev & 0x0000_0fff_fff0_0000) >> 12)) as u32
}

/// `libc::major`: twelve bits from the eighth on, and the twenty highest.
#[verifier::external_body]
fn device_major(dev: u64) -> (n: u32)
    ensures
        n == major_of(dev),
{
    libc::major(dev)
}

/// `libc::minor`: the eight lowest bits, and twenty-four from the twentieth on.
#[verifier::external_body]
fn device_minor(dev: u64) -> (n: u32)
    ensures
        n == minor_of(dev),
{
    libc::minor(dev)
}

/// Whether a file stands for one that was removed: a device with the number zero, or an empty file
/// with the attribute for it.
pub open spec fn whiteout(s: Seen) -> bool {
    ||| s.meta.kind == FileKind::CharDevice && major_of(s.meta.rdev) == 0 && minor_of(s.meta.rdev)
        == 0
    ||| s.meta.kind == FileKind::File && s.meta.len == 0 && s.whiteout is Some
        && s.whiteout->Some_0@.len() > 0
}

/// Whether a file stands for one that was removed.
pub fn is_overlay_whiteout(s: &Seen) -> (r: bool)
    ensures
        r == whiteout(*s),
{
    if s.meta.kind == FileKind::CharDevice && device_major(s.meta.rdev) == 0 && device_minor(
        s.meta.rdev,
    ) == 0 {
        return true;
    }
    s.meta.kind == FileKind::File && s.meta.len == 0 && (match &s.whiteout {
        Some(v) => v.len() > 0,
        None => false,
    })
}

/// Whether a directory hides what is below it in other layers.
pub open spec fn opaque(s: Seen) -> bool {
    s.opaque is Some && (s.opaque->Some_0@ == seq![121u8] || s.opaque->Some_0@ == seq![120u8])
}

/// Whether a directory hides what is below it in other layers: its attribute is `y` or `x`.
pub fn is_overlay_opaque_dir(s: &Seen) -> (r: bool)
    ensures
        r == opaque(*s),
{
    match &s.opaque {
        Some(v) => {
            let r = v.len() == 1 && (v[0] == 121 || v[0] == 120);
            proof {
                if v@.len() == 1 {
                    assert(v@ =~= seq![v@[0]]);
                }
                assert(seq![121u8].len() == 1 && seq![121u8][0] == 121u8);
                assert(seq![120u8].len() == 1 && seq![120u8][0] == 120u8);
            }
            r
        },
        None => false,
    }
}

/// Whether a directory on the way hides what the layers below have.
pub open spec fn hides(l: LowerLook) -> bool {
    exists|i: int|
        0 <= i < l.ancestors@.len() && (#[trigger] l.ancestors@[i]) is Some
            && l.ancestors@[i]->Some_0.meta.kind == FileKind::Directory && opaque(
            l.ancestors@[i]->Some_0,
        )
}

/// Whether a directory on the way hides what the layers below have.
pub fn lower_hides_path(l: &LowerLook) -> (r: bool)
    ensures
        r == hides(*l),
{
    let mut i: usize = 0;
    while i < l.ancestors.len()
        invariant
            i <= l.ancestors@.len(),
            forall|k: int|
                0 <= k < i ==> !((#[trigger] l.ancestors@[k]) is Some
                    && l.ancestors@[k]->Some_0.meta.kind == FileKind::Directory && opaque(
                    l.ancestors@[k]->Some_0,
                )),
        decreases l.ancestors@.len() - i,
    {
        if let Some(s) = &l.ancestors[i] {
            if s.meta.kind == FileKind::Directory && is_overlay_opaque_dir(s) {
                return true;
            }
        }
        i += 1;
    }
    false
}

/// What the lower layers from `i` on have at a path, seen together: the first that has the file
/// decides, unless it was removed or hidden there.
pub open spec fn lower_meta(l: Seq<LowerLook>, i: int) -> Option<FileMeta>
    decreases l.len() - i,
{
    if i < 0 || i >= l.len() || hides(l[i]) {
        None
    } else {
        match l[i].own {
            None => lower_meta(l, i + 1),
            Some(s) => if whiteout(s) {
                None
            } else {
                Some(s.meta)
            },
        }
    }
}

/// What the lower layers have at a path, seen together.
pub fn lower_metadata(l: &Vec<LowerLook>) -> (m: Option<FileMeta>)
    ensures
        m == lower_meta(l@, 0),
{
    let mut i: usize = 0;
    while i < l.len()
        invariant
            i <= l@.len(),
            lower_meta(l@, 0) == lower_meta(l@, i as int),
        decreases l@.len() - i,
    {
        if lower_hides_path(&l[i]) {
            return None;
        }
        if let Some(s) = &l[i].own {
            if is_overlay_whiteout(s) {
                return None;
            }
            return Some(s.meta);
        }
        i += 1;
    }
    None
}

/// What happened to a file.
#[derive(Debug, Clone, Copy, PartialEq, Eq, Structural)]
pub enum DiffKind {
    Added,
    Modified,
    Deleted,
    OpaqueDir,
}

/// The name of what happened.
pub open spec fn diff_text(kind: DiffKind) -> Seq<char> {
    match kind {
        DiffKind::Added => "added"@,
        DiffKind::Modified => "modified"@,
        DiffKind::Deleted => "deleted"@,
        DiffKind::OpaqueDir => "opaque_dir"@,
    }
}

impl DiffKind {
    /// The name of what happened.
    pub fn as_str(&self) -> (s: &'static str)
        ensures
            s@ == diff_text(*self),
    {
        match self {
            DiffKind::Added => "added",
            DiffKind::Modified => "modified",
            DiffKind::Deleted => "deleted",
            DiffKind::OpaqueDir => "opaque_dir",
        }
    }
}

/// A change.
#[derive(Debug)]
pub struct DiffEntry {
    pub path: String,
    pub kind: DiffKind,
    pub file_type: String,
    pub size: Option<u64>,
    pub lower_size: Option<u64>,
    pub size_delta: Option<i64>,
    pub sensitive: bool,
    pub fingerprint: String,
    /// Where the file is in the upper layer, if it is there.
    pub upper_path: Option<String>,
}

/// What a change says.
pub struct DiffView {
    pub path: Seq<char>,
    pub kind: DiffKind,
    pub file_type: Seq<char>,
    pub size: Option<u64>,
    pub lower_size: Option<u64>,
    pub size_delta: Option<i64>,
    pub sensitive: bool,
    pub fingerprint: Seq<char>,
    pub upper_path: Option<Seq<char>>,
}

impl View for DiffEntry {
    type V = DiffView;

    open spec fn view(&self) -> DiffView {
        DiffView {
            path: self.path@,
            kind: self.kind,
            file_type: self.file_type@,
            size: self.size,
            lower_size: self.lower_size,
            size_delta: self.size_delta,
            sensitive: self.sensitive,
            fingerprint: self.fingerprint@,
            upper_path: text::opt_text(self.upper_path),
        }
    }
}

impl Keyed for DiffView {
    open spec fn key(self) -> (Seq<char>, Seq<char>) {
        (self.path, diff_text(self.kind))
    }
}

/// What changes say.
pub open spec fn diff_views(v: Seq<DiffEntry>) -> Seq<DiffView> {
    Seq::new(v.len(), |i: int| v[i]@)
}

/// Whether a path is one where secrets or accounts are kept.
pub open spec fn sensitive(path: Seq<char>) -> bool {
    let p = text::without_front(path, '/');
    ||| p == "etc/passwd"@
    ||| p == "etc/shadow"@
    ||| p == "etc/sudoers"@
    ||| "root/.ssh/"@.is_prefix_of(p)
    ||| text::holds(p, "/.ssh/"@)
    ||| ".pem"@.is_suffix_of(p)
    ||| ".key"@.is_suffix_of(p)
    ||| text::holds(p, "id_rsa"@)
    ||| text::holds(p, "id_ed25519"@)
    ||| text::holds(p, "token"@)
    ||| text::holds(p, "credential"@)
}

/// Whether a path is one where secrets or accounts are kept.
pub fn is_sensitive_path(path: &str) -> (r: bool)
    ensures
        r == sensitive(path@),
{
    let p = trim_front(path, '/');
    str_eq(p, "etc/passwd") || str_eq(p, "etc/shadow") || str_eq(p, "etc/sudoers") || starts_with(
        p,
        "root/.ssh/",
    ) || contains_text(p, "/.ssh/") || ends_with(p, ".pem") || ends_with(p, ".key")
        || contains_text(p, "id_rsa") || contains_text(p, "id_ed25519") || contains_text(p, "token")
        || contains_text(p, "credential")
}

/// The names that are not `..`.
pub open spec fn plain_names(ns: Seq<Seq<char>>) -> Seq<Seq<char>>
    decreases ns.len(),
{
    if ns.len() == 0 {
        Seq::empty()
    } else if ns.last() == ".."@ {
        plain_names(ns.drop_last())
    } else {
        plain_names(ns.drop_last()).push(ns.last())
    }
}

/// A path by its names, with slashes between them.
pub open spec fn slashed(p: Seq<char>) -> Seq<char> {
    text::joined_texts(plain_names(path::names(p)), "/"@)
}

/// A path by its names, with slashes between them.
pub fn slash_path(p: &str) -> (s: String)
    ensures
        s@ == slashed(p@),
{
    let ns = names_of(p);
    let ghost all = text::texts(ns@);
    let mut v: Vec<String> = Vec::new();
    let mut i: usize = 0;
    proof {
        assert(all.subrange(0, 0) =~= Seq::<Seq<char>>::empty());
        assert(text::texts(v@) =~= Seq::<Seq<char>>::empty());
    }
    while i < ns.len()
        invariant
            i <= ns.len(),
            all == text::texts(ns@),
            text::texts(v@) == plain_names(all.subrange(0, i as int)),
        decreases ns.len() - i,
    {
        let ghost was = v@;
        proof {
            let part = all.subrange(0, i + 1);
            assert(part.drop_last() =~= all.subrange(0, i as int));
            assert(part.last() == ns@[i as int]@);
        }
        if !str_eq(ns[i].as_str(), "..") {
            v.push(ns[i].clone());
            proof {
                assert(text::texts(v@) =~= text::texts(was).push(ns@[i as int]@));
            }
        }
        i += 1;
    }
    proof {
        assert(all.subrange(0, all.len() as int) =~= all);
    }
    join_texts(&v, "/")
}

/// What tells one state of a file from another: its type, owner, mode, size and times.
pub open spec fn fingerprint_of(file_type: Seq<char>, m: FileMeta) -> Seq<char> {
    "type="@ + file_type + ":mode="@ + text::in_base(m.mode as nat, 8) + ":uid="@ + text::dec(
        m.uid as nat,
    ) + ":gid="@ + text::dec(m.gid as nat) + ":rdev="@ + text::dec(m.rdev as nat) + ":size="@
        + text::dec(m.len as nat) + ":mtime="@ + text::dec_int(m.mtime as int) + "."@
        + text::dec_int(m.mtime_nsec as int) + ":ctime="@ + text::dec_int(m.ctime as int) + "."@
        + text::dec_int(m.ctime_nsec as int)
}

/// What tells one state of a file from another.
pub fn diff_fingerprint(file_type: &str, m: &FileMeta) -> (s: String)
    ensures
        s@ == fingerprint_of(file_type@, *m),
{
    let mut s = owned("type=");
    s.append(file_type);
    s.append(":mode=");
    let mode = in_base_u64(m.mode as u64, 8);
    s.append(mode.as_str());
    s.append(":uid=");
    let uid = dec_u64(m.uid as u64);
    s.append(uid.as_str());
    s.append(":gid=");
    let gid = dec_u64(m.gid as u64);
    s.append(gid.as_str());
    s.append(":rdev=");
    let rdev = dec_u64(m.rdev);
    s.append(rdev.as_str());
    s.append(":size=");
    let len = dec_u64(m.len);
    s.append(len.as_str());
    s.append(":mtime=");
    let mtime = dec_i64(m.mtime);
    s.append(mtime.as_str());
    s.append(".");
    let mtime_nsec = dec_i64(m.mtime_nsec);
    s.append(mtime_nsec.as_str());
    s.append(":ctime=");
    let ctime = dec_i64(m.ctime);
    s.append(ctime.as_str());
    s.append(".");
    let ctime_nsec = dec_i64(m.ctime_nsec);
    s.append(ctime_nsec.as_str());
    s
}

/// The size of a regular file; nothing else has one.
pub open spec fn size_of(m: FileMeta) -> Option<u64> {
    if m.kind == FileKind::File {
        Some(m.len)
    } else {
        None
    }
}

/// By how much the size changed.
pub open spec fn delta(kind: DiffKind, size: Option<u64>, lower: Option<u64>) -> Option<i64> {
    match (size, lower) {
        (Some(a), Some(b)) => Some((a - b) as i64),
        (Some(a), None) => Some(a as i64),
        (None, Some(b)) => if kind == DiffKind::Deleted {
            Some((-b) as i64)
        } else {
            None
        },
        (None, None) => None,
    }
}

/// A change of the file at `rel`.
pub open spec fn entry_of(
    upperdir: Seq<char>,
    rel: Seq<char>,
    kind: DiffKind,
    file_type: Seq<char>,
    meta: FileMeta,
    lower: Option<FileMeta>,
    in_upper: bool,
) -> DiffView {
    let size = size_of(meta);
    let lower_size = match lower {
        Some(m) => size_of(m),
        None => None,
    };
    DiffView {
        path: slashed(rel),
        kind,
        file_type,
        size,
        lower_size,
        size_delta: delta(kind, size, lower_size),
        sensitive: sensitive(slashed(rel)),
        fingerprint: fingerprint_of(file_type, meta),
        upper_path: if in_upper {
            Some(path::joined(upperdir, rel))
        } else {
            None
        },
    }
}

/// A size a file can have.
pub open spec fn sized(m: FileMeta) -> bool {
    m.len <= i64::MAX
}

/// A change of the file at `rel`.
pub fn diff_entry(
    upperdir: &str,
    rel: &str,
    kind: DiffKind,
    file_type: &str,
    meta: &FileMeta,
    lower: &Option<FileMeta>,
    in_upper: bool,
) -> (e: DiffEntry)
    requires
        sized(*meta),
        *lower matches Some(m) ==> sized(m),
    ensures
        e@ == entry_of(upperdir@, rel@, kind, file_type@, *meta, *lower, in_upper),
{
    let p = slash_path(rel);
    let size: Option<u64> = if meta.kind == FileKind::File {
        Some(meta.len)
    } else {
        None
    };
    let lower_size: Option<u64> = match lower {
        Some(m) => if m.kind == FileKind::File {
            Some(m.len)
        } else {
            None
        },
        None => None,
    };
    let size_delta: Option<i64> = match (size, lower_size) {
        (Some(a), Some(b)) => Some(a as i64 - b as i64),
        (Some(a), None) => Some(a as i64),
        (None, Some(b)) => if kind == DiffKind::Deleted {
            Some(-(b as i64))
        } else {
            None
        },
        (None, None) => None,
    };
    let touchy = is_sensitive_path(p.as_str());
    DiffEntry {
        path: p,
        kind,
        file_type: owned(file_type),
        size,
        lower_size,
        size_delta,
        sensitive: touchy,
        fingerprint: diff_fingerprint(file_type, meta),
        upper_path: if in_upper {
            Some(join(upperdir, rel))
        } else {
            None
        },
    }
}

/// The changes that one file of the upper layer stands for.
pub open spec fn changes_at(upperdir: Seq<char>, u: UpperLook) -> Seq<DiffView> {
    let lower = lower_meta(u.lower@, 0);
    let m = u.seen.meta;
    if whiteout(u.seen) {
        seq![entry_of(upperdir, u.rel@, DiffKind::Deleted, "whiteout"@, m, lower, false)]
    } else {
        let kind = if lower is Some {
            DiffKind::Modified
        } else {
            DiffKind::Added
        };
        let first = seq![entry_of(upperdir, u.rel@, kind, kind_name(m.kind), m, lower, true)];
        if m.kind == FileKind::Directory && opaque(u.seen) {
            first + seq![
                entry_of(upperdir, u.rel@, DiffKind::OpaqueDir, "directory"@, m, lower, true),
            ]
        } else {
            first
        }
    }
}

/// The changes that the files of the upper layer stand for, in the order of the files.
pub open spec fn changes(upperdir: Seq<char>, us: Seq<UpperLook>) -> Seq<DiffView>
    decreases us.len(),
{
    if us.len() == 0 {
        Seq::empty()
    } else {
        changes(upperdir, us.drop_last()) + changes_at(upperdir, us.last())
    }
}

/// Whether all sizes are such as files can have.
pub open spec fn all_sized(us: Seq<UpperLook>) -> bool {
    forall|i: int|
        0 <= i < us.len() ==> sized((#[trigger] us[i]).seen.meta) && (lower_meta(us[i].lower@, 0)
            matches Some(m) ==> sized(m))
}

/// Whether the walk through the upper layer goes on below this file.
pub fn descends(s: &Seen) -> (r: bool)
    ensures
        r == (s.meta.kind == FileKind::Directory && !whiteout(*s)),
{
    !is_overlay_whiteout(s) && s.meta.kind == FileKind::Directory
}

/// Adds the changes that one file stands for.
fn push_changes(v: &mut Vec<DiffEntry>, upperdir: &str, u: &UpperLook)
    requires
        sized(u.seen.meta),
        lower_meta(u.lower@, 0) matches Some(m) ==> sized(m),
    ensures
        diff_views(final(v)@) == diff_views(old(v)@) + changes_at(upperdir@, *u),
{
    let ghost was = v@;
    let lower = lower_metadata(&u.lower);
    let m = u.seen.meta;
    if is_overlay_whiteout(&u.seen) {
        v.push(
            diff_entry(upperdir, u.rel.as_str(), DiffKind::Deleted, "whiteout", &m, &lower, false),
        );
        proof {
            assert(diff_views(v@) =~= diff_views(was) + changes_at(upperdir@, *u));
        }
        return;
    }
    let kind = if lower.is_some() {
        DiffKind::Modified
    } else {
        DiffKind::Added
    };
    v.push(
        diff_entry(upperdir, u.rel.as_str(), kind, file_type_name(m.kind), &m, &lower, true),
    );
    if m.kind == FileKind::Directory && is_overlay_opaque_dir(&u.seen) {
        v.push(
            diff_entry(upperdir, u.rel.as_str(), DiffKind::OpaqueDir, "directory", &m, &lower, true),
        );
    }
    proof {
        assert(diff_views(v@) =~= diff_views(was) + changes_at(upperdir@, *u));
    }
}

/// Adds a change to changes in order.
fn insert_entry(v: &mut Vec<DiffEntry>, e: DiffEntry)
    ensures
        diff_views(final(v)@) == order::placed(diff_views(old(v)@), e@),
{
    let ghost was = diff_views(v@);
    let ghost x = e@;
    let mut k: usize = 0;
    while k < v.len() && !pair_less(
        (e.path.as_str(), e.kind.as_str()),
        (v[k].path.as_str(), v[k].kind.as_str()),
    )
        invariant
            k <= v@.len(),
            was == diff_views(v@),
            x == e@,
            forall|i: int| 0 <= i < k ==> !order::pair_before(x.key(), (#[trigger] was[i]).key()),
        decreases v@.len() - k,
    {
        proof {
            assert(was[k as int].key() == v@[k as int]@.key());
        }
        k += 1;
    }
    proof {
        if k < v@.len() {
            assert(was[k as int].key() == v@[k as int]@.key());
        }
        order::lemma_placed_at(was, x, k as int);
    }
    let ghost at = v@;
    v.insert(k, e);
    proof {
        assert(diff_views(v@) =~= was.take(k as int) + seq![x] + was.skip(k as int));
    }
}

/// The changes that the files of the upper layer stand for, by path and then by what happened.
pub fn scan_overlay_diff(upperdir: &str, us: &Vec<UpperLook>) -> (v: Vec<DiffEntry>)
    requires
        all_sized(us@),
    ensures
        diff_views(v@) == order::arranged(changes(upperdir@, us@)),
{
    let mut found: Vec<DiffEntry> = Vec::new();
    let mut i: usize = 0;
    proof {
        assert(us@.subrange(0, 0) =~= Seq::<UpperLook>::empty());
        assert(diff_views(found@) =~= Seq::<DiffView>::empty());
    }
    while i < us.len()
        invariant
            i <= us.len(),
            all_sized(us@),
            diff_views(found@) == changes(upperdir@, us@.subrange(0, i as int)),
        decreases us.len() - i,
    {
        proof {
            let part = us@.subrange(0, i + 1);
            assert(part.drop_last() =~= us@.subrange(0, i as int));
            assert(part.last() == us@[i as int]);
        }
        push_changes(&mut found, upperdir, &us[i]);
        i += 1;
    }
    proof {
        assert(us@.subrange(0, us@.len() as int) =~= us@);
    }
    let ghost all = diff_views(found@);
    let n = found.len();
    let mut v: Vec<DiffEntry> = Vec::new();
    let mut k: usize = 0;
    proof {
        assert(all.subrange(0, 0) =~= Seq::<DiffView>::empty());
        assert(diff_views(v@) =~= Seq::<DiffView>::empty());
        assert(all.skip(0) =~= all);
    }
    while k < n
        invariant
            k <= n,
            n == all.len(),
            diff_views(found@) == all.skip(k as int),
            diff_views(v@) == order::arranged(all.subrange(0, k as int)),
        decreases n - k,
    {
        let ghost rest = found@;
        proof {
            assert(diff_views(rest).len() == n - k);
            assert(diff_views(rest)[0] == all[k as int]);
            let part = all.subrange(0, k + 1);
            assert(part.drop_last() =~= all.subrange(0, k as int));
            assert(part.last() == all[k as int]);
        }
        let e = found.remove(0);
        proof {
            assert(e@ == all[k as int]);
            assert(diff_views(found@) =~= all.skip(k + 1)) by {
                assert forall|j: int| 0 <= j < found@.len() implies diff_views(found@)[j]
                    == all.skip(k + 1)[j] by {
                    assert(found@[j] == rest[j + 1]);
                    assert(diff_views(rest)[j + 1] == all.skip(k as int)[j + 1]);
                }
            }
        }
        insert_entry(&mut v, e);
        k += 1;
    }
    proof {
        assert(all.subrange(0, all.len() as int) =~= all);
    }
    v
}

/// The changes are listed by path, then by what happened, and are those that the files of the upper
/// layer stand for.
pub proof fn law_changes_in_order(upperdir: Seq<char>, us: Seq<UpperLook>)
    ensures
        order::is_arranged(order::arranged(changes(upperdir, us))),
        order::arranged(changes(upperdir, us)).to_multiset() == changes(upperdir, us).to_multiset(),
{
    order::law_arranged(changes(upperdir, us));
}

/// An upper layer without files is no change.
pub proof fn law_empty_layer_no_change(upperdir: Seq<char>, us: Seq<UpperLook>)
    requires
        us.len() == 0,
    ensures
        order::arranged(changes(upperdir, us)).len() == 0,
{
}

/// A change in the short list.
pub open spec fn changed_json(e: DiffView) -> JsonView {
    JsonView::Object(
        seq![
            ("kind"@, JsonView::Str(diff_text(e.kind))),
            ("path"@, JsonView::Str(e.path)),
            ("sensitive"@, JsonView::Bool(e.sensitive)),
        ],
    )
}

/// A signed number that may be missing, as JSON.
pub open spec fn opt_i64_json(n: Option<i64>) -> JsonView {
    match n {
        Some(n) => state::int_json(n as int),
        None => JsonView::Null,
    }
}

/// A number that may be absent, as a value.
fn opt_i64_to_json(n: Option<i64>) -> (j: Json)
    ensures
        j@ == opt_i64_json(n),
{
    match n {
        Some(n) => int_to_json(n),
        None => Json::Null,
    }
}

/// A change in the long list.
pub open spec fn entry_json(e: DiffView) -> JsonView {
    JsonView::Object(
        seq![
            ("file_type"@, JsonView::Str(e.file_type)),
            ("kind"@, JsonView::Str(diff_text(e.kind))),
            ("lower_size"@, hooks::opt_u64_json(e.lower_size)),
            ("path"@, JsonView::Str(e.path)),
            ("sensitive"@, JsonView::Bool(e.sensitive)),
            ("size"@, hooks::opt_u64_json(e.size)),
            ("size_delta"@, opt_i64_json(e.size_delta)),
        ],
    )
}

/// A list of changes of a container; `long` tells which list.
pub open spec fn list_json(id: Seq<char>, es: Seq<DiffView>, long: bool) -> JsonView {
    JsonView::Object(
        seq![
            ("backend"@, JsonView::Str("overlayfs"@)),
            (
                "files"@,
                JsonView::Array(
                    Seq::new(
                        es.len(),
                        |i: int|
                            if long {
                                entry_json(es[i])
                            } else {
                                changed_json(es[i])
                            },
                    ),
                ),
            ),
            ("id"@, JsonView::Str(id)),
        ],
    )
}

/// The keys of a change are in order.
proof fn lemma_entry_tame(e: DiffView, depth: nat)
    requires
        depth >= 1,
    ensures
        json::tame(entry_json(e), depth),
        json::tame(changed_json(e), depth),
{
    reveal_strlit("file_type");
    reveal_strlit("kind");
    reveal_strlit("lower_size");
    reveal_strlit("path");
    reveal_strlit("sensitive");
    reveal_strlit("size");
    reveal_strlit("size_delta");
    order::lemma_first_difference("file_type"@, "kind"@, 0);
    order::lemma_first_difference("kind"@, "lower_size"@, 0);
    order::lemma_first_difference("lower_size"@, "path"@, 0);
    order::lemma_first_difference("path"@, "sensitive"@, 0);
    order::lemma_first_difference("sensitive"@, "size"@, 1);
    order::lemma_prefix_before("size"@, "size_delta"@);
    let m = entry_json(e)->Object_0;
    let c = changed_json(e)->Object_0;
    order::lemma_first_difference("kind"@, "path"@, 0);
    json::lemma_adjacent_keys(m);
    json::lemma_adjacent_keys(c);
    let d = (depth - 1) as nat;
    assert forall|i: int| 0 <= i < m.len() implies json::tame((#[trigger] m[i]).1, d) by {
    }
    assert forall|i: int| 0 <= i < c.len() implies json::tame((#[trigger] c[i]).1, d) by {
    }
}

/// The keys of a list of changes are in order.
proof fn lemma_list_tame(id: Seq<char>, es: Seq<DiffView>, long: bool)
    ensures
        json::tame(list_json(id, es, long), json::read_depth()),
{
    reveal_strlit("backend");
    reveal_strlit("files");
    reveal_strlit("id");
    order::lemma_first_difference("backend"@, "files"@, 0);
    order::lemma_first_difference("files"@, "id"@, 0);
    let m = list_json(id, es, long)->Object_0;
    json::lemma_adjacent_keys(m);
    let d = (json::read_depth() - 1) as nat;
    let a = m[1].1->Array_0;
    assert forall|i: int| 0 <= i < a.len() implies json::tame(#[trigger] a[i], (d - 1) as nat) by {
        lemma_entry_tame(es[i], (d - 1) as nat);
    }
    assert(json::tame(m[1].1, d));
    assert forall|i: int| 0 <= i < m.len() implies json::tame((#[trigger] m[i]).1, d) by {
    }
}

/// A change as JSON.
fn entry_to_json(e: &DiffEntry, long: bool) -> (j: Json)
    ensures
        j@ == (if long {
            entry_json(e@)
        } else {
            changed_json(e@)
        }),
{
    if long {
        let j = Json::Object(
            vec![
                named("file_type", Json::Str(e.file_type.clone())),
                named("kind", Json::Str(owned(e.kind.as_str()))),
                named("lower_size", opt_u64_to_json(e.lower_size)),
                named("path", Json::Str(e.path.clone())),
                named("sensitive", Json::Bool(e.sensitive)),
                named("size", opt_u64_to_json(e.size)),
                named("size_delta", opt_i64_to_json(e.size_delta)),
            ],
        );
        proof {
            assert(j@->Object_0 =~= entry_json(e@)->Object_0);
        }
        j
    } else {
        let j = Json::Object(
            vec![
                named("kind", Json::Str(owned(e.kind.as_str()))),
                named("path", Json::Str(e.path.clone())),
                named("sensitive", Json::Bool(e.sensitive)),
            ],
        );
        proof {
            assert(j@->Object_0 =~= changed_json(e@)->Object_0);
        }
        j
    }
}

/// A list of changes as JSON.
fn list_to_json(id: &str, es: &Vec<DiffEntry>, long: bool) -> (j: Json)
    ensures
        j@ == list_json(id@, diff_views(es@), long),
{
    let ghost vs = diff_views(es@);
    let mut a: Vec<Json> = Vec::new();
    let mut i: usize = 0;
    while i < es.len()
        invariant
            i <= es.len(),
            vs == diff_views(es@),
            a@.len() == i,
            forall|k: int|
                0 <= k < i ==> (#[trigger] a@[k])@ == (if long {
                    entry_json(vs[k])
                } else {
                    changed_json(vs[k])
                }),
        decreases es.len() - i,
    {
        let one = entry_to_json(&es[i], long);
        proof {
            assert(vs[i as int] == es@[i as int]@);
        }
        a.push(one);
        i += 1;
    }
    let files = Json::Array(a);
    proof {
        assert(files@->Array_0 =~= Seq::new(
            vs.len(),
            |i: int|
                if long {
                    entry_json(vs[i])
                } else {
                    changed_json(vs[i])
                },
        ));
    }
    let j = Json::Object(
        vec![
            named("backend", Json::Str(owned("overlayfs"))),
            named("files", files),
            named("id", Json::Str(owned(id))),
        ],
    );
    proof {
        assert(j@->Object_0 =~= list_json(id@, vs, long)->Object_0);
    }
    j
}

/// The short list of changes, as JSON.
pub fn changed_files_json(id: &str, es: &Vec<DiffEntry>) -> (b: Vec<u8>)
    ensures
        b@ == json::rendered(list_json(id@, diff_views(es@), false)),
        json::reads_as(b@, list_json(id@, diff_views(es@), false)),
{
    let j = list_to_json(id, es, false);
    proof {
        lemma_list_tame(id@, diff_views(es@), false);
    }
    render_json(&j)
}

/// The long list of changes, as JSON.
pub fn diff_json(id: &str, es: &Vec<DiffEntry>) -> (b: Vec<u8>)
    ensures
        b@ == json::rendered(list_json(id@, diff_views(es@), true)),
        json::reads_as(b@, list_json(id@, diff_views(es@), true)),
{
    let j = list_to_json(id, es, true);
    proof {
        lemma_list_tame(id@, diff_views(es@), true);
    }
    render_json(&j)
}

/// A change on a line.
pub open spec fn line_of(e: DiffView, long: bool) -> Seq<char> {
    if long {
        diff_text(e.kind) + "\t"@ + e.file_type + "\t"@ + e.path + "\n"@
    } else {
        diff_text(e.kind) + "\t"@ + e.path + "\n"@
    }
}

/// Changes on lines.
pub open spec fn lines_of(es: Seq<DiffView>, long: bool) -> Seq<char>
    decreases es.len(),
{
    if es.len() == 0 {
        Seq::empty()
    } else {
        lines_of(es.drop_last(), long) + line_of(es.last(), long)
    }
}

/// Changes on lines.
fn list_lines(es: &Vec<DiffEntry>, long: bool) -> (s: String)
    ensures
        s@ == lines_of(diff_views(es@), long),
{
    let ghost vs = diff_views(es@);
    let mut s = String::new();
    let mut i: usize = 0;
    proof {
        assert(vs.subrange(0, 0) =~= Seq::<DiffView>::empty());
    }
    while i < es.len()
        invariant
            i <= es.len(),
            vs == diff_views(es@),
            s@ == lines_of(vs.subrange(0, i as int), long),
        decreases es.len() - i,
    {
        let ghost was = s@;
        s.append(es[i].kind.as_str());
        s.append("\t");
        if long {
            s.append(es[i].file_type.as_str());
            s.append("\t");
        }
        s.append(es[i].path.as_str());
        s.append("\n");
        proof {
            let part = vs.subrange(0, i + 1);
            assert(part.drop_last() =~= vs.subrange(0, i as int));
            assert(part.last() == es@[i as int]@);
            assert(s@ =~= was + line_of(es@[i as int]@, long));
        }
        i += 1;
    }
    proof {
        assert(vs.subrange(0, vs.len() as int) =~= vs);
    }
    s
}

/// What is printed as the short list of changes without JSON.
pub fn cmd_changed_files(es: &Vec<DiffEntry>) -> (s: String)
    ensures
        s@ == lines_of(diff_views(es@), false),
{
    list_lines(es, false)
}

/// What is printed as the long list of changes without JSON.
pub fn cmd_diff(es: &Vec<DiffEntry>) -> (s: String)
    ensures
        s@ == lines_of(diff_views(es@), true),
{
    list_lines(es, true)
}

/// The forms in which changes are exported.
#[derive(Debug, Clone, Copy, PartialEq, Eq, Structural)]
pub enum ExportFormat {
    Json,
    Tar,
}

/// The form of an export, or why there is none of it.
pub open spec fn export_format(format: Seq<char>) -> Result<ExportFormat, Seq<char>> {
    if format == "json"@ {
        Ok(ExportFormat::Json)
    } else if format == "tar"@ {
        Ok(ExportFormat::Tar)
    } else if format == "patch"@ {
        Err("export-diff --format patch is not implemented; use tar or json"@)
    } else {
        Err("unsupported export-diff format "@ + format + "; expected tar, json, or patch"@)
    }
}

/// The form of an export.
pub fn cmd_export_diff(format: &str) -> (r: Result<ExportFormat, Error>)
    ensures
        match r {
            Ok(f) => export_format(format@) == Ok::<ExportFormat, Seq<char>>(f),
            Err(e) => export_format(format@) == Err::<ExportFormat, Seq<char>>(e@),
        },
{
    if str_eq(format, "json") {
        return Ok(ExportFormat::Json);
    }
    if str_eq(format, "tar") {
        return Ok(ExportFormat::Tar);
    }
    if str_eq(format, "patch") {
        return Err(
            Error::new(owned("export-diff --format patch is not implemented; use tar or json")),
        );
    }
    let head = cat2("unsupported export-diff format ", format);
    Err(Error::new(cat2(head.as_str(), "; expected tar, json, or patch")))
}

/// What a change of a list says, read back: what happened, where, whether it is sensitive, and in the
/// long list also the file's type and the sizes: `size` is the size above, `lower_size` the one
/// below, and each is null exactly where there is none. The list names its container, and its changes
/// stand in their order.
pub proof fn law_list_read_back(id: Seq<char>, es: Seq<DiffView>, long: bool, i: int)
    requires
        0 <= i < es.len(),
    ensures
        ({
            let d = list_json(id, es, long);
            let files = json::field(d, "files"@);
            let e = files->Some_0->Array_0[i];
            &&& json::field(d, "backend"@) == Some(JsonView::Str("overlayfs"@))
            &&& json::field(d, "id"@) == Some(JsonView::Str(id))
            &&& files matches Some(JsonView::Array(a)) && a.len() == es.len()
            &&& json::field(e, "path"@) == Some(JsonView::Str(es[i].path))
            &&& json::field(e, "sensitive"@) == Some(JsonView::Bool(es[i].sensitive))
            &&& es[i].kind == DiffKind::Added ==> json::field(e, "kind"@) == Some(
                JsonView::Str("added"@),
            )
            &&& es[i].kind == DiffKind::Modified ==> json::field(e, "kind"@) == Some(
                JsonView::Str("modified"@),
            )
            &&& es[i].kind == DiffKind::Deleted ==> json::field(e, "kind"@) == Some(
                JsonView::Str("deleted"@),
            )
            &&& es[i].kind == DiffKind::OpaqueDir ==> json::field(e, "kind"@) == Some(
                JsonView::Str("opaque_dir"@),
            )
            &&& long ==> {
                &&& json::field(e, "file_type"@) == Some(JsonView::Str(es[i].file_type))
                &&& json::u64_at(json::field(e, "size"@)) == es[i].size
                &&& es[i].size is None <==> json::field(e, "size"@) == Some(JsonView::Null)
                &&& json::u64_at(json::field(e, "lower_size"@)) == es[i].lower_size
                &&& es[i].lower_size is None <==> json::field(e, "lower_size"@) == Some(
                    JsonView::Null,
                )
                &&& json::i64_at(json::field(e, "size_delta"@)) == es[i].size_delta
                &&& es[i].size_delta is None <==> json::field(e, "size_delta"@) == Some(
                    JsonView::Null,
                )
            }
        }),
{
    lemma_list_tame(id, es, long);
    let m = list_json(id, es, long)->Object_0;
    json::lemma_members_at(m);
    assert(m[0].0 == "backend"@);
    assert(m[1].0 == "files"@);
    assert(m[2].0 == "id"@);
    lemma_entry_tame(es[i], 1);
    let a = m[1].1->Array_0;
    assert(a.len() == es.len());
    if long {
        assert(a[i] == entry_json(es[i]));
        let n = entry_json(es[i])->Object_0;
        json::lemma_members_at(n);
        assert(n[0].0 == "file_type"@);
        assert(n[1].0 == "kind"@);
        assert(n[2].0 == "lower_size"@);
        assert(n[3].0 == "path"@);
        assert(n[4].0 == "sensitive"@);
        assert(n[5].0 == "size"@);
        assert(n[6].0 == "size_delta"@);
    } else {
        assert(a[i] == changed_json(es[i]));
        let n = changed_json(es[i])->Object_0;
        json::lemma_members_at(n);
        assert(n[0].0 == "kind"@);
        assert(n[1].0 == "path"@);
        assert(n[2].0 == "sensitive"@);
    }
}

/// What one file of the upper layer is listed as. One that stands for a removed file is a deletion; of
/// the others, one that the lower layers have as well is modified and one that they have not is
/// added, and an opaque directory is listed as such besides. The size is the length of the file in the
/// upper layer, the lower size that of the file below, where it is a regular file; the change of
/// size is their difference where both are there, the size of a file that is new, and the size
/// lost with a deleted one.
pub proof fn law_listed_sizes(upperdir: Seq<char>, u: UpperLook, i: int)
    requires
        sized(u.seen.meta),
        lower_meta(u.lower@, 0) matches Some(m) ==> sized(m),
        0 <= i < changes_at(upperdir, u).len(),
    ensures
        ({
            let e = changes_at(upperdir, u)[i];
            let upper = u.seen.meta;
            let lower = lower_meta(u.lower@, 0);
            &&& changes_at(upperdir, u).len() == (if !whiteout(u.seen) && upper.kind
                == FileKind::Directory && opaque(u.seen) {
                2int
            } else {
                1int
            })
            &&& i == 1 ==> e.kind == DiffKind::OpaqueDir && e.file_type == "directory"@
            &&& i == 0 && whiteout(u.seen) ==> e.kind == DiffKind::Deleted && e.file_type
                == "whiteout"@ && e.upper_path is None
            &&& i == 0 && !whiteout(u.seen) ==> e.kind == (if lower is Some {
                DiffKind::Modified
            } else {
                DiffKind::Added
            })
            &&& !whiteout(u.seen) ==> e.upper_path == Some(path::joined(upperdir, u.rel@))
            &&& i == 0 && !whiteout(u.seen) ==> {
                &&& upper.kind == FileKind::Directory <==> e.file_type == "directory"@
                &&& upper.kind == FileKind::File <==> e.file_type == "file"@
                &&& upper.kind == FileKind::Symlink <==> e.file_type == "symlink"@
                &&& upper.kind == FileKind::CharDevice <==> e.file_type == "char_device"@
                &&& upper.kind == FileKind::BlockDevice <==> e.file_type == "block_device"@
                &&& upper.kind == FileKind::Fifo <==> e.file_type == "fifo"@
                &&& upper.kind == FileKind::Socket <==> e.file_type == "socket"@
                &&& upper.kind == FileKind::Other <==> e.file_type == "other"@
            }
            &&& e.sensitive == sensitive(e.path)
            &&& e.path == slashed(u.rel@)
            &&& e.fingerprint == fingerprint_of(e.file_type, upper)
            &&& upper.kind == FileKind::File ==> e.size == Some(upper.len)
            &&& upper.kind != FileKind::File ==> e.size is None
            &&& lower is Some && lower->Some_0.kind == FileKind::File ==> e.lower_size == Some(
                lower->Some_0.len,
            )
            &&& (lower is None || lower->Some_0.kind != FileKind::File) ==> e.lower_size is None
            &&& e.size is Some && e.lower_size is Some ==> e.size_delta is Some
                && e.size_delta->Some_0 == e.size->Some_0 - e.lower_size->Some_0
            &&& e.size is Some && e.lower_size is None ==> e.size_delta is Some
                && e.size_delta->Some_0 == e.size->Some_0
            &&& e.size is None && e.lower_size is Some && e.kind == DiffKind::Deleted
                ==> e.size_delta is Some && e.size_delta->Some_0 == -e.lower_size->Some_0
            &&& e.size is None && (e.lower_size is None || e.kind != DiffKind::Deleted)
                ==> e.size_delta is None
        }),
{
    reveal_strlit("directory");
    reveal_strlit("file");
    reveal_strlit("symlink");
    reveal_strlit("char_device");
    reveal_strlit("block_device");
    reveal_strlit("fifo");
    reveal_strlit("socket");
    reveal_strlit("other");
    assert("directory"@.len() == 9 && "file"@.len() == 4 && "symlink"@.len() == 7);
    assert("char_device"@.len() == 11 && "block_device"@.len() == 12 && "fifo"@.len() == 4);
    assert("socket"@.len() == 6 && "other"@.len() == 5);
    assert("file"@[2] == 'l' && "fifo"@[2] == 'f');
}

/// The changes of some files are those of each of them.
#[verifier::rlimit(40)]
proof fn lemma_changes_each(upperdir: Seq<char>, us: Seq<UpperLook>, e: DiffView)
    ensures
        changes(upperdir, us).contains(e) <==> exists|i: int|
            0 <= i < us.len() && changes_at(upperdir, #[trigger] us[i]).contains(e),
    decreases us.len(),
{
    let all = changes(upperdir, us);
    if us.len() > 0 {
        let h = us.drop_last();
        let before = changes(upperdir, h);
        let own = changes_at(upperdir, us.last());
        lemma_changes_each(upperdir, h, e);
        if all.contains(e) {
            let k = choose|k: int| 0 <= k < all.len() && all[k] == e;
            if k < before.len() {
                assert(before[k] == e);
                let i = choose|i: int|
                    0 <= i < h.len() && changes_at(upperdir, #[trigger] h[i]).contains(e);
                assert(us[i] == h[i]);
            } else {
                assert(own[k - before.len()] == e);
                assert(us[us.len() - 1] == us.last());
            }
        }
        if exists|i: int| 0 <= i < us.len() && changes_at(upperdir, #[trigger] us[i]).contains(e) {
            let i = choose|i: int|
                0 <= i < us.len() && changes_at(upperdir, #[trigger] us[i]).contains(e);
            if i < h.len() {
                assert(h[i] == us[i]);
                let k = choose|k: int| 0 <= k < before.len() && before[k] == e;
                assert(all[k] == e);
            } else {
                let k = choose|k: int| 0 <= k < own.len() && own[k] == e;
                assert(all[before.len() + k] == e);
            }
        }
    }
}

/// A change is listed exactly where some file of the upper layer stands for it: no file is passed
/// over and nothing else is listed.
pub proof fn law_every_change_listed(upperdir: Seq<char>, us: Seq<UpperLook>, e: DiffView)
    ensures
        order::arranged(changes(upperdir, us)).contains(e) <==> exists|i: int|
            0 <= i < us.len() && changes_at(upperdir, #[trigger] us[i]).contains(e),
{
    broadcast use vstd::seq_lib::group_to_multiset_ensures;

    let all = changes(upperdir, us);
    lemma_changes_each(upperdir, us, e);
    order::law_arranged(all);
    assert(order::arranged(all).contains(e) <==> order::arranged(all).to_multiset().count(e) > 0);
    assert(all.contains(e) <==> all.to_multiset().count(e) > 0);
}

/// What lies below, by the lower layers from the top down: the first that has the file decides, and
/// where it stands for a removed file, or a directory on the way hides what is below, there is none.
pub proof fn law_first_lower_decides(l: Seq<LowerLook>, k: int)
    requires
        0 <= k <= l.len(),
        forall|i: int| 0 <= i < k ==> !hides(#[trigger] l[i]) && l[i].own is None,
    ensures
        k == l.len() ==> lower_meta(l, 0) is None,
        k < l.len() && hides(l[k]) ==> lower_meta(l, 0) is None,
        k < l.len() && !hides(l[k]) && l[k].own is Some && whiteout(l[k].own->Some_0)
            ==> lower_meta(l, 0) is None,
        k < l.len() && !hides(l[k]) && l[k].own is Some && !whiteout(l[k].own->Some_0)
            ==> lower_meta(l, 0) == Some(l[k].own->Some_0.meta),
{
    lemma_lower_skips(l, 0, k);
}

/// Layers that neither have the file nor hide it are passed over.
proof fn lemma_lower_skips(l: Seq<LowerLook>, i: int, k: int)
    requires
        0 <= i <= k <= l.len(),
        forall|j: int| 0 <= j < k ==> !hides(#[trigger] l[j]) && l[j].own is None,
    ensures
        lower_meta(l, i) == lower_meta(l, k),
    decreases k - i,
{
    if i < k {
        lemma_lower_skips(l, i + 1, k);
    }
}

/// A device stands for a removed file exactly where its number is zero; a regular file, where it is
/// empty and has the attribute; nothing else does.
pub proof fn law_whiteouts(s: Seen)
    ensures
        s.meta.kind == FileKind::CharDevice ==> (whiteout(s) <==> s.meta.rdev == 0),
        s.meta.kind == FileKind::File ==> (whiteout(s) <==> s.meta.len == 0 && s.whiteout is Some
            && s.whiteout->Some_0@.len() > 0),
        s.meta.kind != FileKind::CharDevice && s.meta.kind != FileKind::File ==> !whiteout(s),
{
    let dev = s.meta.rdev;
    let a = ((dev & 0x0000_0000_000f_ff00) >> 8) | ((dev & 0xffff_f000_0000_0000) >> 32);
    let b = (dev & 0x0000_0000_0000_00ff) | ((dev & 0x0000_0fff_fff0_0000) >> 12);
    assert((a as u32 == 0 && b as u32 == 0) <==> dev == 0) by (bit_vector)
        requires
            a == ((dev & 0x0000_0000_000f_ff00) >> 8) | ((dev & 0xffff_f000_0000_0000) >> 32),
            b == (dev & 0x0000_0000_0000_00ff) | ((dev & 0x0000_0fff_fff0_0000) >> 12),
    ;
}

/// A directory hides what is below it exactly where its attribute is the one byte `y` or `x`.
pub proof fn law_opaque_marks(s: Seen)
    ensures
        opaque(s) <==> s.opaque is Some && s.opaque->Some_0@.len() == 1 && (s.opaque->Some_0@[0]
            == 0x79 || s.opaque->Some_0@[0] == 0x78),
{
    if s.opaque is Some && s.opaque->Some_0@.len() == 1 {
        assert(s.opaque->Some_0@ =~= seq![s.opaque->Some_0@[0]]);
    }
    assert(seq![121u8].len() == 1 && seq![121u8][0] == 121u8);
    assert(seq![120u8].len() == 1 && seq![120u8][0] == 120u8);
}

/// There is an export as JSON and one as an archive, by these names alone.
pub proof fn law_export_formats(format: Seq<char>)
    ensures
        export_format(format) == Ok::<ExportFormat, Seq<char>>(ExportFormat::Json) <==> format
            == "json"@,
        export_format(format) == Ok::<ExportFormat, Seq<char>>(ExportFormat::Tar) <==> format
            == "tar"@,
        export_format(format) is Err <==> format != "json"@ && format != "tar"@,
{
    reveal_strlit("json");
    reveal_strlit("tar");
    assert("json"@.len() == 4 && "tar"@.len() == 3);
}

/// What a change's line is without its end.
pub open spec fn words_of(e: DiffView, long: bool) -> Seq<Seq<char>> {
    if long {
        seq![diff_text(e.kind), e.file_type, e.path]
    } else {
        seq![diff_text(e.kind), e.path]
    }
}

/// The lists without JSON have one line for each change, in the same order: what happened, in the
/// long list the file's type, and the path, with tabs between them.
pub proof fn law_lines_read_back(es: Seq<DiffView>, long: bool)
    requires
        forall|i: int|
            0 <= i < es.len() ==> !text::has_char((#[trigger] es[i]).path, '\n')
                && !text::has_char(es[i].file_type, '\n'),
    ensures
        ({
            let lines = text::pieces(lines_of(es, long), '\n');
            &&& lines.len() == es.len() + 1
            &&& lines.last() == Seq::<char>::empty()
            &&& forall|i: int|
                0 <= i < es.len() ==> #[trigger] lines[i] == text::joined_texts(
                    words_of(es[i], long),
                    "\t"@,
                )
        }),
    decreases es.len(),
{
    let lines = text::pieces(lines_of(es, long), '\n');
    if es.len() > 0 {
        let h = es.drop_last();
        let e = es.last();
        assert forall|i: int| 0 <= i < h.len() implies !text::has_char((#[trigger] h[i]).path, '\n')
            && !text::has_char(h[i].file_type, '\n') by {
            assert(h[i] == es[i]);
        }
        law_lines_read_back(h, long);
        assert(es[es.len() - 1] == e);
        let before = lines_of(h, long);
        let line = text::joined_texts(words_of(e, long), "\t"@);
        reveal_strlit("added");
        reveal_strlit("modified");
        reveal_strlit("deleted");
        reveal_strlit("opaque_dir");
        reveal_strlit("\t");
        let w = words_of(e, long);
        assert(!text::has_char(diff_text(e.kind), '\n'));
        if long {
            let one = seq![w[0]];
            let two = seq![w[0], w[1]];
            assert(two.drop_last() =~= one);
            assert(w.drop_last() =~= two);
            assert(text::joined_texts(one, "\t"@) == w[0]);
            assert(text::joined_texts(two, "\t"@) == w[0] + "\t"@ + w[1]);
            assert(line == w[0] + "\t"@ + w[1] + "\t"@ + w[2]);
        } else {
            assert(w.drop_last() =~= seq![w[0]]);
            assert(text::joined_texts(seq![w[0]], "\t"@) == w[0]);
            assert(line == w[0] + "\t"@ + w[1]);
        }
        assert(!text::has_char(line, '\n'));
        assert(lines_of(es, long) =~= before + line + "\n"@);
        text::lemma_line_split(before, line);
        let p = text::pieces(before, '\n');
        assert(p.last() + line =~= line);
        assert(lines == p.update(p.len() - 1, line).push(Seq::empty()));
        assert forall|i: int| 0 <= i < es.len() implies #[trigger] lines[i] == text::joined_texts(
            words_of(es[i], long),
            "\t"@,
        ) by {
            if i < h.len() {
                assert(h[i] == es[i]);
                assert(lines[i] == p[i]);
            }
        }
    }
}

/// The names of a path that are kept in a change are those of the path but for `..`, in their order.
pub proof fn law_change_paths(p: Seq<char>)
    ensures
        plain_names(path::names(p)) == path::names(p).filter(|n: Seq<char>| n != ".."@),
        plain_names(path::names(p)).len() > 0 ==> text::pieces(slashed(p), '/') == path::names(
            p,
        ).filter(|n: Seq<char>| n != ".."@),
{
    let ns = path::names(p);
    lemma_plain_filtered(ns);
    text::lemma_pieces_lack(p, '/');
    lemma_names_lack(text::pieces(p, '/'));
    lemma_plain_lack(ns);
    if plain_names(ns).len() > 0 {
        reveal_strlit("/");
        assert("/"@ =~= seq!['/']);
        text::law_split_undoes_join(plain_names(ns), '/', "/"@);
    }
}

proof fn lemma_plain_filtered(ns: Seq<Seq<char>>)
    ensures
        plain_names(ns) == ns.filter(|n: Seq<char>| n != ".."@),
    decreases ns.len(),
{
    reveal(Seq::filter);
    if ns.len() > 0 {
        lemma_plain_filtered(ns.drop_last());
    }
}

proof fn lemma_names_lack(ps: Seq<Seq<char>>)
    requires
        forall|i: int| 0 <= i < ps.len() ==> !text::has_char(#[trigger] ps[i], '/'),
    ensures
        forall|i: int|
            0 <= i < path::names_among(ps).len() ==> !text::has_char(
                #[trigger] path::names_among(ps)[i],
                '/',
            ),
    decreases ps.len(),
{
    if ps.len() > 0 {
        let h = ps.drop_last();
        assert forall|i: int| 0 <= i < h.len() implies !text::has_char(#[trigger] h[i], '/') by {
            assert(h[i] == ps[i]);
        }
        lemma_names_lack(h);
        assert(ps.last() == ps[ps.len() - 1]);
        let all = path::names_among(ps);
        let head = path::names_among(h);
        assert forall|i: int| 0 <= i < all.len() implies !text::has_char(#[trigger] all[i], '/') by {
            if i < head.len() {
                assert(all[i] == head[i]);
            }
        }
    }
}

proof fn lemma_plain_lack(ns: Seq<Seq<char>>)
    requires
        forall|i: int| 0 <= i < ns.len() ==> !text::has_char(#[trigger] ns[i], '/'),
    ensures
        forall|i: int|
            0 <= i < plain_names(ns).len() ==> !text::has_char(#[trigger] plain_names(ns)[i], '/'),
    decreases ns.len(),
{
    if ns.len() > 0 {
        let h = ns.drop_last();
        assert forall|i: int| 0 <= i < h.len() implies !text::has_char(#[trigger] h[i], '/') by {
            assert(h[i] == ns[i]);
        }
        lemma_plain_lack(h);
        assert(ns.last() == ns[ns.len() - 1]);
        let all = plain_names(ns);
        let head = plain_names(h);
        assert forall|i: int| 0 <= i < all.len() implies !text::has_char(#[trigger] all[i], '/') by {
            if i < head.len() {
                assert(all[i] == head[i]);
            }
        }
    }
}

/// What tells one state of a file from another holds, between colons: its type, its mode in octal, its
/// owners, its device number, its size, and when it was written and changed, each behind its name.
pub proof fn law_fingerprint_parts(file_type: Seq<char>, m: FileMeta)
    requires
        !text::has_char(file_type, ':'),
    ensures
        text::pieces(fingerprint_of(file_type, m), ':') == seq![
            "type="@ + file_type,
            "mode="@ + text::in_base(m.mode as nat, 8),
            "uid="@ + text::dec(m.uid as nat),
            "gid="@ + text::dec(m.gid as nat),
            "rdev="@ + text::dec(m.rdev as nat),
            "size="@ + text::dec(m.len as nat),
            "mtime="@ + text::dec_int(m.mtime as int) + "."@ + text::dec_int(m.mtime_nsec as int),
            "ctime="@ + text::dec_int(m.ctime as int) + "."@ + text::dec_int(m.ctime_nsec as int),
        ],
{
    let sep = seq![':'];
    let a = "type="@ + file_type;
    let b = "mode="@ + text::in_base(m.mode as nat, 8);
    let c = "uid="@ + text::dec(m.uid as nat);
    let d = "gid="@ + text::dec(m.gid as nat);
    let e = "rdev="@ + text::dec(m.rdev as nat);
    let f = "size="@ + text::dec(m.len as nat);
    let g = "mtime="@ + text::dec_int(m.mtime as int) + "."@ + text::dec_int(m.mtime_nsec as int);
    let h = "ctime="@ + text::dec_int(m.ctime as int) + "."@ + text::dec_int(m.ctime_nsec as int);
    let p1 = seq![a];
    assert(text::joined_texts(p1, sep) == a);
    assert(!text::has_char(a, ':')) by {
        reveal_strlit("type=");
        text::lemma_sum_lacks("type="@, file_type, ':');
    }
    lemma_one_lacks(a);
    let p2 = p1.push(b);
    assert(":mode="@ == sep + "mode="@) by {
        reveal_strlit(":mode=");
        reveal_strlit("mode=");
    }
    assert(!text::has_char(b, ':')) by {
        reveal_strlit("mode=");
        text::lemma_in_base_lacks(m.mode as nat, 8, ':');
        text::lemma_sum_lacks("mode="@, text::in_base(m.mode as nat, 8), ':');
    }
    lemma_part(p1, a, ":mode="@, "mode="@, text::in_base(m.mode as nat, 8));
    let s2 = a + ":mode="@ + text::in_base(m.mode as nat, 8);
    let p3 = p2.push(c);
    assert(":uid="@ == sep + "uid="@) by {
        reveal_strlit(":uid=");
        reveal_strlit("uid=");
    }
    assert(!text::has_char(c, ':')) by {
        reveal_strlit("uid=");
        text::lemma_in_base_lacks(m.uid as nat, 10, ':');
        text::lemma_sum_lacks("uid="@, text::dec(m.uid as nat), ':');
    }
    lemma_part(p2, s2, ":uid="@, "uid="@, text::dec(m.uid as nat));
    let s3 = s2 + ":uid="@ + text::dec(m.uid as nat);
    let p4 = p3.push(d);
    assert(":gid="@ == sep + "gid="@) by {
        reveal_strlit(":gid=");
        reveal_strlit("gid=");
    }
    assert(!text::has_char(d, ':')) by {
        reveal_strlit("gid=");
        text::lemma_in_base_lacks(m.gid as nat, 10, ':');
        text::lemma_sum_lacks("gid="@, text::dec(m.gid as nat), ':');
    }
    lemma_part(p3, s3, ":gid="@, "gid="@, text::dec(m.gid as nat));
    let s4 = s3 + ":gid="@ + text::dec(m.gid as nat);
    let p5 = p4.push(e);
    assert(":rdev="@ == sep + "rdev="@) by {
        reveal_strlit(":rdev=");
        reveal_strlit("rdev=");
    }
    assert(!text::has_char(e, ':')) by {
        reveal_strlit("rdev=");
        text::lemma_in_base_lacks(m.rdev as nat, 10, ':');
        text::lemma_sum_lacks("rdev="@, text::dec(m.rdev as nat), ':');
    }
    lemma_part(p4, s4, ":rdev="@, "rdev="@, text::dec(m.rdev as nat));
    let s5 = s4 + ":rdev="@ + text::dec(m.rdev as nat);
    let p6 = p5.push(f);
    assert(":size="@ == sep + "size="@) by {
        reveal_strlit(":size=");
        reveal_strlit("size=");
    }
    assert(!text::has_char(f, ':')) by {
        reveal_strlit("size=");
        text::lemma_in_base_lacks(m.len as nat, 10, ':');
        text::lemma_sum_lacks("size="@, text::dec(m.len as nat), ':');
    }
    lemma_part(p5, s5, ":size="@, "size="@, text::dec(m.len as nat));
    let s6 = s5 + ":size="@ + text::dec(m.len as nat);
    let p7 = p6.push(g);
    assert(":mtime="@ == sep + "mtime="@) by {
        reveal_strlit(":mtime=");
        reveal_strlit("mtime=");
    }
    assert(!text::has_char("mtime="@, ':')) by {
        reveal_strlit("mtime=");
    }
    lemma_time_part(
        p6,
        s6,
        ":mtime="@,
        "mtime="@,
        m.mtime as int,
        m.mtime_nsec as int,
    );
    let s7 = s6 + ":mtime="@ + text::dec_int(m.mtime as int) + "."@ + text::dec_int(
        m.mtime_nsec as int,
    );
    let p8 = p7.push(h);
    assert(":ctime="@ == sep + "ctime="@) by {
        reveal_strlit(":ctime=");
        reveal_strlit("ctime=");
    }
    assert(!text::has_char("ctime="@, ':')) by {
        reveal_strlit("ctime=");
    }
    lemma_time_part(
        p7,
        s7,
        ":ctime="@,
        "ctime="@,
        m.ctime as int,
        m.ctime_nsec as int,
    );
    let s8 = s7 + ":ctime="@ + text::dec_int(m.ctime as int) + "."@ + text::dec_int(
        m.ctime_nsec as int,
    );
    assert(fingerprint_of(file_type, m) == s8);
    text::law_split_undoes_join(p8, ':', sep);
    assert(p8 =~= seq![a, b, c, d, e, f, g, h]);
}

/// Whether no part holds a colon.
spec fn parts_lack(ps: Seq<Seq<char>>) -> bool {
    forall|i: int| 0 <= i < ps.len() ==> !text::has_char(#[trigger] ps[i], ':')
}

proof fn lemma_one_lacks(a: Seq<char>)
    requires
        !text::has_char(a, ':'),
    ensures
        parts_lack(seq![a]),
{
}

/// One more part behind a colon.
proof fn lemma_part(ps: Seq<Seq<char>>, s: Seq<char>, w: Seq<char>, k: Seq<char>, v: Seq<char>)
    requires
        ps.len() > 0,
        text::joined_texts(ps, seq![':']) == s,
        parts_lack(ps),
        !text::has_char(k + v, ':'),
        w == seq![':'] + k,
    ensures
        text::joined_texts(ps.push(k + v), seq![':']) == s + w + v,
        parts_lack(ps.push(k + v)),
{
    let n = ps.push(k + v);
    assert(n.drop_last() =~= ps);
    assert(s + seq![':'] + (k + v) =~= s + w + v);
}

/// One more part behind a colon, a time with its fraction.
proof fn lemma_time_part(
    ps: Seq<Seq<char>>,
    s: Seq<char>,
    w: Seq<char>,
    k: Seq<char>,
    secs: int,
    nsec: int,
)
    requires
        ps.len() > 0,
        text::joined_texts(ps, seq![':']) == s,
        parts_lack(ps),
        !text::has_char(k, ':'),
        w == seq![':'] + k,
    ensures
        text::joined_texts(
            ps.push(k + text::dec_int(secs) + "."@ + text::dec_int(nsec)),
            seq![':'],
        ) == s + w + text::dec_int(secs) + "."@ + text::dec_int(nsec),
        parts_lack(ps.push(k + text::dec_int(secs) + "."@ + text::dec_int(nsec))),
{
    reveal_strlit(".");
    let a = text::dec_int(secs);
    let b = text::dec_int(nsec);
    lemma_dec_int_lacks(secs);
    lemma_dec_int_lacks(nsec);
    text::lemma_sum_lacks(k, a, ':');
    text::lemma_sum_lacks(k + a, "."@, ':');
    text::lemma_sum_lacks(k + a + "."@, b, ':');
    let v = a + "."@ + b;
    assert(k + v =~= k + a + "."@ + b);
    lemma_part(ps, s, w, k, v);
    assert(s + w + v =~= s + w + a + "."@ + b);
}

proof fn lemma_dec_int_lacks(n: int)
    ensures
        !text::has_char(text::dec_int(n), ':'),
{
    if n < 0 {
        text::lemma_in_base_lacks((-n) as nat, 10, ':');
        text::lemma_sum_lacks(seq!['-'], text::dec((-n) as nat), ':');
    } else {
        text::lemma_in_base_lacks(n as nat, 10, ':');
    }
}

/// Paths where secrets or accounts are kept, wherever the root is: the files of the accounts, anything
/// in a directory of keys, files that are keys by their names, and anything named after a token
/// or a credential.
pub proof fn law_sensitive_paths(a: Seq<char>, b: Seq<char>, c: char)
    requires
        c != '/',
    ensures
        sensitive(seq!['/'] + a) == sensitive(a),
        sensitive("etc/passwd"@),
        sensitive("etc/shadow"@),
        sensitive("etc/sudoers"@),
        sensitive("root/.ssh/"@ + b),
        sensitive(seq![c] + a + "/.ssh/"@ + b),
        sensitive(seq![c] + a + ".pem"@),
        sensitive(seq![c] + a + ".key"@),
        sensitive(seq![c] + a + "id_rsa"@ + b),
        sensitive(seq![c] + a + "id_ed25519"@ + b),
        sensitive(seq![c] + a + "token"@ + b),
        sensitive(seq![c] + a + "credential"@ + b),
{
    reveal_strlit("etc/passwd");
    reveal_strlit("etc/shadow");
    reveal_strlit("etc/sudoers");
    reveal_strlit("root/.ssh/");
    let s = seq!['/'] + a;
    assert(s.skip(1) =~= a);
    assert(text::without_front(s, '/') == text::without_front(a, '/'));
    let r = "root/.ssh/"@ + b;
    assert(r[0] == 'r');
    assert("root/.ssh/"@.is_prefix_of(r));
    let h = seq![c] + a;
    lemma_held(h, "/.ssh/"@, b);
    lemma_held(h, "id_rsa"@, b);
    lemma_held(h, "id_ed25519"@, b);
    lemma_held(h, "token"@, b);
    lemma_held(h, "credential"@, b);
    assert((h + ".pem"@)[0] == c);
    assert((h + ".key"@)[0] == c);
    assert(".pem"@.is_suffix_of(h + ".pem"@)) by {
        assert((h + ".pem"@).skip((h + ".pem"@).len() - ".pem"@.len()) =~= ".pem"@);
    }
    assert(".key"@.is_suffix_of(h + ".key"@)) by {
        assert((h + ".key"@).skip((h + ".key"@).len() - ".key"@.len()) =~= ".key"@);
    }
}

proof fn lemma_held(h: Seq<char>, w: Seq<char>, b: Seq<char>)
    requires
        h.len() > 0,
        h[0] != '/',
    ensures
        text::holds(h + w + b, w),
        text::without_front(h + w + b, '/') == h + w + b,
{
    let s = h + w + b;
    let k = h.len() as int;
    assert(s[0] == h[0]);
    assert(s.subrange(k, k + w.len()) =~= w);
}

/// The number of a device is made of both its numbers: of the lowest bits of each, and of the rest of
/// each above them. Both are read back out of it.
pub proof fn law_device_numbers(major: u32, minor: u32)
    ensures
        ({
            let ma = major as u64;
            let mi = minor as u64;
            let dev = ((ma & 0xfff) << 8) | ((ma & 0xffff_f000) << 32) | (mi & 0xff) | ((mi
                & 0xffff_ff00) << 12);
            major_of(dev) == major && minor_of(dev) == minor
        }),
{
    let ma = major as u64;
    let mi = minor as u64;
    let dev = ((ma & 0xfff) << 8) | ((ma & 0xffff_f000) << 32) | (mi & 0xff) | ((mi & 0xffff_ff00)
        << 12);
    assert(((((dev & 0x0000_0000_000f_ff00) >> 8) | ((dev & 0xffff_f000_0000_0000) >> 32)) as u32)
        == major && (((dev & 0x0000_0000_0000_00ff) | ((dev & 0x0000_0fff_fff0_0000) >> 12)) as u32)
        == minor) by (bit_vector)
        requires
            ma == major as u64,
            mi == minor as u64,
            dev == ((ma & 0xfff) << 8) | ((ma & 0xffff_f000) << 32) | (mi & 0xff) | ((mi
                & 0xffff_ff00) << 12),
    ;
}

} // verus!
