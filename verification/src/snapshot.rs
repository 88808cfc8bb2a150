//! Snapshots and checkpoints of layered roots: where they are kept, what is kept of them, and what
//! may become one.

use vstd::prelude::*;
use vstd::string::*;
use vstd::utf8::*;

use crate::diff::FileKind;
use crate::error::{Error, ErrorKind};
use crate::hooks;
use crate::hooks::strings_to_json;
use crate::json;
use crate::json::{
    get_items, get_text, get_text_or, get_u64_or, named, parse_json, render_json, Json, JsonView,
};
use crate::order;
use crate::overlay;
use crate::overlay::{get_all_texts, OverlayRootfs};
use crate::path;
use crate::path::join;
use crate::state;
use crate::state::{runtime_root_dir, RootEnv, StatusPidComm};
use crate::text;
use crate::text::{
    cat3, clone_strings, contains_char, dec_u64, is_empty, owned, parse_unsigned, str_eq,
    text_of_utf8,
};

verus! {

/// What is wrong with a name under which state is kept, if anything: it must be one name of a path.
pub open spec fn name_fault(name: Seq<char>, label: Seq<char>) -> Option<Seq<char>> {
    if name.len() == 0 || name == "."@ || name == ".."@ || text::has_char(name, '/')
        || text::has_char(name, '\0') {
        Some("invalid "@ + label + ": "@ + name)
    } else {
        None
    }
}

/// Rejects a name that could lead elsewhere.
pub fn validate_state_name(name: &str, label: &str) -> (r: Result<(), Error>)
    ensures
        match r {
            Ok(()) => name_fault(name@, label@) is None,
            Err(e) => name_fault(name@, label@) == Some(e@),
        },
{
    if is_empty(name) || str_eq(name, ".") || str_eq(name, "..") || contains_char(name, '/')
        || contains_char(name, '\0') {
        let mut s = owned("invalid ");
        s.append(label);
        s.append(": ");
        s.append(name);
        Err(Error::new(s))
    } else {
        Ok(())
    }
}

/// A name that is accepted names one thing right below a directory: its path has no other names.
pub proof fn law_names_stay_below(name: Seq<char>, label: Seq<char>)
    requires
        name_fault(name, label) is None,
    ensures
        path::names(name) == seq![name],
        !path::absolute(name),
{
    text::lemma_one_piece(name, '/');
    let ps = text::pieces(name, '/');
    assert(ps.drop_last() =~= Seq::<Seq<char>>::empty());
    assert(ps.last() == name);
    assert(path::names_among(ps.drop_last()) =~= Seq::<Seq<char>>::empty());
    assert(path::names(name) =~= seq![name]);
    if path::absolute(name) {
        assert(text::has_char(name, '/'));
    }
}

/// Where a snapshot is kept.
pub struct SnapshotPaths {
    pub root: String,
    pub upper: String,
    pub meta: String,
}

/// Where a checkpoint is kept.
pub struct CheckpointPaths {
    pub root: String,
    pub layer: String,
    pub meta: String,
}

/// Where something is kept beside the containers.
pub open spec fn kept_at(env: RootEnv, dir: Seq<char>, id: Seq<char>) -> Seq<char> {
    path::joined(path::joined(state::root_dir(env), dir), id)
}

/// Where a snapshot is kept.
pub fn snapshot_paths(env: &RootEnv, id: &str) -> (p: SnapshotPaths)
    ensures
        p.root@ == kept_at(*env, ".snapshots"@, id@),
        p.upper@ == path::joined(p.root@, "upper"@),
        p.meta@ == path::joined(p.root@, "meta.json"@),
{
    let base = join(runtime_root_dir(env).as_str(), ".snapshots");
    let root = join(base.as_str(), id);
    SnapshotPaths {
        upper: join(root.as_str(), "upper"),
        meta: join(root.as_str(), "meta.json"),
        root,
    }
}

/// Where a checkpoint is kept.
pub fn checkpoint_paths(env: &RootEnv, id: &str) -> (p: CheckpointPaths)
    ensures
        p.root@ == kept_at(*env, ".checkpoints"@, id@),
        p.layer@ == path::joined(p.root@, "layer"@),
        p.meta@ == path::joined(p.root@, "meta.json"@),
{
    let base = join(runtime_root_dir(env).as_str(), ".checkpoints");
    let root = join(base.as_str(), id);
    CheckpointPaths {
        layer: join(root.as_str(), "layer"),
        meta: join(root.as_str(), "meta.json"),
        root,
    }
}

/// The size of a layer.
#[derive(Debug, Clone, Copy, PartialEq, Eq, Structural)]
pub struct SnapshotStats {
    pub entries: u64,
    pub bytes: u64,
}

/// The larger size after one more file of `len` bytes; only regular files count by their bytes.
pub open spec fn counted(s: SnapshotStats, kind: FileKind, len: u64) -> SnapshotStats {
    SnapshotStats {
        entries: if s.entries < u64::MAX {
            (s.entries + 1) as u64
        } else {
            u64::MAX
        },
        bytes: if kind != FileKind::File {
            s.bytes
        } else if s.bytes + len <= u64::MAX {
            (s.bytes + len) as u64
        } else {
            u64::MAX
        },
    }
}

/// The size after one more file.
pub fn measure_upperdir(s: SnapshotStats, kind: FileKind, len: u64) -> (r: SnapshotStats)
    ensures
        r == counted(s, kind, len),
{
    SnapshotStats {
        entries: s.entries.saturating_add(1),
        bytes: if kind == FileKind::File {
            s.bytes.saturating_add(len)
        } else {
            s.bytes
        },
    }
}

/// The limit on the bytes of a snapshot where none is set.
pub const DEFAULT_MAX_BYTES: u64 = 10737418240;

/// The limit on the files of a snapshot where none is set.
pub const DEFAULT_MAX_ENTRIES: u64 = 500000;

/// A limit that is set by a text; the default where the text is missing or no number.
pub fn snapshot_limit_env(value: &Option<String>, default: u64) -> (n: u64)
    ensures
        n == (match *value {
            Some(t) => match text::unsigned_value(t@, u64::MAX as nat) {
                Some(v) => v as u64,
                None => default,
            },
            None => default,
        }),
{
    match value {
        Some(t) => match parse_unsigned(t.as_str(), 0xffff_ffff_ffff_ffff) {
            Some(n) => n,
            None => default,
        },
        None => default,
    }
}

/// What is wrong with the size of a layer, if anything; a limit of zero is none.
pub open spec fn limit_fault(s: SnapshotStats, max_bytes: u64, max_entries: u64) -> Option<
    Seq<char>,
> {
    if max_bytes > 0 && s.bytes > max_bytes {
        Some(
            "snapshot upperdir has "@ + text::dec(s.bytes as nat) + " bytes, exceeds limit "@
                + text::dec(max_bytes as nat),
        )
    } else if max_entries > 0 && s.entries > max_entries {
        Some(
            "snapshot upperdir has "@ + text::dec(s.entries as nat) + " entries, exceeds limit "@
                + text::dec(max_entries as nat),
        )
    } else {
        None
    }
}

/// Rejects a layer that is too large.
pub fn enforce_snapshot_limits(s: SnapshotStats, max_bytes: u64, max_entries: u64) -> (r: Result<
    (),
    Error,
>)
    ensures
        match r {
            Ok(()) => limit_fault(s, max_bytes, max_entries) is None,
            Err(e) => limit_fault(s, max_bytes, max_entries) == Some(e@),
        },
{
    if max_bytes > 0 && s.bytes > max_bytes {
        let n = dec_u64(s.bytes);
        let m = dec_u64(max_bytes);
        let mut t = cat3("snapshot upperdir has ", n.as_str(), " bytes, exceeds limit ");
        t.append(m.as_str());
        return Err(Error::new(t));
    }
    if max_entries > 0 && s.entries > max_entries {
        let n = dec_u64(s.entries);
        let m = dec_u64(max_entries);
        let mut t = cat3("snapshot upperdir has ", n.as_str(), " entries, exceeds limit ");
        t.append(m.as_str());
        return Err(Error::new(t));
    }
    Ok(())
}

/// The mode of a file nobody may write.
pub fn readonly_mode(mode: u32) -> (m: u32)
    ensures
        m == mode & !0x92u32,
        m & 0x92 == 0,
{
    proof {
        assert((mode & !0x92u32) & 0x92u32 == 0) by (bit_vector);
    }
    mode & !0x92u32
}

/// One thing done to take the right to write from a file of a layer.
#[derive(Debug, Clone, Copy, PartialEq, Eq, Structural)]
pub enum SealOp {
    /// Go on with what is in the directory.
    Descend,
    /// Set the mode to the one without the right.
    TakeWrite,
}

/// What is done to take the right to write from a file: from a directory after what is in it, from a
/// link not at all, for it has no mode of its own.
pub open spec fn seal_ops(kind: FileKind) -> Seq<SealOp> {
    match kind {
        FileKind::Directory => seq![SealOp::Descend, SealOp::TakeWrite],
        FileKind::Symlink => Seq::empty(),
        _ => seq![SealOp::TakeWrite],
    }
}

/// Lays out what is done to take the right to write from a file.
pub fn make_tree_readonly(kind: FileKind) -> (v: Vec<SealOp>)
    ensures
        v@ == seal_ops(kind),
{
    let v = match kind {
        FileKind::Directory => vec![SealOp::Descend, SealOp::TakeWrite],
        FileKind::Symlink => Vec::new(),
        _ => vec![SealOp::TakeWrite],
    };
    proof {
        assert(v@ =~= seal_ops(kind));
    }
    v
}

/// One thing done to copy a file of a layer.
#[derive(Debug, Clone, Copy, PartialEq, Eq, Structural)]
pub enum CopyOp {
    MakeDir,
    /// Copy what is in the directory.
    Descend,
    CopyFile,
    MakeLink,
    MakeFifo,
    MakeNode,
    SetMode,
    SetOwner,
    CopyAttributes,
}

/// What is done to copy a file of a layer: the directory is filled before its mode may forbid it, a
/// link has no mode of its own, and a socket is not copied.
pub open spec fn copy_ops(kind: FileKind) -> Seq<CopyOp> {
    match kind {
        FileKind::Directory => seq![
            CopyOp::MakeDir,
            CopyOp::Descend,
            CopyOp::SetMode,
            CopyOp::SetOwner,
            CopyOp::CopyAttributes,
        ],
        FileKind::File => seq![
            CopyOp::CopyFile,
            CopyOp::SetMode,
            CopyOp::SetOwner,
            CopyOp::CopyAttributes,
        ],
        FileKind::Symlink => seq![CopyOp::MakeLink, CopyOp::CopyAttributes, CopyOp::SetOwner],
        FileKind::Fifo => seq![
            CopyOp::MakeFifo,
            CopyOp::SetMode,
            CopyOp::SetOwner,
            CopyOp::CopyAttributes,
        ],
        FileKind::CharDevice => seq![
            CopyOp::MakeNode,
            CopyOp::SetMode,
            CopyOp::SetOwner,
            CopyOp::CopyAttributes,
        ],
        FileKind::BlockDevice => seq![
            CopyOp::MakeNode,
            CopyOp::SetMode,
            CopyOp::SetOwner,
            CopyOp::CopyAttributes,
        ],
        FileKind::Socket => Seq::empty(),
        FileKind::Other => Seq::empty(),
    }
}

/// Lays out what is done to copy a file of a layer.
pub fn clone_path(kind: FileKind) -> (v: Vec<CopyOp>)
    ensures
        v@ == copy_ops(kind),
{
    let mut v: Vec<CopyOp> = Vec::new();
    match kind {
        FileKind::Directory => {
            v.push(CopyOp::MakeDir);
            v.push(CopyOp::Descend);
        },
        FileKind::File => {
            v.push(CopyOp::CopyFile);
        },
        FileKind::Symlink => {
            v.push(CopyOp::MakeLink);
            v.push(CopyOp::CopyAttributes);
            v.push(CopyOp::SetOwner);
            proof {
                assert(v@ =~= copy_ops(kind));
            }
            return v;
        },
        FileKind::Fifo => {
            v.push(CopyOp::MakeFifo);
        },
        FileKind::CharDevice => {
            v.push(CopyOp::MakeNode);
        },
        FileKind::BlockDevice => {
            v.push(CopyOp::MakeNode);
        },
        _ => {
            return v;
        },
    }
    v.push(CopyOp::SetMode);
    v.push(CopyOp::SetOwner);
    v.push(CopyOp::CopyAttributes);
    proof {
        assert(v@ =~= copy_ops(kind));
    }
    v
}

/// Lays out how a layer is copied to `dst`, where nothing may be yet.
pub fn clone_upperdir(dst: &str, there: bool) -> (r: Result<Vec<CopyOp>, Error>)
    ensures
        match r {
            Ok(v) => !there && v@ == copy_ops(FileKind::Directory),
            Err(e) => there && e@ == "destination "@ + dst@ + " already exists"@,
        },
{
    if there {
        return Err(Error::new(cat3("destination ", dst, " already exists")));
    }
    Ok(clone_path(FileKind::Directory))
}

pub const EPERM: i32 = 1;

pub const ENODATA: i32 = 61;

/// Whether a copy goes on without the owner: a user who may not give files away keeps them.
pub fn owner_optional(errno: i32) -> (r: bool)
    ensures
        r == (errno == EPERM),
{
    errno == EPERM
}

/// Whether a filesystem that answers so has no attributes.
pub fn no_attributes(errno: i32) -> (r: bool)
    ensures
        r == (errno == crate::clone::EOPNOTSUPP || errno == ENODATA),
{
    errno == crate::clone::EOPNOTSUPP || errno == ENODATA
}

/// The texts between zero bytes, up to the place `k`: those that are not empty and are texts. The
/// second part is the piece that is not ended yet.
pub open spec fn names_up_to(b: Seq<u8>, k: int) -> (Seq<Seq<char>>, Seq<u8>)
    decreases k,
{
    if k <= 0 {
        (Seq::empty(), Seq::empty())
    } else {
        let (done, open) = names_up_to(b, k - 1);
        if b[k - 1] == 0 {
            (with_name(done, open), Seq::empty())
        } else {
            (done, open.push(b[k - 1]))
        }
    }
}

/// A list of names with one more, where the piece is one.
pub open spec fn with_name(done: Seq<Seq<char>>, piece: Seq<u8>) -> Seq<Seq<char>> {
    if piece.len() > 0 && valid_utf8(piece) {
        done.push(decode_utf8(piece))
    } else {
        done
    }
}

/// The names in a list of attributes, each ended by a zero byte.
pub open spec fn attribute_names(b: Seq<u8>) -> Seq<Seq<char>> {
    let (done, open) = names_up_to(b, b.len() as int);
    with_name(done, open)
}

/// Adds a name, where the piece is one.
fn push_name(v: &mut Vec<String>, piece: &Vec<u8>)
    ensures
        text::texts(final(v)@) == with_name(text::texts(old(v)@), piece@),
{
    let ghost was = v@;
    if piece.len() > 0 {
        if let Some(s) = text_of_utf8(piece.as_slice()) {
            let ghost t = s@;
            v.push(s);
            proof {
                assert(text::texts(v@) =~= text::texts(was).push(t));
            }
        }
    }
}

/// The names in a list of attributes.
pub fn list_xattrs(b: &[u8]) -> (v: Vec<String>)
    ensures
        text::texts(v@) == attribute_names(b@),
{
    let mut v: Vec<String> = Vec::new();
    let mut piece: Vec<u8> = Vec::new();
    let mut i: usize = 0;
    proof {
        assert(text::texts(v@) =~= Seq::<Seq<char>>::empty());
    }
    while i < b.len()
        invariant
            i <= b@.len(),
            (text::texts(v@), piece@) == names_up_to(b@, i as int),
        decreases b@.len() - i,
    {
        if b[i] == 0 {
            push_name(&mut v, &piece);
            piece = Vec::new();
            proof {
                assert(piece@ =~= Seq::<u8>::empty());
            }
        } else {
            piece.push(b[i]);
        }
        i += 1;
    }
    push_name(&mut v, &piece);
    v
}

/// What is wrong with taking the layer of a container that may be running, if anything.
pub open spec fn stopped_fault(
    id: Seq<char>,
    op: Seq<char>,
    there: bool,
    status: Option<Seq<char>>,
    pid: int,
    alive: bool,
) -> Option<Seq<char>> {
    if !there {
        Some("container "@ + id + " does not exist"@)
    } else if pid > 0 && alive {
        Some(
            "cannot "@ + op + " container "@ + id + " in state "@ + (match status {
                Some(s) => s,
                None => "creating"@,
            }) + "; stop it first"@,
        )
    } else {
        None
    }
}

/// Rejects an operation on the layer of a container whose process is alive.
pub fn ensure_stopped_for_fs_state(
    id: &str,
    op: &str,
    there: bool,
    known: &StatusPidComm,
    alive: bool,
) -> (r: Result<(), Error>)
    ensures
        match r {
            Ok(()) => stopped_fault(
                id@,
                op@,
                there,
                text::opt_text(known.status),
                known.pid as int,
                alive,
            ) is None,
            Err(e) => stopped_fault(
                id@,
                op@,
                there,
                text::opt_text(known.status),
                known.pid as int,
                alive,
            ) == Some(e@),
        },
{
    if !there {
        return Err(Error::new(cat3("container ", id, " does not exist")));
    }
    if known.pid > 0 && alive {
        let mut s = cat3("cannot ", op, " container ");
        s.append(id);
        s.append(" in state ");
        match &known.status {
            Some(t) => s.append(t.as_str()),
            None => s.append("creating"),
        }
        s.append("; stop it first");
        return Err(Error::new(s));
    }
    Ok(())
}

/// What is wrong with making a checkpoint of a container, if anything: its process may be there only
/// where it still waits for its start.
pub open spec fn quiescent_fault(
    id: Seq<char>,
    there: bool,
    status: Option<Seq<char>>,
    pid: int,
    alive: bool,
) -> Option<Seq<char>> {
    if there && status == Some("created"@) {
        None
    } else {
        stopped_fault(id, "checkpoint"@, there, status, pid, alive)
    }
}

/// Rejects a checkpoint of a container that may write.
pub fn ensure_checkpoint_quiescent(id: &str, there: bool, known: &StatusPidComm, alive: bool) -> (r:
    Result<(), Error>)
    ensures
        match r {
            Ok(()) => quiescent_fault(
                id@,
                there,
                text::opt_text(known.status),
                known.pid as int,
                alive,
            ) is None,
            Err(e) => quiescent_fault(
                id@,
                there,
                text::opt_text(known.status),
                known.pid as int,
                alive,
            ) == Some(e@),
        },
{
    if there {
        if let Some(t) = &known.status {
            if str_eq(t.as_str(), "created") {
                return Ok(());
            }
        }
    }
    ensure_stopped_for_fs_state(id, "checkpoint", there, known, alive)
}

/// The first of the texts, as JSON.
pub open spec fn first_json(l: Seq<Seq<char>>) -> JsonView {
    if l.len() == 0 {
        JsonView::Null
    } else {
        JsonView::Str(l[0])
    }
}

/// What is kept of a snapshot.
pub open spec fn snapshot_json(
    id: Seq<char>,
    source: Seq<char>,
    lowerdirs: Seq<Seq<char>>,
    bundle: Seq<char>,
    reset_count: u64,
    stats: SnapshotStats,
) -> JsonView {
    JsonView::Object(
        seq![
            ("backend"@, JsonView::Str("overlayfs"@)),
            ("bundle"@, JsonView::Str(bundle)),
            ("bytes"@, JsonView::UInt(stats.bytes)),
            ("entries"@, JsonView::UInt(stats.entries)),
            ("id"@, JsonView::Str(id)),
            ("lowerdir"@, first_json(lowerdirs)),
            ("lowerdirs"@, hooks::strings_json(lowerdirs)),
            ("resetCount"@, JsonView::UInt(reset_count)),
            ("source_id"@, JsonView::Str(source)),
            ("version"@, JsonView::UInt(1)),
        ],
    )
}

/// The keys are in order.
proof fn lemma_snapshot_keys(
    id: Seq<char>,
    source: Seq<char>,
    lowerdirs: Seq<Seq<char>>,
    bundle: Seq<char>,
    reset_count: u64,
    stats: SnapshotStats,
)
    ensures
        ({
            let v = snapshot_json(id, source, lowerdirs, bundle, reset_count, stats);
            json::in_key_order(v->Object_0) && json::tame(v, json::read_depth())
        }),
{
    reveal_strlit("backend");
    reveal_strlit("bundle");
    reveal_strlit("bytes");
    reveal_strlit("entries");
    reveal_strlit("id");
    reveal_strlit("lowerdir");
    reveal_strlit("lowerdirs");
    reveal_strlit("resetCount");
    reveal_strlit("source_id");
    reveal_strlit("version");
    order::lemma_first_difference("backend"@, "bundle"@, 1);
    order::lemma_first_difference("bundle"@, "bytes"@, 1);
    order::lemma_first_difference("bytes"@, "entries"@, 0);
    order::lemma_first_difference("entries"@, "id"@, 0);
    order::lemma_first_difference("id"@, "lowerdir"@, 0);
    order::lemma_prefix_before("lowerdir"@, "lowerdirs"@);
    order::lemma_first_difference("lowerdirs"@, "resetCount"@, 0);
    order::lemma_first_difference("resetCount"@, "source_id"@, 0);
    order::lemma_first_difference("source_id"@, "version"@, 0);
    let m = snapshot_json(id, source, lowerdirs, bundle, reset_count, stats)->Object_0;
    json::lemma_adjacent_keys(m);
    let d = (json::read_depth() - 1) as nat;
    hooks::lemma_strings_tame(lowerdirs, d);
    assert forall|i: int| 0 <= i < m.len() implies json::tame((#[trigger] m[i]).1, d) by {
    }
}

/// What is kept of a snapshot `id` of the container `source`.
pub fn write_snapshot_meta(
    id: &str,
    source: &str,
    lowerdirs: &Vec<String>,
    bundle: &str,
    reset_count: u64,
    stats: SnapshotStats,
) -> (b: Vec<u8>)
    ensures
        b@ == json::rendered(
            snapshot_json(id@, source@, text::texts(lowerdirs@), bundle@, reset_count, stats),
        ),
        json::reads_as(
            b@,
            snapshot_json(id@, source@, text::texts(lowerdirs@), bundle@, reset_count, stats),
        ),
{
    let ghost l = text::texts(lowerdirs@);
    proof {
        assert(l.len() == lowerdirs@.len());
    }
    let first = if lowerdirs.len() == 0 {
        Json::Null
    } else {
        Json::Str(lowerdirs[0].clone())
    };
    let doc = Json::Object(
        vec![
            named("backend", Json::Str(owned("overlayfs"))),
            named("bundle", Json::Str(owned(bundle))),
            named("bytes", Json::UInt(stats.bytes)),
            named("entries", Json::UInt(stats.entries)),
            named("id", Json::Str(owned(id))),
            named("lowerdir", first),
            named("lowerdirs", strings_to_json(lowerdirs)),
            named("resetCount", Json::UInt(reset_count)),
            named("source_id", Json::Str(owned(source))),
            named("version", Json::UInt(1)),
        ],
    );
    proof {
        assert(doc@->Object_0 =~= snapshot_json(
            id@,
            source@,
            l,
            bundle@,
            reset_count,
            stats,
        )->Object_0);
        lemma_snapshot_keys(id@, source@, l, bundle@, reset_count, stats);
    }
    render_json(&doc)
}

/// What a layered root is made from again.
#[derive(Debug)]
pub struct SnapshotMeta {
    pub lowerdirs: Vec<String>,
    pub bundle: String,
    pub reset_count: u64,
}

/// What a layered root is made from again.
pub struct SnapshotMetaView {
    pub lowerdirs: Seq<Seq<char>>,
    pub bundle: Seq<char>,
    pub reset_count: u64,
}

impl View for SnapshotMeta {
    type V = SnapshotMetaView;

    open spec fn view(&self) -> SnapshotMetaView {
        SnapshotMetaView {
            lowerdirs: text::texts(self.lowerdirs@),
            bundle: self.bundle@,
            reset_count: self.reset_count,
        }
    }
}

/// The lower layers that a snapshot names, or what is wrong.
pub open spec fn snapshot_lowerdirs(v: JsonView) -> Result<Seq<Seq<char>>, Seq<char>> {
    match json::items_at(json::field(v, "lowerdirs"@)) {
        Some(a) => match overlay::all_texts(a) {
            Some(l) => Ok(l),
            None => Err("snapshot metadata has invalid lowerdirs"@),
        },
        None => match json::text_at(json::field(v, "lowerdir"@)) {
            Some(t) => Ok(seq![t]),
            None => Err("snapshot metadata missing lowerdir"@),
        },
    }
}

/// What a snapshot says, or what is wrong with it.
pub open spec fn snapshot_in(v: JsonView) -> Result<SnapshotMetaView, Seq<char>> {
    if json::text_at(json::field(v, "backend"@)) != Some("overlayfs"@) {
        Err("snapshot is not overlayfs-backed"@)
    } else {
        match snapshot_lowerdirs(v) {
            Err(f) => Err(f),
            Ok(lowerdirs) => Ok(
                SnapshotMetaView {
                    lowerdirs,
                    bundle: json::text_or(json::field(v, "bundle"@), ""@),
                    reset_count: json::u64_or(json::field(v, "resetCount"@), 0),
                },
            ),
        }
    }
}

/// A result in terms of what it holds.
pub open spec fn meta_result(r: Result<SnapshotMeta, Error>) -> Result<SnapshotMetaView, Seq<char>> {
    match r {
        Ok(m) => Ok(m@),
        Err(e) => Err(e@),
    }
}

/// Whether a document names the backend.
fn names_overlay(v: &Json) -> (r: bool)
    ensures
        r == (json::text_at(json::field(v@, "backend"@)) == Some("overlayfs"@)),
{
    match get_text(v.get("backend")) {
        Some(b) => str_eq(b, "overlayfs"),
        None => false,
    }
}

/// Reads the lower layers that a snapshot names.
fn read_lowerdirs(v: &Json) -> (r: Result<Vec<String>, Error>)
    ensures
        match r {
            Ok(l) => snapshot_lowerdirs(v@) == Ok::<Seq<Seq<char>>, Seq<char>>(text::texts(l@)),
            Err(e) => snapshot_lowerdirs(v@) == Err::<Seq<Seq<char>>, Seq<char>>(e@),
        },
        r is Err ==> (r->Err_0).kind == ErrorKind::Other,
{
    match get_items(v.get("lowerdirs")) {
        Some(a) => match get_all_texts(a) {
            Some(l) => Ok(l),
            None => Err(Error::new(owned("snapshot metadata has invalid lowerdirs"))),
        },
        None => match get_text(v.get("lowerdir")) {
            Some(t) => {
                let l = vec![owned(t)];
                proof {
                    assert(text::texts(l@) =~= seq![t@]);
                }
                Ok(l)
            },
            None => Err(Error::new(owned("snapshot metadata missing lowerdir"))),
        },
    }
}

/// Reads what was kept of a snapshot; whether its layers are there is still to be seen.
pub fn read_snapshot_meta(bytes: &[u8]) -> (r: Result<SnapshotMeta, Error>)
    ensures
        match json::json_text(bytes@) {
            Err(why) => r is Err && (r->Err_0)@ == why,
            Ok(v) => snapshot_in(v) == meta_result(r),
        },
        r is Err ==> (r->Err_0).kind == json::fault_kind(bytes@),
{
    let v = match parse_json(bytes) {
        Ok(v) => v,
        Err(e) => {
            return Err(e);
        },
    };
    if !names_overlay(&v) {
        return Err(Error::new(owned("snapshot is not overlayfs-backed")));
    }
    match read_lowerdirs(&v) {
        Err(e) => Err(e),
        Ok(lowerdirs) => Ok(
            SnapshotMeta {
                lowerdirs,
                bundle: get_text_or(v.get("bundle"), ""),
                reset_count: get_u64_or(v.get("resetCount"), 0),
            },
        ),
    }
}

/// What is kept of a snapshot gives back what a root is made from.
pub proof fn law_snapshot_round_trip(
    id: Seq<char>,
    source: Seq<char>,
    lowerdirs: Seq<Seq<char>>,
    bundle: Seq<char>,
    reset_count: u64,
    stats: SnapshotStats,
)
    ensures
        snapshot_in(snapshot_json(id, source, lowerdirs, bundle, reset_count, stats)) == Ok::<
            SnapshotMetaView,
            Seq<char>,
        >(SnapshotMetaView { lowerdirs, bundle, reset_count }),
{
    let m = snapshot_json(id, source, lowerdirs, bundle, reset_count, stats)->Object_0;
    lemma_snapshot_keys(id, source, lowerdirs, bundle, reset_count, stats);
    overlay::lemma_all_texts(lowerdirs);
    json::lemma_member_at(m, 0);
    json::lemma_member_at(m, 1);
    json::lemma_member_at(m, 6);
    json::lemma_member_at(m, 7);
}

/// What is wrong with the first of the lower layers from `i` on that is not there, if any.
pub open spec fn missing_layer(label: Seq<char>, l: Seq<Seq<char>>, is_dir: Seq<bool>, i: int) -> Option<
    Seq<char>,
>
    decreases l.len() - i,
{
    if i < 0 || i >= l.len() {
        None
    } else if !is_dir[i] {
        Some(label + " lowerdir "@ + l[i] + " is not available"@)
    } else {
        missing_layer(label, l, is_dir, i + 1)
    }
}

/// Rejects lower layers of which one is not there; `label` says what they are layers of.
pub fn check_layers(label: &str, l: &Vec<String>, is_dir: &Vec<bool>) -> (r: Result<(), Error>)
    requires
        is_dir@.len() == l@.len(),
    ensures
        match r {
            Ok(()) => missing_layer(label@, text::texts(l@), is_dir@, 0) is None,
            Err(e) => missing_layer(label@, text::texts(l@), is_dir@, 0) == Some(e@),
        },
{
    let ghost all = text::texts(l@);
    let mut i: usize = 0;
    while i < l.len()
        invariant
            i <= l.len(),
            is_dir@.len() == l@.len(),
            all == text::texts(l@),
            missing_layer(label@, all, is_dir@, 0) == missing_layer(label@, all, is_dir@, i as int),
        decreases l.len() - i,
    {
        if !is_dir[i] {
            let mut s = cat3(label, " lowerdir ", l[i].as_str());
            s.append(" is not available");
            return Err(Error::new(s));
        }
        i += 1;
    }
    Ok(())
}

/// The one layer a checkpoint adds.
pub open spec fn layer_json(layer: Seq<char>) -> JsonView {
    JsonView::Object(
        seq![
            ("backend"@, JsonView::Str("overlayfs"@)),
            ("format"@, JsonView::Str("overlay-upperdir"@)),
            ("path"@, JsonView::Str(layer)),
            ("store"@, JsonView::Str("local-directory"@)),
        ],
    )
}

/// What is kept of a checkpoint: its layer comes on top of those below.
pub open spec fn checkpoint_json(
    id: Seq<char>,
    source: Seq<char>,
    layer: Seq<char>,
    below: Seq<Seq<char>>,
    bundle: Seq<char>,
    reset_count: u64,
    stats: SnapshotStats,
) -> JsonView {
    JsonView::Object(
        seq![
            ("backend"@, JsonView::Str("overlayfs"@)),
            ("bundle"@, JsonView::Str(bundle)),
            ("bytes"@, JsonView::UInt(stats.bytes)),
            ("entries"@, JsonView::UInt(stats.entries)),
            ("id"@, JsonView::Str(id)),
            ("kind"@, JsonView::Str("checkpoint"@)),
            ("layer"@, JsonView::Str(layer)),
            ("layers"@, JsonView::Array(seq![layer_json(layer)])),
            ("lowerdirs"@, hooks::strings_json(seq![layer] + below)),
            ("parent_lowerdirs"@, hooks::strings_json(below)),
            ("resetCount"@, JsonView::UInt(reset_count)),
            ("source_id"@, JsonView::Str(source)),
            ("version"@, JsonView::UInt(1)),
        ],
    )
}

/// The keys of a layer are in order.
proof fn lemma_layer_tame(layer: Seq<char>, depth: nat)
    requires
        depth >= 1,
    ensures
        json::tame(layer_json(layer), depth),
{
    reveal_strlit("backend");
    reveal_strlit("format");
    reveal_strlit("path");
    reveal_strlit("store");
    order::lemma_first_difference("backend"@, "format"@, 0);
    order::lemma_first_difference("format"@, "path"@, 0);
    order::lemma_first_difference("path"@, "store"@, 0);
    let m = layer_json(layer)->Object_0;
    json::lemma_adjacent_keys(m);
    let d = (depth - 1) as nat;
    assert forall|i: int| 0 <= i < m.len() implies json::tame((#[trigger] m[i]).1, d) by {
    }
}

/// The keys are in order.
proof fn lemma_checkpoint_keys(
    id: Seq<char>,
    source: Seq<char>,
    layer: Seq<char>,
    below: Seq<Seq<char>>,
    bundle: Seq<char>,
    reset_count: u64,
    stats: SnapshotStats,
)
    ensures
        ({
            let v = checkpoint_json(id, source, layer, below, bundle, reset_count, stats);
            json::in_key_order(v->Object_0) && json::tame(v, json::read_depth())
        }),
{
    reveal_strlit("backend");
    reveal_strlit("bundle");
    reveal_strlit("bytes");
    reveal_strlit("entries");
    reveal_strlit("id");
    reveal_strlit("kind");
    reveal_strlit("layer");
    reveal_strlit("layers");
    reveal_strlit("lowerdirs");
    reveal_strlit("parent_lowerdirs");
    reveal_strlit("resetCount");
    reveal_strlit("source_id");
    reveal_strlit("version");
    order::lemma_first_difference("backend"@, "bundle"@, 1);
    order::lemma_first_difference("bundle"@, "bytes"@, 1);
    order::lemma_first_difference("bytes"@, "entries"@, 0);
    order::lemma_first_difference("entries"@, "id"@, 0);
    order::lemma_first_difference("id"@, "kind"@, 0);
    order::lemma_first_difference("kind"@, "layer"@, 0);
    order::lemma_prefix_before("layer"@, "layers"@);
    order::lemma_first_difference("layers"@, "lowerdirs"@, 1);
    order::lemma_first_difference("lowerdirs"@, "parent_lowerdirs"@, 0);
    order::lemma_first_difference("parent_lowerdirs"@, "resetCount"@, 0);
    order::lemma_first_difference("resetCount"@, "source_id"@, 0);
    order::lemma_first_difference("source_id"@, "version"@, 0);
    let m = checkpoint_json(id, source, layer, below, bundle, reset_count, stats)->Object_0;
    json::lemma_adjacent_keys(m);
    let d = (json::read_depth() - 1) as nat;
    hooks::lemma_strings_tame(seq![layer] + below, d);
    hooks::lemma_strings_tame(below, d);
    lemma_layer_tame(layer, (d - 1) as nat);
    assert(json::tame(m[7].1, d));
    assert forall|i: int| 0 <= i < m.len() implies json::tame((#[trigger] m[i]).1, d) by {
    }
}

/// The layers of a checkpoint: its own on top of those below.
pub fn checkpoint_layers(layer: &str, below: &Vec<String>) -> (v: Vec<String>)
    ensures
        text::texts(v@) == seq![layer@] + text::texts(below@),
{
    let mut v: Vec<String> = Vec::new();
    v.push(owned(layer));
    let mut rest = clone_strings(below);
    let ghost first = v@;
    let ghost r = rest@;
    v.append(&mut rest);
    proof {
        assert(text::texts(v@) =~= text::texts(first) + text::texts(r));
        assert(text::texts(first) =~= seq![layer@]);
    }
    v
}

/// What is kept of a checkpoint `id` of the container `source`, whose layer is `layer` on top of
/// `below`.
pub fn write_checkpoint_meta(
    id: &str,
    source: &str,
    layer: &str,
    below: &Vec<String>,
    bundle: &str,
    reset_count: u64,
    stats: SnapshotStats,
) -> (b: Vec<u8>)
    ensures
        b@ == json::rendered(
            checkpoint_json(
                id@,
                source@,
                layer@,
                text::texts(below@),
                bundle@,
                reset_count,
                stats,
            ),
        ),
        json::reads_as(
            b@,
            checkpoint_json(
                id@,
                source@,
                layer@,
                text::texts(below@),
                bundle@,
                reset_count,
                stats,
            ),
        ),
{
    let ghost l = text::texts(below@);
    let one = Json::Object(
        vec![
            named("backend", Json::Str(owned("overlayfs"))),
            named("format", Json::Str(owned("overlay-upperdir"))),
            named("path", Json::Str(owned(layer))),
            named("store", Json::Str(owned("local-directory"))),
        ],
    );
    proof {
        assert(one@->Object_0 =~= layer_json(layer@)->Object_0);
    }
    let layers = Json::Array(vec![one]);
    proof {
        assert(layers@->Array_0 =~= seq![layer_json(layer@)]);
    }
    let lowerdirs = checkpoint_layers(layer, below);
    let doc = Json::Object(
        vec![
            named("backend", Json::Str(owned("overlayfs"))),
            named("bundle", Json::Str(owned(bundle))),
            named("bytes", Json::UInt(stats.bytes)),
            named("entries", Json::UInt(stats.entries)),
            named("id", Json::Str(owned(id))),
            named("kind", Json::Str(owned("checkpoint"))),
            named("layer", Json::Str(owned(layer))),
            named("layers", layers),
            named("lowerdirs", strings_to_json(&lowerdirs)),
            named("parent_lowerdirs", strings_to_json(below)),
            named("resetCount", Json::UInt(reset_count)),
            named("source_id", Json::Str(owned(source))),
            named("version", Json::UInt(1)),
        ],
    );
    proof {
        assert(doc@->Object_0 =~= checkpoint_json(
            id@,
            source@,
            layer@,
            l,
            bundle@,
            reset_count,
            stats,
        )->Object_0);
        lemma_checkpoint_keys(id@, source@, layer@, l, bundle@, reset_count, stats);
    }
    render_json(&doc)
}

/// What a checkpoint says, or what is wrong with it.
pub open spec fn checkpoint_in(v: JsonView) -> Result<SnapshotMetaView, Seq<char>> {
    if json::text_at(json::field(v, "kind"@)) != Some("checkpoint"@) {
        Err("metadata is not a checkpoint"@)
    } else if json::text_at(json::field(v, "backend"@)) != Some("overlayfs"@) {
        Err("checkpoint backend is not supported"@)
    } else {
        match json::items_at(json::field(v, "lowerdirs"@)) {
            None => Err("checkpoint metadata missing lowerdirs"@),
            Some(a) => match overlay::all_texts(a) {
                None => Err("checkpoint metadata has invalid lowerdirs"@),
                Some(lowerdirs) => if lowerdirs.len() == 0 {
                    Err("checkpoint lowerdir chain is empty"@)
                } else {
                    Ok(
                        SnapshotMetaView {
                            lowerdirs,
                            bundle: json::text_or(json::field(v, "bundle"@), ""@),
                            reset_count: json::u64_or(json::field(v, "resetCount"@), 0),
                        },
                    )
                },
            },
        }
    }
}

/// Reads what was kept of a checkpoint; whether its layers are there is still to be seen.
pub fn read_checkpoint_meta(bytes: &[u8]) -> (r: Result<SnapshotMeta, Error>)
    ensures
        match json::json_text(bytes@) {
            Err(why) => r is Err && (r->Err_0)@ == why,
            Ok(v) => checkpoint_in(v) == meta_result(r),
        },
        r is Err ==> (r->Err_0).kind == json::fault_kind(bytes@),
{
    let v = match parse_json(bytes) {
        Ok(v) => v,
        Err(e) => {
            return Err(e);
        },
    };
    let named_so = match get_text(v.get("kind")) {
        Some(k) => str_eq(k, "checkpoint"),
        None => false,
    };
    if !named_so {
        return Err(Error::new(owned("metadata is not a checkpoint")));
    }
    if !names_overlay(&v) {
        return Err(Error::new(owned("checkpoint backend is not supported")));
    }
    let a = match get_items(v.get("lowerdirs")) {
        Some(a) => a,
        None => {
            return Err(Error::new(owned("checkpoint metadata missing lowerdirs")));
        },
    };
    let lowerdirs = match get_all_texts(a) {
        Some(l) => l,
        None => {
            return Err(Error::new(owned("checkpoint metadata has invalid lowerdirs")));
        },
    };
    proof {
        assert(text::texts(lowerdirs@).len() == lowerdirs@.len());
    }
    if lowerdirs.len() == 0 {
        return Err(Error::new(owned("checkpoint lowerdir chain is empty")));
    }
    Ok(
        SnapshotMeta {
            lowerdirs,
            bundle: get_text_or(v.get("bundle"), ""),
            reset_count: get_u64_or(v.get("resetCount"), 0),
        },
    )
}

/// A container made from a checkpoint has the layer of the checkpoint on top of the layers that were
/// below the container it was made of.
pub proof fn law_checkpoint_round_trip(
    id: Seq<char>,
    source: Seq<char>,
    layer: Seq<char>,
    below: Seq<Seq<char>>,
    bundle: Seq<char>,
    reset_count: u64,
    stats: SnapshotStats,
)
    ensures
        checkpoint_in(checkpoint_json(id, source, layer, below, bundle, reset_count, stats)) == Ok::<
            SnapshotMetaView,
            Seq<char>,
        >(SnapshotMetaView { lowerdirs: seq![layer] + below, bundle, reset_count }),
{
    let m = checkpoint_json(id, source, layer, below, bundle, reset_count, stats)->Object_0;
    lemma_checkpoint_keys(id, source, layer, below, bundle, reset_count, stats);
    overlay::lemma_all_texts(seq![layer] + below);
    json::lemma_member_at(m, 0);
    json::lemma_member_at(m, 1);
    json::lemma_member_at(m, 5);
    json::lemma_member_at(m, 8);
    json::lemma_member_at(m, 10);
}

/// The layers of a container that is made from others: its own are fresh, below its own state.
pub fn branch_layers(root: &str, lowerdirs: &Vec<String>) -> (o: OverlayRootfs)
    ensures
        o@ == (overlay::OverlayView {
            lowerdirs: text::texts(lowerdirs@),
            upperdir: path::joined(root@, "overlay/upper"@),
            workdir: path::joined(root@, "overlay/work"@),
            merged: path::joined(root@, "overlay/merged"@),
        }),
{
    OverlayRootfs {
        lowerdirs: clone_strings(lowerdirs),
        upperdir: join(root, "overlay/upper"),
        workdir: join(root, "overlay/work"),
        merged: join(root, "overlay/merged"),
    }
}

/// Containers with different state directories have layers of their own: what one writes the other
/// does not see.
pub proof fn law_branches_apart(a: Seq<char>, b: Seq<char>)
    requires
        a != b,
        a.len() > 0,
        b.len() > 0,
        a.last() != '/',
        b.last() != '/',
    ensures
        path::joined(a, "overlay/upper"@) != path::joined(b, "overlay/upper"@),
{
    reveal_strlit("overlay/upper");
    let t = "overlay/upper"@;
    let x = path::joined(a, t);
    let y = path::joined(b, t);
    if x == y {
        assert(x.len() == a.len() + 1 + t.len());
        assert(y.len() == b.len() + 1 + t.len());
        assert(x.take(a.len() as int) =~= a);
        assert(y.take(a.len() as int) =~= b);
    }
}

/// What a snapshot says, read back, each thing under its own name.
pub proof fn law_snapshot_says(
    id: Seq<char>,
    source: Seq<char>,
    lowerdirs: Seq<Seq<char>>,
    bundle: Seq<char>,
    reset_count: u64,
    stats: SnapshotStats,
)
    ensures
        ({
            let d = snapshot_json(id, source, lowerdirs, bundle, reset_count, stats);
            &&& json::field(d, "backend"@) == Some(JsonView::Str("overlayfs"@))
            &&& json::field(d, "bundle"@) == Some(JsonView::Str(bundle))
            &&& json::field(d, "bytes"@) == Some(JsonView::UInt(stats.bytes))
            &&& json::field(d, "entries"@) == Some(JsonView::UInt(stats.entries))
            &&& json::field(d, "id"@) == Some(JsonView::Str(id))
            &&& lowerdirs.len() > 0 ==> json::field(d, "lowerdir"@) == Some(
                JsonView::Str(lowerdirs[0]),
            )
            &&& json::lists_texts(json::field(d, "lowerdirs"@), lowerdirs)
            &&& json::field(d, "resetCount"@) == Some(JsonView::UInt(reset_count))
            &&& json::field(d, "source_id"@) == Some(JsonView::Str(source))
            &&& json::field(d, "version"@) == Some(JsonView::UInt(1))
        }),
{
    lemma_snapshot_keys(id, source, lowerdirs, bundle, reset_count, stats);
    let m = snapshot_json(id, source, lowerdirs, bundle, reset_count, stats)->Object_0;
    json::lemma_members_at(m);
    assert(m[0].0 == "backend"@);
    assert(m[1].0 == "bundle"@);
    assert(m[2].0 == "bytes"@);
    assert(m[3].0 == "entries"@);
    assert(m[4].0 == "id"@);
    assert(m[5].0 == "lowerdir"@);
    assert(m[6].0 == "lowerdirs"@);
    assert(m[7].0 == "resetCount"@);
    assert(m[8].0 == "source_id"@);
    assert(m[9].0 == "version"@);
}

/// What a checkpoint says, read back: its own layer comes before the lower layers of its source.
pub proof fn law_checkpoint_says(
    id: Seq<char>,
    source: Seq<char>,
    layer: Seq<char>,
    below: Seq<Seq<char>>,
    bundle: Seq<char>,
    reset_count: u64,
    stats: SnapshotStats,
)
    ensures
        ({
            let d = checkpoint_json(id, source, layer, below, bundle, reset_count, stats);
            let layers = json::field(d, "layers"@);
            let l = layers->Some_0->Array_0[0];
            &&& json::field(d, "backend"@) == Some(JsonView::Str("overlayfs"@))
            &&& json::field(d, "bundle"@) == Some(JsonView::Str(bundle))
            &&& json::field(d, "bytes"@) == Some(JsonView::UInt(stats.bytes))
            &&& json::field(d, "entries"@) == Some(JsonView::UInt(stats.entries))
            &&& json::field(d, "id"@) == Some(JsonView::Str(id))
            &&& json::field(d, "kind"@) == Some(JsonView::Str("checkpoint"@))
            &&& json::field(d, "layer"@) == Some(JsonView::Str(layer))
            &&& json::lists_texts(json::field(d, "parent_lowerdirs"@), below)
            &&& json::field(d, "lowerdirs"@) matches Some(JsonView::Array(a)) && a.len()
                == below.len() + 1 && a[0] == JsonView::Str(layer) && forall|i: int|
                0 <= i < below.len() ==> #[trigger] a[i + 1] == JsonView::Str(below[i])
            &&& json::field(d, "resetCount"@) == Some(JsonView::UInt(reset_count))
            &&& json::field(d, "source_id"@) == Some(JsonView::Str(source))
            &&& json::field(d, "version"@) == Some(JsonView::UInt(1))
            &&& layers matches Some(JsonView::Array(a)) && a.len() == 1
            &&& json::field(l, "path"@) == Some(JsonView::Str(layer))
            &&& json::field(l, "format"@) == Some(JsonView::Str("overlay-upperdir"@))
            &&& json::field(l, "store"@) == Some(JsonView::Str("local-directory"@))
            &&& json::field(l, "backend"@) == Some(JsonView::Str("overlayfs"@))
        }),
{
    lemma_checkpoint_keys(id, source, layer, below, bundle, reset_count, stats);
    let m = checkpoint_json(id, source, layer, below, bundle, reset_count, stats)->Object_0;
    json::lemma_members_at(m);
    assert(m[0].0 == "backend"@);
    assert(m[1].0 == "bundle"@);
    assert(m[2].0 == "bytes"@);
    assert(m[3].0 == "entries"@);
    assert(m[4].0 == "id"@);
    assert(m[5].0 == "kind"@);
    assert(m[6].0 == "layer"@);
    assert(m[7].0 == "layers"@);
    assert(m[8].0 == "lowerdirs"@);
    assert(m[9].0 == "parent_lowerdirs"@);
    assert(m[10].0 == "resetCount"@);
    assert(m[11].0 == "source_id"@);
    assert(m[12].0 == "version"@);
    let all = seq![layer] + below;
    let a = m[8].1->Array_0;
    assert(a.len() == all.len());
    assert forall|i: int| 0 <= i < below.len() implies #[trigger] a[i + 1] == JsonView::Str(
        below[i],
    ) by {
        assert(all[i + 1] == below[i]);
    }
    lemma_layer_tame(layer, 1);
    let n = layer_json(layer)->Object_0;
    json::lemma_members_at(n);
    assert(n[0].0 == "backend"@);
    assert(n[1].0 == "format"@);
    assert(n[2].0 == "path"@);
    assert(n[3].0 == "store"@);
}

/// What an upper layer counts: every file is an entry, and only a regular one has bytes; neither
/// count wraps.
pub proof fn law_snapshot_counts(s: SnapshotStats, kind: FileKind, len: u64)
    ensures
        s.entries < u64::MAX ==> counted(s, kind, len).entries == s.entries + 1,
        s.entries == u64::MAX ==> counted(s, kind, len).entries == u64::MAX,
        kind == FileKind::File && s.bytes + len <= u64::MAX ==> counted(s, kind, len).bytes
            == s.bytes + len,
        kind == FileKind::File && s.bytes + len > u64::MAX ==> counted(s, kind, len).bytes
            == u64::MAX,
        kind != FileKind::File ==> counted(s, kind, len).bytes == s.bytes,
{
}

/// A limit of zero is none; otherwise what is over a limit is refused and what is not over it is not.
pub proof fn law_snapshot_limits(s: SnapshotStats, max_bytes: u64, max_entries: u64)
    ensures
        limit_fault(s, max_bytes, max_entries) is Some <==> (max_bytes != 0 && s.bytes > max_bytes)
            || (max_entries != 0 && s.entries > max_entries),
{
}

/// What is copied of a file: it is made first, a directory is entered only once it is made and gets
/// its mode only once it was filled, and everything that is made gets its owner and attributes. What
/// a link leads to is left alone, and a socket is not copied.
pub proof fn law_copy_steps(kind: FileKind)
    ensures
        ({
            let ops = copy_ops(kind);
            &&& ops.len() == 0 <==> kind == FileKind::Socket || kind == FileKind::Other
            &&& ops.len() > 0 ==> ops.contains(CopyOp::SetOwner) && ops.contains(
                CopyOp::CopyAttributes,
            )
            &&& kind == FileKind::Directory ==> ops.len() == 5 && ops[0] == CopyOp::MakeDir
                && ops[1] == CopyOp::Descend && ops[2] == CopyOp::SetMode && ops[3]
                == CopyOp::SetOwner && ops[4] == CopyOp::CopyAttributes
            &&& kind == FileKind::File ==> ops[0] == CopyOp::CopyFile && ops[1] == CopyOp::SetMode
            &&& kind == FileKind::Symlink ==> ops[0] == CopyOp::MakeLink && !ops.contains(
                CopyOp::SetMode,
            )
            &&& kind == FileKind::Fifo ==> ops[0] == CopyOp::MakeFifo && ops[1] == CopyOp::SetMode
            &&& kind == FileKind::CharDevice || kind == FileKind::BlockDevice ==> ops[0]
                == CopyOp::MakeNode && ops[1] == CopyOp::SetMode
        }),
{
    let ops = copy_ops(kind);
    if ops.len() > 0 {
        assert(ops[ops.len() - 1] == CopyOp::CopyAttributes || ops[ops.len() - 1]
            == CopyOp::SetOwner);
        assert(ops[ops.len() - 2] == CopyOp::CopyAttributes || ops[ops.len() - 2]
            == CopyOp::SetOwner);
    }
}

/// A layer is sealed from the inside out: a directory's own right to write goes last, and what a
/// link leads to is left alone.
pub proof fn law_seal_steps(kind: FileKind)
    ensures
        kind == FileKind::Symlink ==> seal_ops(kind).len() == 0,
        kind == FileKind::Directory ==> seal_ops(kind) == seq![SealOp::Descend, SealOp::TakeWrite],
        kind != FileKind::Symlink && kind != FileKind::Directory ==> seal_ops(kind) == seq![
            SealOp::TakeWrite,
        ],
{
}

/// A container can be kept while nothing of it runs; one that was created but not started can be
/// checkpointed as well.
pub proof fn law_kept_while_still(
    id: Seq<char>,
    op: Seq<char>,
    there: bool,
    status: Option<Seq<char>>,
    pid: int,
    alive: bool,
)
    ensures
        stopped_fault(id, op, there, status, pid, alive) is None <==> there && !(pid > 0 && alive),
        quiescent_fault(id, there, status, pid, alive) is None <==> there && (!(pid > 0 && alive)
            || status == Some("created"@)),
{
}

/// What is read of a snapshot: the list of its lower layers, or the one where there is no list; one
/// of another backend is refused.
pub proof fn law_snapshot_read(v: JsonView)
    ensures
        snapshot_in(v) matches Ok(m) ==> {
            let list = json::field(v, "lowerdirs"@);
            &&& json::field(v, "backend"@) == Some(JsonView::Str("overlayfs"@))
            &&& list matches Some(JsonView::Array(a)) ==> json::lists_texts(list, m.lowerdirs)
            &&& !(list matches Some(JsonView::Array(_))) ==> m.lowerdirs.len() == 1 && json::field(
                v,
                "lowerdir"@,
            ) == Some(JsonView::Str(m.lowerdirs[0]))
            &&& json::field(v, "bundle"@) matches Some(JsonView::Str(t)) ==> m.bundle == t
            &&& json::field(v, "resetCount"@) matches Some(JsonView::UInt(n)) ==> m.reset_count
                == n
        },
        checkpoint_in(v) matches Ok(m) ==> {
            &&& json::field(v, "kind"@) == Some(JsonView::Str("checkpoint"@))
            &&& json::field(v, "backend"@) == Some(JsonView::Str("overlayfs"@))
            &&& json::lists_texts(json::field(v, "lowerdirs"@), m.lowerdirs)
            &&& m.lowerdirs.len() > 0
            &&& json::field(v, "bundle"@) matches Some(JsonView::Str(t)) ==> m.bundle == t
            &&& json::field(v, "resetCount"@) matches Some(JsonView::UInt(n)) ==> m.reset_count
                == n
        },
        json::field(v, "backend"@) != Some(JsonView::Str("overlayfs"@)) ==> snapshot_in(v) is Err
            && checkpoint_in(v) is Err,
        json::field(v, "kind"@) != Some(JsonView::Str("checkpoint"@)) ==> checkpoint_in(v) is Err,
{
    match json::field(v, "lowerdirs"@) {
        Some(JsonView::Array(a)) => {
            overlay::lemma_all_texts_of(a);
        },
        _ => {},
    }
}

/// A name that can be kept under is one name: not empty, not `.` or `..`, without a slash or a NUL.
pub proof fn law_names_refused(name: Seq<char>, label: Seq<char>)
    ensures
        name_fault(name, label) is None <==> name.len() > 0 && name != "."@ && name != ".."@
            && !name.contains('/') && !name.contains('\0'),
{
    assert(text::has_char(name, '/') <==> name.contains('/'));
    assert(text::has_char(name, '\0') <==> name.contains('\0'));
}

/// The first lower layer that is not there is the one complained of, and there is a complaint only
/// if one is not there.
pub proof fn law_missing_layer(label: Seq<char>, l: Seq<Seq<char>>, is_dir: Seq<bool>, k: int)
    requires
        is_dir.len() == l.len(),
        0 <= k <= l.len(),
        forall|i: int| 0 <= i < k ==> #[trigger] is_dir[i],
    ensures
        k == l.len() ==> missing_layer(label, l, is_dir, 0) is None,
        k < l.len() && !is_dir[k] ==> missing_layer(label, l, is_dir, 0) == Some(
            label + " lowerdir "@ + l[k] + " is not available"@,
        ),
{
    lemma_missing_from(label, l, is_dir, 0, k);
}

proof fn lemma_missing_from(label: Seq<char>, l: Seq<Seq<char>>, is_dir: Seq<bool>, i: int, k: int)
    requires
        0 <= i <= k <= l.len(),
        forall|j: int| 0 <= j < k ==> #[trigger] is_dir[j],
    ensures
        missing_layer(label, l, is_dir, i) == missing_layer(label, l, is_dir, k),
    decreases k - i,
{
    if i < k {
        assert(is_dir[i]);
        lemma_missing_from(label, l, is_dir, i + 1, k);
    }
}

} // verus!
