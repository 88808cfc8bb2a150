//! Layered root filesystems: where their layers are, and what is kept of that.

use vstd::prelude::*;
use vstd::string::*;
use vstd::utf8::*;

use crate::clone::EINVAL;
use crate::error::{Error, ErrorKind};
use crate::hooks;
use crate::hooks::strings_to_json;
use crate::json;
use crate::json::{get_items, get_text, get_u64_or, named, parse_json, render_json, Json, JsonView};
use crate::order;
use crate::path;
use crate::path::{join, names_of};
use crate::spec::{RootfsBackend, Spec};
use crate::text;
use crate::text::{cat2, cat3, contains_char, join_texts, owned, split, str_eq};

verus! {

pub const ENOENT: i32 = 2;

/// The layers of a root filesystem and where they are seen as one.
#[derive(Debug)]
pub struct OverlayRootfs {
    /// What is below, the uppermost first.
    pub lowerdirs: Vec<String>,
    /// What the container changes.
    pub upperdir: String,
    /// Where the kernel prepares changes.
    pub workdir: String,
    /// Where it all is mounted.
    pub merged: String,
}

/// What the layers are.
pub struct OverlayView {
    pub lowerdirs: Seq<Seq<char>>,
    pub upperdir: Seq<char>,
    pub workdir: Seq<char>,
    pub merged: Seq<char>,
}

impl View for OverlayRootfs {
    type V = OverlayView;

    open spec fn view(&self) -> OverlayView {
        OverlayView {
            lowerdirs: text::texts(self.lowerdirs@),
            upperdir: self.upperdir@,
            workdir: self.workdir@,
            merged: self.merged@,
        }
    }
}

/// A path below the state directory: the one that is configured, seen from there, or a default.
pub open spec fn state_path(root: Seq<char>, configured: Option<Seq<char>>, default: Seq<char>) -> Seq<
    char,
> {
    match configured {
        Some(p) => path::joined(root, p),
        None => default,
    }
}

/// A path below the state directory.
pub fn resolve_state_path(root: &str, configured: &Option<String>, default: String) -> (r: String)
    ensures
        r@ == state_path(root@, text::opt_text(*configured), default@),
{
    match configured {
        Some(p) => join(root, p.as_str()),
        None => default,
    }
}

/// A path of the bundle, before links in it are followed.
pub fn resolve_bundle_path(bundle: &str, p: &str) -> (r: String)
    ensures
        r@ == path::joined(bundle@, p@),
{
    join(bundle, p)
}

/// Rejects a kind of storage that there is none of.
pub fn check_backend(cfg: &RootfsBackend) -> (r: Result<(), Error>)
    ensures
        match r {
            Ok(()) => cfg.backend@ == "overlayfs"@,
            Err(e) => cfg.backend@ != "overlayfs"@ && e@ == "rootfs backend "@ + cfg.backend@
                + " is not supported"@,
        },
{
    if str_eq(cfg.backend.as_str(), "overlayfs") {
        Ok(())
    } else {
        Err(Error::new(cat3("rootfs backend ", cfg.backend.as_str(), " is not supported")))
    }
}

/// The lowest layer, before links in it are followed: the one that is configured, or the root
/// filesystem of the bundle.
pub open spec fn lower_path(s: Spec, cfg: RootfsBackend) -> Seq<char> {
    path::joined(
        s.bundle@,
        match cfg.lowerdir {
            Some(d) => d@,
            None => s.root_path@,
        },
    )
}

/// The lowest layer, before links in it are followed.
pub fn overlay_lower(s: &Spec, cfg: &RootfsBackend) -> (r: String)
    ensures
        r@ == lower_path(*s, *cfg),
{
    match &cfg.lowerdir {
        Some(d) => resolve_bundle_path(s.bundle.as_str(), d.as_str()),
        None => resolve_bundle_path(s.bundle.as_str(), s.root_path.as_str()),
    }
}

/// The layers of a container whose state is at `root` and whose lowest layer is `lowerdir`.
pub open spec fn layers(root: Seq<char>, cfg: RootfsBackend, lowerdir: Seq<char>) -> OverlayView {
    let base = path::joined(root, "overlay"@);
    OverlayView {
        lowerdirs: seq![lowerdir],
        upperdir: state_path(root, text::opt_text(cfg.upperdir), path::joined(base, "upper"@)),
        workdir: state_path(root, text::opt_text(cfg.workdir), path::joined(base, "work"@)),
        merged: state_path(root, text::opt_text(cfg.merged), path::joined(base, "merged"@)),
    }
}

/// The layers of a container.
pub fn overlay_paths(root: &str, cfg: &RootfsBackend, lowerdir: String) -> (o: OverlayRootfs)
    ensures
        o@ == layers(root@, *cfg, lowerdir@),
{
    let base = join(root, "overlay");
    let b = base.as_str();
    let ghost low = lowerdir@;
    let lowerdirs = vec![lowerdir];
    proof {
        assert(text::texts(lowerdirs@) =~= seq![low]);
    }
    OverlayRootfs {
        lowerdirs,
        upperdir: resolve_state_path(root, &cfg.upperdir, join(b, "upper")),
        workdir: resolve_state_path(root, &cfg.workdir, join(b, "work")),
        merged: resolve_state_path(root, &cfg.merged, join(b, "merged")),
    }
}

/// Where names lead from the root, going back at each `..`; nowhere, if that goes back too far.
pub open spec fn lexical(ns: Seq<Seq<char>>) -> Option<Seq<Seq<char>>>
    decreases ns.len(),
{
    if ns.len() == 0 {
        Some(Seq::empty())
    } else {
        match lexical(ns.drop_last()) {
            None => None,
            Some(at) => if ns.last() == ".."@ {
                if at.len() == 0 {
                    None
                } else {
                    Some(at.drop_last())
                }
            } else {
                Some(at.push(ns.last()))
            },
        }
    }
}

/// Where a path leads, seen from the working directory.
pub open spec fn resolved(p: Seq<char>, cwd: Seq<char>) -> Option<Seq<Seq<char>>> {
    lexical(path::names(path::joined(cwd, p)))
}

/// Where names lead is settled step by step.
proof fn lemma_lexical_stuck(ns: Seq<Seq<char>>, k: int)
    requires
        0 <= k <= ns.len(),
        lexical(ns.subrange(0, k)) is None,
    ensures
        lexical(ns) is None,
    decreases ns.len() - k,
{
    if k == ns.len() {
        assert(ns.subrange(0, k) =~= ns);
    } else {
        assert(ns.subrange(0, k + 1).drop_last() =~= ns.subrange(0, k));
        lemma_lexical_stuck(ns, k + 1);
    }
}

/// Where a path leads, seen from the working directory, without looking at the filesystem.
pub fn absolute_lexical(p: &str, cwd: &str) -> (r: Result<Vec<String>, Error>)
    requires
        path::absolute(cwd@),
    ensures
        match r {
            Ok(v) => resolved(p@, cwd@) == Some(text::texts(v@)),
            Err(e) => resolved(p@, cwd@) is None && e@ == "path "@ + p@ + " escapes its root"@,
        },
{
    let abs = join(cwd, p);
    let ns = names_of(abs.as_str());
    let ghost all = text::texts(ns@);
    let mut out: Vec<String> = Vec::new();
    let mut i: usize = 0;
    proof {
        assert(all.subrange(0, 0) =~= Seq::<Seq<char>>::empty());
        assert(text::texts(out@) =~= Seq::<Seq<char>>::empty());
    }
    while i < ns.len()
        invariant
            i <= ns.len(),
            all == text::texts(ns@),
            all == path::names(path::joined(cwd@, p@)),
            lexical(all.subrange(0, i as int)) == Some(text::texts(out@)),
        decreases ns.len() - i,
    {
        let ghost was = out@;
        proof {
            let part = all.subrange(0, i + 1);
            assert(part.drop_last() =~= all.subrange(0, i as int));
            assert(part.last() == ns@[i as int]@);
            assert(text::texts(was).len() == was.len());
        }
        if str_eq(ns[i].as_str(), "..") {
            if out.len() == 0 {
                proof {
                    lemma_lexical_stuck(all, i + 1);
                }
                return Err(Error::new(cat3("path ", p, " escapes its root")));
            }
            let _ = out.pop();
            proof {
                assert(text::texts(out@) =~= text::texts(was).drop_last());
            }
        } else {
            out.push(ns[i].clone());
            proof {
                assert(text::texts(out@) =~= text::texts(was).push(ns@[i as int]@));
            }
        }
        i += 1;
    }
    proof {
        assert(all.subrange(0, all.len() as int) =~= all);
    }
    Ok(out)
}

/// The path that names lead along from the root.
pub open spec fn rooted(ns: Seq<Seq<char>>) -> Seq<char> {
    "/"@ + text::joined_texts(ns, "/"@)
}

/// Whether names begin with others.
pub open spec fn begins(ns: Seq<Seq<char>>, with: Seq<Seq<char>>) -> bool {
    ns.len() >= with.len() && ns.take(with.len() as int) == with
}

/// Whether names begin with others.
fn begins_with(ns: &Vec<String>, with: &Vec<String>) -> (r: bool)
    ensures
        r == begins(text::texts(ns@), text::texts(with@)),
{
    let ghost a = text::texts(ns@);
    let ghost b = text::texts(with@);
    if ns.len() < with.len() {
        return false;
    }
    let mut i: usize = 0;
    while i < with.len()
        invariant
            i <= with.len() <= ns.len(),
            a == text::texts(ns@),
            b == text::texts(with@),
            forall|k: int| 0 <= k < i ==> a[k] == b[k],
        decreases with.len() - i,
    {
        if !str_eq(ns[i].as_str(), with[i].as_str()) {
            proof {
                assert(a.take(b.len() as int)[i as int] != b[i as int]);
            }
            return false;
        }
        i += 1;
    }
    proof {
        assert(a.take(b.len() as int) =~= b);
    }
    true
}

/// What is wrong with a path as an option of the mount, if anything.
pub open spec fn option_fault(p: Seq<char>) -> Option<Seq<char>> {
    if text::has_char(p, ',') || text::has_char(p, '\n') || text::has_char(p, '\0') {
        Some("overlay path "@ + p + " contains an unsupported character"@)
    } else {
        None
    }
}

/// Rejects a path that the options of the mount cannot hold.
pub fn reject_overlay_option_chars(p: &str) -> (r: Result<(), Error>)
    ensures
        match r {
            Ok(()) => option_fault(p@) is None,
            Err(e) => option_fault(p@) == Some(e@),
        },
{
    if contains_char(p, ',') || contains_char(p, '\n') || contains_char(p, '\0') {
        Err(Error::new(cat3("overlay path ", p, " contains an unsupported character")))
    } else {
        Ok(())
    }
}

/// What is wrong with a path as a lower layer, if anything.
pub open spec fn lowerdir_fault(p: Seq<char>) -> Option<Seq<char>> {
    match option_fault(p) {
        Some(f) => Some(f),
        None => if text::has_char(p, ':') {
            Some(
                "overlay lowerdir "@ + p
                    + " contains ':' which is unsupported by this mount path"@,
            )
        } else {
            None
        },
    }
}

/// Rejects a path that the list of lower layers cannot hold.
pub fn reject_overlay_lowerdir_chars(p: &str) -> (r: Result<(), Error>)
    ensures
        match r {
            Ok(()) => lowerdir_fault(p@) is None,
            Err(e) => lowerdir_fault(p@) == Some(e@),
        },
{
    match reject_overlay_option_chars(p) {
        Ok(()) => {},
        Err(e) => {
            return Err(e);
        },
    }
    if contains_char(p, ':') {
        Err(
            Error::new(
                cat3(
                    "overlay lowerdir ",
                    p,
                    " contains ':' which is unsupported by this mount path",
                ),
            ),
        )
    } else {
        Ok(())
    }
}

/// What is wrong with the lower layers from `i` on, if anything; `is_dir` says which of them are
/// directories.
pub open spec fn lower_fault(l: Seq<Seq<char>>, is_dir: Seq<bool>, i: int) -> Option<Seq<char>>
    decreases l.len() - i,
{
    if i < 0 || i >= l.len() {
        None
    } else if !is_dir[i] {
        Some("overlay lowerdir "@ + l[i] + " is not a directory"@)
    } else {
        match lowerdir_fault(l[i]) {
            Some(f) => Some(f),
            None => lower_fault(l, is_dir, i + 1),
        }
    }
}

/// What is wrong with where a path leads, if anything: it must be below `root`.
pub open spec fn place_fault(
    name: Seq<char>,
    p: Seq<char>,
    root: Seq<Seq<char>>,
    cwd: Seq<char>,
) -> Option<Seq<char>> {
    match resolved(p, cwd) {
        None => Some("path "@ + p + " escapes its root"@),
        Some(at) => if begins(at, root) {
            None
        } else {
            Some(
                "overlay "@ + name + " must be under rsrun state directory "@ + rooted(root),
            )
        },
    }
}

/// Whether a path begins with `.` as a name of its own, which counts in a comparison of paths.
pub open spec fn dotted(p: Seq<char>) -> bool {
    text::pieces(p, '/')[0] == "."@
}

/// Whether two paths are the same, name by name.
pub open spec fn same_path(p: Seq<char>, q: Seq<char>) -> bool {
    path::absolute(p) == path::absolute(q) && dotted(p) == dotted(q) && path::names(p)
        == path::names(q)
}

/// The first of several faults.
pub open spec fn first_fault(a: Option<Seq<char>>, b: Option<Seq<char>>) -> Option<Seq<char>> {
    match a {
        Some(f) => Some(f),
        None => b,
    }
}

/// What is wrong with the places of the layers, if anything.
pub open spec fn places_fault(o: OverlayView, root: Seq<char>, cwd: Seq<char>) -> Option<Seq<char>> {
    match resolved(root, cwd) {
        None => Some("path "@ + root + " escapes its root"@),
        Some(r) => first_fault(
            place_fault("upperdir"@, o.upperdir, r, cwd),
            first_fault(
                place_fault("workdir"@, o.workdir, r, cwd),
                first_fault(
                    place_fault("merged"@, o.merged, r, cwd),
                    if same_path(o.upperdir, o.workdir) || same_path(o.upperdir, o.merged)
                        || same_path(o.workdir, o.merged) {
                        Some("overlay upperdir, workdir, and merged must be distinct"@)
                    } else {
                        None
                    },
                ),
            ),
        ),
    }
}

/// What is wrong with the layers, if anything.
pub open spec fn overlay_fault(
    o: OverlayView,
    is_dir: Seq<bool>,
    root: Seq<char>,
    cwd: Seq<char>,
) -> Option<Seq<char>> {
    if o.lowerdirs.len() == 0 {
        Some("overlay lowerdir chain is empty"@)
    } else {
        first_fault(
            lower_fault(o.lowerdirs, is_dir, 0),
            first_fault(
                option_fault(o.upperdir),
                first_fault(
                    option_fault(o.workdir),
                    first_fault(option_fault(o.merged), places_fault(o, root, cwd)),
                ),
            ),
        )
    }
}

/// Whether a path begins with `.` as a name of its own.
fn is_dotted(p: &str) -> (r: bool)
    ensures
        r == dotted(p@),
{
    let v = split(p, '/');
    proof {
        text::lemma_pieces_nonempty(p@, '/');
        assert(text::texts(v@).len() == v@.len());
        assert(text::texts(v@)[0] == v@[0]@);
    }
    str_eq(v[0].as_str(), ".")
}

/// Whether two lists of texts are the same.
fn same_texts(a: &Vec<String>, b: &Vec<String>) -> (r: bool)
    ensures
        r == (text::texts(a@) == text::texts(b@)),
{
    proof {
        assert(text::texts(a@).len() == a@.len());
        assert(text::texts(b@).len() == b@.len());
    }
    if a.len() != b.len() {
        return false;
    }
    let r = begins_with(a, b);
    proof {
        assert(text::texts(a@).take(b@.len() as int) =~= text::texts(a@));
    }
    r
}

/// Whether two paths are the same, name by name.
pub fn paths_equal(p: &str, q: &str) -> (r: bool)
    ensures
        r == same_path(p@, q@),
{
    path::is_absolute(p) == path::is_absolute(q) && is_dotted(p) == is_dotted(q) && same_texts(
        &names_of(p),
        &names_of(q),
    )
}

/// Rejects a path that does not lead below `root`.
fn check_place(name: &str, p: &str, root: &Vec<String>, cwd: &str) -> (r: Result<(), Error>)
    requires
        path::absolute(cwd@),
    ensures
        match r {
            Ok(()) => place_fault(name@, p@, text::texts(root@), cwd@) is None,
            Err(e) => place_fault(name@, p@, text::texts(root@), cwd@) == Some(e@),
        },
{
    let at = match absolute_lexical(p, cwd) {
        Ok(at) => at,
        Err(e) => {
            return Err(e);
        },
    };
    if begins_with(&at, root) {
        return Ok(());
    }
    let mut s = owned("overlay ");
    s.append(name);
    s.append(" must be under rsrun state directory ");
    let shown = cat2("/", join_texts(root, "/").as_str());
    s.append(shown.as_str());
    Err(Error::new(s))
}

/// Rejects layers whose places are wrong.
fn check_places(o: &OverlayRootfs, root: &str, cwd: &str) -> (r: Result<(), Error>)
    requires
        path::absolute(cwd@),
    ensures
        match r {
            Ok(()) => places_fault(o@, root@, cwd@) is None,
            Err(e) => places_fault(o@, root@, cwd@) == Some(e@),
        },
{
    let at = match absolute_lexical(root, cwd) {
        Ok(at) => at,
        Err(e) => {
            return Err(e);
        },
    };
    match check_place("upperdir", o.upperdir.as_str(), &at, cwd) {
        Ok(()) => {},
        Err(e) => {
            return Err(e);
        },
    }
    match check_place("workdir", o.workdir.as_str(), &at, cwd) {
        Ok(()) => {},
        Err(e) => {
            return Err(e);
        },
    }
    match check_place("merged", o.merged.as_str(), &at, cwd) {
        Ok(()) => {},
        Err(e) => {
            return Err(e);
        },
    }
    if paths_equal(o.upperdir.as_str(), o.workdir.as_str()) || paths_equal(
        o.upperdir.as_str(),
        o.merged.as_str(),
    ) || paths_equal(o.workdir.as_str(), o.merged.as_str()) {
        return Err(
            Error::new(owned("overlay upperdir, workdir, and merged must be distinct")),
        );
    }
    Ok(())
}

/// Rejects lower layers that cannot be mounted.
fn check_lower(l: &Vec<String>, is_dir: &Vec<bool>) -> (r: Result<(), Error>)
    requires
        is_dir@.len() == l@.len(),
    ensures
        match r {
            Ok(()) => lower_fault(text::texts(l@), is_dir@, 0) is None,
            Err(e) => lower_fault(text::texts(l@), is_dir@, 0) == Some(e@),
        },
{
    let ghost all = text::texts(l@);
    let mut i: usize = 0;
    while i < l.len()
        invariant
            i <= l.len(),
            is_dir@.len() == l@.len(),
            all == text::texts(l@),
            lower_fault(all, is_dir@, 0) == lower_fault(all, is_dir@, i as int),
        decreases l.len() - i,
    {
        if !is_dir[i] {
            return Err(
                Error::new(cat3("overlay lowerdir ", l[i].as_str(), " is not a directory")),
            );
        }
        match reject_overlay_lowerdir_chars(l[i].as_str()) {
            Ok(()) => {},
            Err(e) => {
                return Err(e);
            },
        }
        i += 1;
    }
    Ok(())
}

/// Rejects layers that must not be mounted. `is_dir` says which of the lower layers are directories,
/// `root` is the state directory of the container. What is accepted lies below the state directory,
/// so that removing a container's layers can touch nothing else.
pub fn validate_overlay_paths(o: &OverlayRootfs, is_dir: &Vec<bool>, root: &str, cwd: &str) -> (r:
    Result<(), Error>)
    requires
        is_dir@.len() == o.lowerdirs@.len(),
        path::absolute(cwd@),
    ensures
        match r {
            Ok(()) => overlay_fault(o@, is_dir@, root@, cwd@) is None,
            Err(e) => overlay_fault(o@, is_dir@, root@, cwd@) == Some(e@),
        },
{
    proof {
        assert(o@.lowerdirs.len() == o.lowerdirs@.len());
    }
    if o.lowerdirs.len() == 0 {
        return Err(Error::new(owned("overlay lowerdir chain is empty")));
    }
    match check_lower(&o.lowerdirs, is_dir) {
        Ok(()) => {},
        Err(e) => {
            return Err(e);
        },
    }
    match reject_overlay_option_chars(o.upperdir.as_str()) {
        Ok(()) => {},
        Err(e) => {
            return Err(e);
        },
    }
    match reject_overlay_option_chars(o.workdir.as_str()) {
        Ok(()) => {},
        Err(e) => {
            return Err(e);
        },
    }
    match reject_overlay_option_chars(o.merged.as_str()) {
        Ok(()) => {},
        Err(e) => {
            return Err(e);
        },
    }
    check_places(o, root, cwd)
}

/// Accepted layers lie below the state directory, whatever `..` their paths hold, and apart from each
/// other.
pub proof fn law_layers_confined(o: OverlayView, is_dir: Seq<bool>, root: Seq<char>, cwd: Seq<char>)
    requires
        overlay_fault(o, is_dir, root, cwd) is None,
    ensures
        resolved(root, cwd) is Some,
        resolved(o.upperdir, cwd) is Some,
        resolved(o.workdir, cwd) is Some,
        resolved(o.merged, cwd) is Some,
        begins(resolved(o.upperdir, cwd)->Some_0, resolved(root, cwd)->Some_0),
        begins(resolved(o.workdir, cwd)->Some_0, resolved(root, cwd)->Some_0),
        begins(resolved(o.merged, cwd)->Some_0, resolved(root, cwd)->Some_0),
        o.upperdir != o.workdir,
        o.upperdir != o.merged,
        o.workdir != o.merged,
{
}

/// The options of the mount.
pub open spec fn mount_options(o: OverlayView) -> Seq<char> {
    "lowerdir="@ + text::joined_texts(o.lowerdirs, ":"@) + ",upperdir="@ + o.upperdir + ",workdir="@
        + o.workdir
}

/// The options of the mount, which is of the type `overlay` and without flags.
pub fn mount_overlay(o: &OverlayRootfs) -> (s: String)
    ensures
        s@ == mount_options(o@),
{
    let mut s = owned("lowerdir=");
    let l = join_texts(&o.lowerdirs, ":");
    s.append(l.as_str());
    s.append(",upperdir=");
    s.append(o.upperdir.as_str());
    s.append(",workdir=");
    s.append(o.workdir.as_str());
    s
}

/// Layers that pass have no colon in their paths.
proof fn lemma_no_colon(l: Seq<Seq<char>>, is_dir: Seq<bool>, i: int, k: int)
    requires
        0 <= i <= k < l.len(),
        lower_fault(l, is_dir, i) is None,
    ensures
        lowerdir_fault(l[k]) is None,
    decreases k - i,
{
    if i < k {
        lemma_no_colon(l, is_dir, i + 1, k);
    }
}

/// The lower layers of accepted layers can be told apart in the options of the mount.
pub proof fn law_lower_layers_told_apart(
    o: OverlayView,
    is_dir: Seq<bool>,
    root: Seq<char>,
    cwd: Seq<char>,
)
    requires
        overlay_fault(o, is_dir, root, cwd) is None,
    ensures
        text::pieces(text::joined_texts(o.lowerdirs, ":"@), ':') == o.lowerdirs,
{
    reveal_strlit(":");
    assert(":"@ =~= seq![':']);
    assert forall|i: int| 0 <= i < o.lowerdirs.len() implies !text::has_char(
        #[trigger] o.lowerdirs[i],
        ':',
    ) by {
        lemma_no_colon(o.lowerdirs, is_dir, 0, i);
    }
    text::law_split_undoes_join(o.lowerdirs, ':', ":"@);
}

/// What is kept of the layers, and how often they were reset.
pub open spec fn overlay_json(o: OverlayView, reset_count: u64) -> JsonView {
    JsonView::Object(
        seq![
            ("backend"@, JsonView::Str("overlayfs"@)),
            (
                "lowerdir"@,
                if o.lowerdirs.len() == 0 {
                    JsonView::Null
                } else {
                    JsonView::Str(o.lowerdirs[0])
                },
            ),
            ("lowerdirs"@, hooks::strings_json(o.lowerdirs)),
            ("merged"@, JsonView::Str(o.merged)),
            ("resetCount"@, JsonView::UInt(reset_count)),
            ("upperdir"@, JsonView::Str(o.upperdir)),
            ("workdir"@, JsonView::Str(o.workdir)),
        ],
    )
}

/// The keys are in order.
proof fn lemma_overlay_keys(o: OverlayView, n: u64)
    ensures
        json::in_key_order(overlay_json(o, n)->Object_0),
        json::tame(overlay_json(o, n), json::read_depth()),
{
    reveal_strlit("backend");
    reveal_strlit("lowerdir");
    reveal_strlit("lowerdirs");
    reveal_strlit("merged");
    reveal_strlit("resetCount");
    reveal_strlit("upperdir");
    reveal_strlit("workdir");
    order::lemma_first_difference("backend"@, "lowerdir"@, 0);
    order::lemma_prefix_before("lowerdir"@, "lowerdirs"@);
    order::lemma_first_difference("lowerdirs"@, "merged"@, 0);
    order::lemma_first_difference("merged"@, "resetCount"@, 0);
    order::lemma_first_difference("resetCount"@, "upperdir"@, 0);
    order::lemma_first_difference("upperdir"@, "workdir"@, 0);
    let m = overlay_json(o, n)->Object_0;
    json::lemma_adjacent_keys(m);
    let d = (json::read_depth() - 1) as nat;
    hooks::lemma_strings_tame(o.lowerdirs, d);
    assert forall|i: int| 0 <= i < m.len() implies json::tame((#[trigger] m[i]).1, d) by {
    }
}

/// What is kept of the layers.
pub fn write_overlay_state(o: &OverlayRootfs, reset_count: u64) -> (b: Vec<u8>)
    ensures
        b@ == json::rendered(overlay_json(o@, reset_count)),
        json::reads_as(b@, overlay_json(o@, reset_count)),
{
    proof {
        assert(o@.lowerdirs.len() == o.lowerdirs@.len());
    }
    let first = if o.lowerdirs.len() == 0 {
        Json::Null
    } else {
        Json::Str(o.lowerdirs[0].clone())
    };
    let doc = Json::Object(
        vec![
            named("backend", Json::Str(owned("overlayfs"))),
            named("lowerdir", first),
            named("lowerdirs", strings_to_json(&o.lowerdirs)),
            named("merged", Json::Str(o.merged.clone())),
            named("resetCount", Json::UInt(reset_count)),
            named("upperdir", Json::Str(o.upperdir.clone())),
            named("workdir", Json::Str(o.workdir.clone())),
        ],
    );
    proof {
        assert(doc@->Object_0 =~= overlay_json(o@, reset_count)->Object_0);
        lemma_overlay_keys(o@, reset_count);
    }
    render_json(&doc)
}

/// Texts that all elements of a list are; none where one is no text.
pub open spec fn all_texts(a: Seq<JsonView>) -> Option<Seq<Seq<char>>>
    decreases a.len(),
{
    if a.len() == 0 {
        Some(Seq::empty())
    } else {
        match (all_texts(a.drop_last()), json::text_at(Some(a.last()))) {
            (Some(head), Some(t)) => Some(head.push(t)),
            _ => None,
        }
    }
}

/// The lower layers in what was kept, or what is wrong.
pub open spec fn kept_lowerdirs(v: JsonView) -> Result<Seq<Seq<char>>, Seq<char>> {
    match json::items_at(json::field(v, "lowerdirs"@)) {
        Some(a) => match all_texts(a) {
            Some(l) => Ok(l),
            None => Err("overlay metadata has invalid lowerdirs"@),
        },
        None => match json::text_at(json::field(v, "lowerdir"@)) {
            Some(t) => Ok(seq![t]),
            None => Err("overlay metadata missing lowerdir"@),
        },
    }
}

/// The layers in what was kept, or what is wrong.
pub open spec fn kept_overlay(v: JsonView) -> Result<(OverlayView, u64), Seq<char>> {
    if json::text_at(json::field(v, "backend"@)) != Some("overlayfs"@) {
        Err("container is not overlayfs-backed"@)
    } else {
        match kept_lowerdirs(v) {
            Err(f) => Err(f),
            Ok(lowerdirs) => match (
                json::text_at(json::field(v, "upperdir"@)),
                json::text_at(json::field(v, "workdir"@)),
                json::text_at(json::field(v, "merged"@)),
            ) {
                (None, _, _) => Err("overlay metadata missing upperdir"@),
                (Some(_), None, _) => Err("overlay metadata missing workdir"@),
                (Some(_), Some(_), None) => Err("overlay metadata missing merged"@),
                (Some(upperdir), Some(workdir), Some(merged)) => Ok(
                    (
                        OverlayView { lowerdirs, upperdir, workdir, merged },
                        json::u64_or(json::field(v, "resetCount"@), 0),
                    ),
                ),
            },
        }
    }
}

/// Texts come out of a list as they went in.
pub proof fn lemma_all_texts(v: Seq<Seq<char>>)
    ensures
        all_texts(hooks::strings_json(v)->Array_0) == Some(v),
    decreases v.len(),
{
    let a = hooks::strings_json(v)->Array_0;
    if v.len() > 0 {
        lemma_all_texts(v.drop_last());
        assert(a.drop_last() =~= hooks::strings_json(v.drop_last())->Array_0);
        assert(v.drop_last().push(v.last()) =~= v);
    } else {
        assert(a =~= Seq::<JsonView>::empty());
        assert(v =~= Seq::<Seq<char>>::empty());
    }
}

/// What is kept of the layers gives them back, with the number of resets.
pub proof fn law_overlay_state_round_trip(o: OverlayView, n: u64)
    ensures
        kept_overlay(overlay_json(o, n)) == Ok::<(OverlayView, u64), Seq<char>>((o, n)),
{
    let v = overlay_json(o, n);
    let m = v->Object_0;
    lemma_overlay_keys(o, n);
    lemma_all_texts(o.lowerdirs);
    json::lemma_member_at(m, 0);
    json::lemma_member_at(m, 1);
    json::lemma_member_at(m, 2);
    json::lemma_member_at(m, 3);
    json::lemma_member_at(m, 4);
    json::lemma_member_at(m, 5);
    json::lemma_member_at(m, 6);
}

/// The texts of a list; none where an element is no text.
pub fn get_all_texts(a: &Vec<Json>) -> (r: Option<Vec<String>>)
    ensures
        match r {
            Some(v) => all_texts(json::views(a@)) == Some(text::texts(v@)),
            None => all_texts(json::views(a@)) is None,
        },
{
    let ghost all = json::views(a@);
    let mut v: Vec<String> = Vec::new();
    let mut i: usize = 0;
    proof {
        assert(all.subrange(0, 0) =~= Seq::<JsonView>::empty());
        assert(text::texts(v@) =~= Seq::<Seq<char>>::empty());
    }
    while i < a.len()
        invariant
            i <= a.len(),
            all == json::views(a@),
            all_texts(all.subrange(0, i as int)) == Some(text::texts(v@)),
        decreases a.len() - i,
    {
        let ghost was = v@;
        proof {
            let part = all.subrange(0, i + 1);
            assert(part.drop_last() =~= all.subrange(0, i as int));
            assert(part.last() == a@[i as int]@);
        }
        match get_text(Some(&a[i])) {
            Some(t) => {
                v.push(owned(t));
                proof {
                    assert(text::texts(v@) =~= text::texts(was).push(t@));
                }
            },
            None => {
                proof {
                    lemma_all_texts_stuck(all, i + 1);
                }
                return None;
            },
        }
        i += 1;
    }
    proof {
        assert(all.subrange(0, all.len() as int) =~= all);
    }
    Some(v)
}

/// One element that is no text spoils the list.
proof fn lemma_all_texts_stuck(a: Seq<JsonView>, k: int)
    requires
        0 <= k <= a.len(),
        all_texts(a.subrange(0, k)) is None,
    ensures
        all_texts(a) is None,
    decreases a.len() - k,
{
    if k == a.len() {
        assert(a.subrange(0, k) =~= a);
    } else {
        assert(a.subrange(0, k + 1).drop_last() =~= a.subrange(0, k));
        lemma_all_texts_stuck(a, k + 1);
    }
}

/// The error for something that is missing.
fn missing(key: &str) -> (e: Error)
    ensures
        e@ == "overlay metadata missing "@ + key@,
        e.kind == ErrorKind::Other,
{
    Error::new(cat2("overlay metadata missing ", key))
}

/// Reads the lower layers.
fn read_lowerdirs(v: &Json) -> (r: Result<Vec<String>, Error>)
    ensures
        match r {
            Ok(l) => kept_lowerdirs(v@) == Ok::<Seq<Seq<char>>, Seq<char>>(text::texts(l@)),
            Err(e) => kept_lowerdirs(v@) == Err::<Seq<Seq<char>>, Seq<char>>(e@) && e.kind
                == ErrorKind::Other,
        },
{
    match get_items(v.get("lowerdirs")) {
        Some(a) => match get_all_texts(a) {
            Some(l) => Ok(l),
            None => Err(Error::new(owned("overlay metadata has invalid lowerdirs"))),
        },
        None => match get_text(v.get("lowerdir")) {
            Some(t) => {
                let l = vec![owned(t)];
                proof {
                    assert(text::texts(l@) =~= seq![t@]);
                }
                Ok(l)
            },
            None => Err(Error::new(owned("overlay metadata missing lowerdir"))),
        },
    }
}

/// What `read_overlay_state` makes of a document.
pub open spec fn kept_result(r: Result<(OverlayRootfs, u64), Error>) -> Result<
    (OverlayView, u64),
    Seq<char>,
> {
    match r {
        Ok(o) => Ok((o.0@, o.1)),
        Err(e) => Err(e@),
    }
}

/// Reads the layers out of a document.
fn overlay_from_json(v: &Json) -> (r: Result<(OverlayRootfs, u64), Error>)
    ensures
        kept_overlay(v@) == kept_result(r),
        r is Err ==> (r->Err_0).kind == ErrorKind::Other,
{
    let backed = match get_text(v.get("backend")) {
        Some(b) => str_eq(b, "overlayfs"),
        None => false,
    };
    if !backed {
        return Err(Error::new(owned("container is not overlayfs-backed")));
    }
    let lowerdirs = match read_lowerdirs(v) {
        Ok(l) => l,
        Err(e) => {
            return Err(e);
        },
    };
    proof {
        reveal_strlit("overlay metadata missing ");
        reveal_strlit("upperdir");
        reveal_strlit("workdir");
        reveal_strlit("merged");
        reveal_strlit("overlay metadata missing upperdir");
        reveal_strlit("overlay metadata missing workdir");
        reveal_strlit("overlay metadata missing merged");
        assert("overlay metadata missing "@ + "upperdir"@ =~= "overlay metadata missing upperdir"@);
        assert("overlay metadata missing "@ + "workdir"@ =~= "overlay metadata missing workdir"@);
        assert("overlay metadata missing "@ + "merged"@ =~= "overlay metadata missing merged"@);
    }
    let upperdir = match get_text(v.get("upperdir")) {
        Some(t) => owned(t),
        None => {
            return Err(missing("upperdir"));
        },
    };
    let workdir = match get_text(v.get("workdir")) {
        Some(t) => owned(t),
        None => {
            return Err(missing("workdir"));
        },
    };
    let merged = match get_text(v.get("merged")) {
        Some(t) => owned(t),
        None => {
            return Err(missing("merged"));
        },
    };
    let n = get_u64_or(v.get("resetCount"), 0);
    Ok((OverlayRootfs { lowerdirs, upperdir, workdir, merged }, n))
}

/// Reads what was kept of the layers, and how often they were reset; what is read is still to be
/// validated.
pub fn read_overlay_state(bytes: &[u8]) -> (r: Result<(OverlayRootfs, u64), Error>)
    ensures
        match json::json_text(bytes@) {
            Err(why) => r is Err && (r->Err_0)@ == why,
            Ok(v) => kept_overlay(v) == kept_result(r),
        },
        r is Err ==> (r->Err_0).kind == json::fault_kind(bytes@),
{
    match parse_json(bytes) {
        Ok(v) => overlay_from_json(&v),
        Err(e) => Err(e),
    }
}

/// One thing done to lay out the root filesystem of a new container.
#[derive(Debug, Clone, Copy, PartialEq, Eq, Structural)]
pub enum PrepareOp {
    /// See that the way of keeping layers is known.
    CheckBackend,
    /// Find the lower layer on the disk.
    FindLower,
    /// Hold the layers against the disk and the state directory.
    Validate,
    MakeUpper,
    MakeWork,
    MakeMerged,
    Mount,
}

/// What is done to lay out the root filesystem: nothing, unless the bundle asks for layers.
pub open spec fn prepare_ops(layered: bool) -> Seq<PrepareOp> {
    if layered {
        seq![
            PrepareOp::CheckBackend,
            PrepareOp::FindLower,
            PrepareOp::Validate,
            PrepareOp::MakeUpper,
            PrepareOp::MakeWork,
            PrepareOp::MakeMerged,
            PrepareOp::Mount,
        ]
    } else {
        Seq::empty()
    }
}

/// Lays out how the root filesystem of a new container is made.
pub fn prepare_overlay_rootfs(s: &Spec) -> (v: Vec<PrepareOp>)
    ensures
        v@ == prepare_ops(s.rootfs_backend is Some),
{
    let v: Vec<PrepareOp> = if s.rootfs_backend.is_some() {
        vec![
            PrepareOp::CheckBackend,
            PrepareOp::FindLower,
            PrepareOp::Validate,
            PrepareOp::MakeUpper,
            PrepareOp::MakeWork,
            PrepareOp::MakeMerged,
            PrepareOp::Mount,
        ]
    } else {
        Vec::new()
    };
    proof {
        assert(v@ =~= prepare_ops(s.rootfs_backend is Some));
    }
    v
}

/// Nothing is made or mounted before the layers were found to be where they may be.
pub proof fn law_prepared_after_validation(k: int)
    requires
        0 <= k < prepare_ops(true).len(),
        prepare_ops(true)[k] != PrepareOp::CheckBackend,
        prepare_ops(true)[k] != PrepareOp::FindLower,
        prepare_ops(true)[k] != PrepareOp::Validate,
    ensures
        prepare_ops(true).take(k).contains(PrepareOp::Validate),
{
    assert(prepare_ops(true).take(k)[2] == PrepareOp::Validate);
}

/// Whether layers that could not be unmounted for this reason are gone all the same.
pub fn unmount_overlay(errno: i32) -> (gone: bool)
    ensures
        gone == (errno == EINVAL || errno == ENOENT),
{
    errno == EINVAL || errno == ENOENT
}

/// A text made of texts without a character, joined without it, is without it.
proof fn lemma_joined_lacks(parts: Seq<Seq<char>>, sep: Seq<char>, c: char)
    requires
        !text::has_char(sep, c),
        forall|i: int| 0 <= i < parts.len() ==> !text::has_char(#[trigger] parts[i], c),
    ensures
        !text::has_char(text::joined_texts(parts, sep), c),
    decreases parts.len(),
{
    if parts.len() > 1 {
        let head = parts.drop_last();
        assert forall|i: int| 0 <= i < head.len() implies !text::has_char(#[trigger] head[i], c) by {
            assert(head[i] == parts[i]);
        }
        lemma_joined_lacks(head, sep, c);
        lemma_sum_lacks(text::joined_texts(head, sep), sep, c);
        lemma_sum_lacks(text::joined_texts(head, sep) + sep, parts.last(), c);
    }
}

/// Two texts without a character, one behind the other.
proof fn lemma_sum_lacks(a: Seq<char>, b: Seq<char>, c: char)
    requires
        !text::has_char(a, c),
        !text::has_char(b, c),
    ensures
        !text::has_char(a + b, c),
{
    assert forall|i: int| 0 <= i < (a + b).len() implies (a + b)[i] != c by {
        if i < a.len() {
            assert((a + b)[i] == a[i]);
        } else {
            assert((a + b)[i] == b[i - a.len()]);
        }
    }
}

/// What the options of the mount of accepted layers say: split at the commas they are three, the
/// lower layers, the upper layer and the work directory, each behind its name; and the value of
/// `lowerdir`, split at the colons, is the lower layers in their own order, the uppermost first.
pub proof fn law_mount_names_layers(
    o: OverlayView,
    is_dir: Seq<bool>,
    root: Seq<char>,
    cwd: Seq<char>,
)
    requires
        overlay_fault(o, is_dir, root, cwd) is None,
    ensures
        ({
            let options = text::pieces(mount_options(o), ',');
            &&& options.len() == 3
            &&& options[0].len() >= 9
            &&& options[0].take(9) == "lowerdir="@
            &&& text::pieces(options[0].skip(9), ':') == o.lowerdirs
            &&& options[1] == "upperdir="@ + o.upperdir
            &&& options[2] == "workdir="@ + o.workdir
        }),
{
    reveal_strlit("lowerdir=");
    reveal_strlit("upperdir=");
    reveal_strlit("workdir=");
    reveal_strlit(",upperdir=");
    reveal_strlit(",workdir=");
    reveal_strlit(":");
    let lower = text::joined_texts(o.lowerdirs, ":"@);
    let sep = seq![','];
    let parts = seq![
        "lowerdir="@ + lower,
        "upperdir="@ + o.upperdir,
        "workdir="@ + o.workdir,
    ];
    assert forall|i: int| 0 <= i < o.lowerdirs.len() implies !text::has_char(
        #[trigger] o.lowerdirs[i],
        ',',
    ) by {
        lemma_no_colon(o.lowerdirs, is_dir, 0, i);
    }
    assert(!text::has_char(":"@, ','));
    lemma_joined_lacks(o.lowerdirs, ":"@, ',');
    lemma_sum_lacks("lowerdir="@, lower, ',');
    lemma_sum_lacks("upperdir="@, o.upperdir, ',');
    lemma_sum_lacks("workdir="@, o.workdir, ',');
    assert(",upperdir="@ =~= sep + "upperdir="@);
    assert(",workdir="@ =~= sep + "workdir="@);
    let one = seq![parts[0]];
    let two = seq![parts[0], parts[1]];
    assert(two.drop_last() =~= one);
    assert(parts.drop_last() =~= two);
    assert(text::joined_texts(one, sep) == parts[0]);
    assert(text::joined_texts(two, sep) == parts[0] + sep + parts[1]);
    assert(text::joined_texts(parts, sep) =~= mount_options(o));
    text::law_split_undoes_join(parts, ',', sep);
    law_lower_layers_told_apart(o, is_dir, root, cwd);
    assert(parts[0].take(9) =~= "lowerdir="@);
    assert(parts[0].skip(9) =~= lower);
}

/// An array that is all texts lists them.
pub proof fn lemma_all_texts_of(a: Seq<JsonView>)
    ensures
        all_texts(a) matches Some(l) ==> json::lists_texts(Some(JsonView::Array(a)), l),
        (exists|i: int| 0 <= i < a.len() && !((#[trigger] a[i]) is Str)) ==> all_texts(a) is None,
    decreases a.len(),
{
    if a.len() > 0 {
        let h = a.drop_last();
        lemma_all_texts_of(h);
        match all_texts(a) {
            Some(l) => {
                let head = all_texts(h)->Some_0;
                assert forall|i: int| 0 <= i < l.len() implies #[trigger] a[i] == JsonView::Str(
                    l[i],
                ) by {
                    if i < h.len() {
                        assert(h[i] == a[i]);
                        assert(head[i] == l[i]);
                    }
                }
            },
            None => {},
        }
        if exists|i: int| 0 <= i < a.len() && !((#[trigger] a[i]) is Str) {
            let i = choose|i: int| 0 <= i < a.len() && !((#[trigger] a[i]) is Str);
            if i < h.len() {
                assert(!(h[i] is Str));
            }
        }
    }
}

/// What is kept of the layers, each under its own name: the lower ones in their order, the first of
/// them also alone, the upper one, the work directory and the place they are seen at.
pub proof fn law_overlay_says(o: OverlayView, n: u64)
    ensures
        ({
            let d = overlay_json(o, n);
            &&& json::field(d, "backend"@) == Some(JsonView::Str("overlayfs"@))
            &&& o.lowerdirs.len() > 0 ==> json::field(d, "lowerdir"@) == Some(
                JsonView::Str(o.lowerdirs[0]),
            )
            &&& json::lists_texts(json::field(d, "lowerdirs"@), o.lowerdirs)
            &&& json::field(d, "merged"@) == Some(JsonView::Str(o.merged))
            &&& json::field(d, "resetCount"@) == Some(JsonView::UInt(n))
            &&& json::field(d, "upperdir"@) == Some(JsonView::Str(o.upperdir))
            &&& json::field(d, "workdir"@) == Some(JsonView::Str(o.workdir))
        }),
{
    lemma_overlay_keys(o, n);
    let m = overlay_json(o, n)->Object_0;
    json::lemma_members_at(m);
    assert(m[0].0 == "backend"@);
    assert(m[1].0 == "lowerdir"@);
    assert(m[2].0 == "lowerdirs"@);
    assert(m[3].0 == "merged"@);
    assert(m[4].0 == "resetCount"@);
    assert(m[5].0 == "upperdir"@);
    assert(m[6].0 == "workdir"@);
}

/// What is read of kept layers, each from its own name.
pub proof fn law_overlay_read(v: JsonView)
    ensures
        kept_overlay(v) matches Ok((o, n)) ==> {
            let list = json::field(v, "lowerdirs"@);
            &&& json::field(v, "backend"@) == Some(JsonView::Str("overlayfs"@))
            &&& list matches Some(JsonView::Array(_)) ==> json::lists_texts(list, o.lowerdirs)
            &&& !(list matches Some(JsonView::Array(_))) ==> o.lowerdirs.len() == 1 && json::field(
                v,
                "lowerdir"@,
            ) == Some(JsonView::Str(o.lowerdirs[0]))
            &&& json::field(v, "upperdir"@) == Some(JsonView::Str(o.upperdir))
            &&& json::field(v, "workdir"@) == Some(JsonView::Str(o.workdir))
            &&& json::field(v, "merged"@) == Some(JsonView::Str(o.merged))
            &&& json::field(v, "resetCount"@) matches Some(JsonView::UInt(k)) ==> n == k
            &&& !(json::field(v, "resetCount"@) matches Some(JsonView::UInt(_))) ==> n == 0
        },
        json::field(v, "backend"@) != Some(JsonView::Str("overlayfs"@)) ==> kept_overlay(v) is Err,
{
    match json::field(v, "lowerdirs"@) {
        Some(JsonView::Array(a)) => {
            lemma_all_texts_of(a);
        },
        _ => {},
    }
}

/// Where the layers of a container are: where it is said, below the container's directory; else
/// in `overlay` there, each in a directory of its own.
pub proof fn law_layer_places(root: Seq<char>, cfg: RootfsBackend, lowerdir: Seq<char>)
    requires
        root.len() > 0,
    ensures
        ({
            let o = layers(root, cfg, lowerdir);
            &&& o.lowerdirs == seq![lowerdir]
            &&& cfg.upperdir matches Some(p) ==> o.upperdir == path::joined(root, p@)
            &&& cfg.workdir matches Some(p) ==> o.workdir == path::joined(root, p@)
            &&& cfg.merged matches Some(p) ==> o.merged == path::joined(root, p@)
            &&& cfg.upperdir is None ==> path::names(o.upperdir) == path::names(root) + seq![
                "overlay"@,
                "upper"@,
            ]
            &&& cfg.workdir is None ==> path::names(o.workdir) == path::names(root) + seq![
                "overlay"@,
                "work"@,
            ]
            &&& cfg.merged is None ==> path::names(o.merged) == path::names(root) + seq![
                "overlay"@,
                "merged"@,
            ]
        }),
{
    reveal_strlit("overlay");
    reveal_strlit("upper");
    reveal_strlit("work");
    reveal_strlit("merged");
    reveal_strlit(".");
    assert("overlay"@.len() == 7 && "upper"@.len() == 5 && "work"@.len() == 4 && "merged"@.len()
        == 6 && "."@.len() == 1);
    assert("overlay"@[0] == 'o' && "upper"@[0] == 'u' && "work"@[0] == 'w' && "merged"@[0] == 'm');
    assert(!text::has_char("overlay"@, '/') && !text::has_char("upper"@, '/') && !text::has_char(
        "work"@,
        '/',
    ) && !text::has_char("merged"@, '/'));
    let base = path::joined(root, "overlay"@);
    path::law_joined_names(root, "overlay"@);
    path::lemma_one_name("overlay"@);
    lemma_place_below(root, base, "upper"@);
    lemma_place_below(root, base, "work"@);
    lemma_place_below(root, base, "merged"@);
}

proof fn lemma_place_below(root: Seq<char>, base: Seq<char>, name: Seq<char>)
    requires
        path::names(base) == path::names(root) + seq!["overlay"@],
        name.len() > 0,
        name != "."@,
        !text::has_char(name, '/'),
    ensures
        path::names(path::joined(base, name)) == path::names(root) + seq!["overlay"@, name],
{
    assert(name[0] != '/');
    path::law_joined_names(base, name);
    path::lemma_one_name(name);
    assert(path::names(root) + seq!["overlay"@] + seq![name] =~= path::names(root) + seq![
        "overlay"@,
        name,
    ]);
}

/// Names without `..` lead where they say, each `..` takes back the name before it, and one with
/// nothing before it leads out.
pub proof fn law_lexical_paths(ns: Seq<Seq<char>>, name: Seq<char>)
    ensures
        name != ".."@ ==> lexical(ns.push(name)) == (match lexical(ns) {
            Some(at) => Some(at.push(name)),
            None => None,
        }),
        name != ".."@ ==> lexical(ns.push(name).push(".."@)) == lexical(ns),
        lexical(seq![".."@]) is None,
        lexical(ns) is None ==> lexical(ns.push(name)) is None,
{
    let n = ns.push(name);
    assert(n.drop_last() =~= ns);
    let b = n.push(".."@);
    assert(b.drop_last() =~= n);
    reveal_with_fuel(lexical, 3);
    assert(seq![".."@].drop_last() =~= Seq::<Seq<char>>::empty());
    assert(seq![".."@].last() == ".."@);
    match lexical(ns) {
        Some(at) => {
            assert(at.push(name).drop_last() =~= at);
        },
        None => {},
    }
}

/// Layers are refused where there is none below, where one below is no directory, or where a path
/// holds what the options of the mount cannot.
pub proof fn law_layers_refused(
    o: OverlayView,
    is_dir: Seq<bool>,
    root: Seq<char>,
    cwd: Seq<char>,
    i: int,
)
    ensures
        o.lowerdirs.len() == 0 ==> overlay_fault(o, is_dir, root, cwd) is Some,
        0 <= i < o.lowerdirs.len() && !is_dir[i] ==> overlay_fault(o, is_dir, root, cwd) is Some,
        0 <= i < o.lowerdirs.len() && (text::has_char(o.lowerdirs[i], ':') || text::has_char(
            o.lowerdirs[i],
            ',',
        )) ==> overlay_fault(o, is_dir, root, cwd) is Some,
        text::has_char(o.upperdir, ',') || text::has_char(o.workdir, ',') || text::has_char(
            o.merged,
            ',',
        ) ==> overlay_fault(o, is_dir, root, cwd) is Some,
{
    if overlay_fault(o, is_dir, root, cwd) is None && 0 <= i < o.lowerdirs.len() {
        lemma_no_colon(o.lowerdirs, is_dir, 0, i);
        lemma_all_dirs(o.lowerdirs, is_dir, 0, i);
    }
}

proof fn lemma_all_dirs(l: Seq<Seq<char>>, is_dir: Seq<bool>, i: int, k: int)
    requires
        0 <= i <= k < l.len(),
        lower_fault(l, is_dir, i) is None,
    ensures
        is_dir[k],
    decreases k - i,
{
    if i < k {
        lemma_all_dirs(l, is_dir, i + 1, k);
    }
}

/// Layers are prepared in order: they are checked, found and validated, then the directories are made
/// and mounted last; a plain directory needs nothing.
pub proof fn law_prepare_steps(layered: bool)
    ensures
        layered ==> prepare_ops(layered) == seq![
            PrepareOp::CheckBackend,
            PrepareOp::FindLower,
            PrepareOp::Validate,
            PrepareOp::MakeUpper,
            PrepareOp::MakeWork,
            PrepareOp::MakeMerged,
            PrepareOp::Mount,
        ],
        !layered ==> prepare_ops(layered).len() == 0,
{
}

} // verus!
