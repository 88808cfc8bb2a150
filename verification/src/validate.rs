//! Whether all that a bundle asks for is supported.

use vstd::prelude::*;
use vstd::string::*;
use vstd::utf8::*;

use crate::error::Error;
use crate::ext;
use crate::hooks;
use crate::hooks::strings_to_json;
use crate::json;
use crate::json::{
    get_at, get_items, get_nonempty, get_strings, get_text, get_text_or, get_u64, named, parse_json,
    render_line, Json, JsonView,
};
use crate::order;
use crate::seccomp::Arch;
use crate::spec;
use crate::spec::Spec;
use crate::steps;
use crate::text;
use crate::text::{cat2, cat3, owned, starts_with, str_eq};

verus! {

/// One reason, where it holds.
pub open spec fn reason(holds: bool, t: Seq<char>) -> Seq<Seq<char>> {
    steps::when(holds, seq![t])
}

/// Adds a reason where it holds.
fn push_reason(reasons: &mut Vec<String>, holds: bool, t: String)
    ensures
        text::texts(final(reasons)@) == text::texts(old(reasons)@) + reason(holds, t@),
{
    let ghost was = text::texts(reasons@);
    if holds {
        reasons.push(t);
    }
    proof {
        assert(text::texts(reasons@) =~= was + reason(holds, t@));
    }
}

/// What is wrong with a resource limit.
pub open spec fn rlimit_reasons(l: JsonView) -> Seq<Seq<char>> {
    match (json::u64_at(json::field(l, "soft"@)), json::u64_at(json::field(l, "hard"@))) {
        (Some(soft), Some(hard)) => reason(
            soft > hard,
            "process.rlimits["@ + json::text_or(json::field(l, "type"@), "unknown"@)
                + "] has soft greater than hard"@,
        ),
        _ => Seq::empty(),
    }
}

/// What is wrong with resource limits.
pub open spec fn all_rlimit_reasons(ls: Seq<JsonView>) -> Seq<Seq<char>>
    decreases ls.len(),
{
    if ls.len() == 0 {
        Seq::empty()
    } else {
        all_rlimit_reasons(ls.drop_last()) + rlimit_reasons(ls.last())
    }
}

/// Adds what is wrong with a resource limit.
fn validate_rlimit(l: &Json, reasons: &mut Vec<String>)
    ensures
        text::texts(final(reasons)@) == text::texts(old(reasons)@) + rlimit_reasons(l@),
{
    let ghost was = text::texts(reasons@);
    let soft = get_u64(l.get("soft"));
    let hard = get_u64(l.get("hard"));
    if let (Some(soft), Some(hard)) = (soft, hard) {
        let kind = get_text_or(l.get("type"), "unknown");
        push_reason(
            reasons,
            soft > hard,
            cat3("process.rlimits[", kind.as_str(), "] has soft greater than hard"),
        );
    } else {
        proof {
            assert(text::texts(reasons@) =~= was + rlimit_reasons(l@));
        }
    }
}

/// The elements of a list; none where there is none.
pub open spec fn items(v: Option<JsonView>) -> Seq<JsonView> {
    match json::items_at(v) {
        Some(a) => a,
        None => Seq::empty(),
    }
}

/// Adds what is wrong with the resource limits of a configuration.
fn validate_rlimits(value: &Json, reasons: &mut Vec<String>)
    ensures
        text::texts(final(reasons)@) == text::texts(old(reasons)@) + all_rlimit_reasons(
            items(json::at(json::field(value@, "process"@), "rlimits"@)),
        ),
{
    let ghost was = text::texts(reasons@);
    let list = match get_items(get_at(value.get("process"), "rlimits")) {
        Some(a) => a,
        None => {
            proof {
                assert(text::texts(reasons@) =~= was + Seq::empty());
            }
            return;
        },
    };
    let ghost all = json::views(list@);
    let mut i: usize = 0;
    proof {
        assert(all.take(0) =~= Seq::<JsonView>::empty());
        assert(text::texts(reasons@) =~= was + all_rlimit_reasons(all.take(0)));
    }
    while i < list.len()
        invariant
            i <= list@.len(),
            all == json::views(list@),
            was == text::texts(old(reasons)@),
            text::texts(reasons@) == was + all_rlimit_reasons(all.take(i as int)),
        decreases list@.len() - i,
    {
        proof {
            assert(all.take(i + 1).drop_last() =~= all.take(i as int));
            assert(all.take(i + 1).last() == list@[i as int]@);
        }
        validate_rlimit(&list[i], reasons);
        i += 1;
        proof {
            steps::lemma_assoc(
                was,
                all_rlimit_reasons(all.take(i - 1)),
                rlimit_reasons(list@[i - 1]@),
            );
        }
    }
    proof {
        assert(all.take(all.len() as int) =~= all);
    }
}

/// Whether a configuration lists a namespace of this kind.
pub open spec fn lists_namespace(namespaces: Seq<JsonView>, kind: Seq<char>) -> bool {
    exists|i: int|
        0 <= i < namespaces.len() && json::text_at(
            json::field(#[trigger] namespaces[i], "type"@),
        ) == Some(kind)
}

/// Whether a configuration lists a namespace of this kind.
fn has_namespace(value: &Json, kind: &str) -> (r: bool)
    ensures
        r == lists_namespace(
            items(json::at(json::field(value@, "linux"@), "namespaces"@)),
            kind@,
        ),
{
    let list = match get_items(get_at(value.get("linux"), "namespaces")) {
        Some(a) => a,
        None => {
            return false;
        },
    };
    let ghost all = json::views(list@);
    let mut i: usize = 0;
    while i < list.len()
        invariant
            i <= list@.len(),
            all == json::views(list@),
            all == items(json::at(json::field(value@, "linux"@), "namespaces"@)),
            forall|k: int|
                0 <= k < i ==> json::text_at(json::field(#[trigger] all[k], "type"@)) != Some(
                    kind@,
                ),
        decreases list@.len() - i,
    {
        if let Some(t) = get_text(list[i].get("type")) {
            if str_eq(t, kind) {
                proof {
                    assert(all[i as int] == list@[i as int]@);
                    assert(json::text_at(json::field(all[i as int], "type"@)) == Some(kind@));
                }
                return true;
            }
        }
        proof {
            assert(all[i as int] == list@[i as int]@);
        }
        i += 1;
    }
    false
}

/// What is wrong with a kernel parameter.
pub open spec fn sysctl_key_reasons(key: Seq<char>, network: bool, uts: bool) -> Seq<Seq<char>> {
    reason("net."@.is_prefix_of(key) && !network, "linux.sysctl."@ + key
        + " requires a network namespace"@) + reason(
        (key == "kernel.hostname"@ || key == "kernel.domainname"@) && !uts,
        "linux.sysctl."@ + key + " requires a UTS namespace"@,
    )
}

/// What is wrong with kernel parameters.
pub open spec fn sysctl_keys_reasons(
    m: Seq<(Seq<char>, JsonView)>,
    network: bool,
    uts: bool,
) -> Seq<Seq<char>>
    decreases m.len(),
{
    if m.len() == 0 {
        Seq::empty()
    } else {
        sysctl_keys_reasons(m.drop_last(), network, uts) + sysctl_key_reasons(
            m.last().0,
            network,
            uts,
        )
    }
}

/// What is wrong with the kernel parameters of a configuration.
pub open spec fn sysctl_reasons(v: JsonView) -> Seq<Seq<char>> {
    match json::members_at(json::at(json::field(v, "linux"@), "sysctl"@)) {
        None => Seq::empty(),
        Some(m) => {
            let namespaces = items(json::at(json::field(v, "linux"@), "namespaces"@));
            reason(
                json::nonempty_text(json::field(v, "hostname"@)) is Some && json::member(
                    m,
                    "kernel.hostname"@,
                ) is Some,
                "linux.sysctl.kernel.hostname conflicts with hostname"@,
            ) + sysctl_keys_reasons(
                m,
                lists_namespace(namespaces, "network"@),
                lists_namespace(namespaces, "uts"@),
            )
        },
    }
}

/// Adds what is wrong with a kernel parameter.
fn validate_sysctl(key: &str, network: bool, uts: bool, reasons: &mut Vec<String>)
    ensures
        text::texts(final(reasons)@) == text::texts(old(reasons)@) + sysctl_key_reasons(
            key@,
            network,
            uts,
        ),
{
    let ghost was = text::texts(reasons@);
    let net = starts_with(key, "net.") && !network;
    push_reason(reasons, net, cat3("linux.sysctl.", key, " requires a network namespace"));
    let host = (str_eq(key, "kernel.hostname") || str_eq(key, "kernel.domainname")) && !uts;
    push_reason(reasons, host, cat3("linux.sysctl.", key, " requires a UTS namespace"));
    proof {
        assert(text::texts(reasons@) =~= was + sysctl_key_reasons(key@, network, uts));
    }
}

/// Adds what is wrong with the kernel parameters of a configuration.
fn validate_sysctls(value: &Json, reasons: &mut Vec<String>)
    ensures
        text::texts(final(reasons)@) == text::texts(old(reasons)@) + sysctl_reasons(value@),
{
    let ghost was = text::texts(reasons@);
    let sysctl = match get_at(value.get("linux"), "sysctl") {
        Some(s) => s,
        None => {
            proof {
                assert(text::texts(reasons@) =~= was + Seq::empty());
            }
            return;
        },
    };
    let m = match sysctl.as_object() {
        Some(m) => m,
        None => {
            proof {
                assert(text::texts(reasons@) =~= was + Seq::empty());
            }
            return;
        },
    };
    let ghost all = json::member_views(m@);
    let network = has_namespace(value, "network");
    let uts = has_namespace(value, "uts");
    let conflict = get_nonempty(value.get("hostname")).is_some() && sysctl.get(
        "kernel.hostname",
    ).is_some();
    push_reason(
        reasons,
        conflict,
        owned("linux.sysctl.kernel.hostname conflicts with hostname"),
    );
    let ghost start = text::texts(reasons@);
    let mut i: usize = 0;
    proof {
        assert(all.take(0) =~= Seq::<(Seq<char>, JsonView)>::empty());
        assert(start =~= start + sysctl_keys_reasons(all.take(0), network, uts));
    }
    while i < m.len()
        invariant
            i <= m@.len(),
            all == json::member_views(m@),
            text::texts(reasons@) == start + sysctl_keys_reasons(all.take(i as int), network, uts),
        decreases m@.len() - i,
    {
        proof {
            assert(all.take(i + 1).drop_last() =~= all.take(i as int));
            assert(all.take(i + 1).last() == all[i as int]);
        }
        validate_sysctl(m[i].0.as_str(), network, uts, reasons);
        i += 1;
        proof {
            steps::lemma_assoc(
                start,
                sysctl_keys_reasons(all.take(i - 1), network, uts),
                sysctl_key_reasons(m@[i - 1].0@, network, uts),
            );
        }
    }
    proof {
        assert(all.take(all.len() as int) =~= all);
        assert(text::texts(reasons@) =~= was + sysctl_reasons(value@));
    }
}

/// Whether an option asks for an attribute of a mount and of all mounts below it.
pub open spec fn is_recursive_attr(o: Seq<char>) -> bool {
    ||| o == "rro"@
    ||| o == "rrw"@
    ||| o == "rnoexec"@
    ||| o == "rexec"@
    ||| o == "rnosuid"@
    ||| o == "rsuid"@
    ||| o == "rnodev"@
    ||| o == "rdev"@
    ||| o == "rrelatime"@
    ||| o == "rnorelatime"@
    ||| o == "rnoatime"@
    ||| o == "ratime"@
    ||| o == "rnodiratime"@
    ||| o == "rdiratime"@
}

/// Whether an option asks for an attribute of a mount and of all mounts below it.
pub fn is_recursive_mount_attr(o: &str) -> (r: bool)
    ensures
        r == is_recursive_attr(o@),
{
    str_eq(o, "rro") || str_eq(o, "rrw") || str_eq(o, "rnoexec") || str_eq(o, "rexec") || str_eq(
        o,
        "rnosuid",
    ) || str_eq(o, "rsuid") || str_eq(o, "rnodev") || str_eq(o, "rdev") || str_eq(o, "rrelatime")
        || str_eq(o, "rnorelatime") || str_eq(o, "rnoatime") || str_eq(o, "ratime") || str_eq(
        o,
        "rnodiratime",
    ) || str_eq(o, "rdiratime")
}

/// What is wrong with an option of the mount at `dest`.
pub open spec fn option_reasons(o: Seq<char>, dest: Seq<char>) -> Seq<Seq<char>> {
    reason(o == "tmpcopyup"@, "mount option tmpcopyup is not supported for "@ + dest) + reason(
        is_recursive_attr(o),
        "recursive mount option "@ + o + " is not supported for "@ + dest,
    )
}

/// What is wrong with the options of the mount at `dest`.
pub open spec fn options_reasons(os: Seq<Seq<char>>, dest: Seq<char>) -> Seq<Seq<char>>
    decreases os.len(),
{
    if os.len() == 0 {
        Seq::empty()
    } else {
        options_reasons(os.drop_last(), dest) + option_reasons(os.last(), dest)
    }
}

/// What is wrong with a mount.
pub open spec fn mount_reasons(m: JsonView) -> Seq<Seq<char>> {
    options_reasons(
        json::string_list(json::field(m, "options"@)),
        json::text_or(json::field(m, "destination"@), "<unknown>"@),
    )
}

/// What is wrong with mounts.
pub open spec fn all_mount_reasons(ms: Seq<JsonView>) -> Seq<Seq<char>>
    decreases ms.len(),
{
    if ms.len() == 0 {
        Seq::empty()
    } else {
        all_mount_reasons(ms.drop_last()) + mount_reasons(ms.last())
    }
}

/// Adds what is wrong with an option of the mount at `dest`.
fn validate_option(o: &str, dest: &str, reasons: &mut Vec<String>)
    ensures
        text::texts(final(reasons)@) == text::texts(old(reasons)@) + option_reasons(o@, dest@),
{
    let ghost was = text::texts(reasons@);
    push_reason(
        reasons,
        str_eq(o, "tmpcopyup"),
        cat2("mount option tmpcopyup is not supported for ", dest),
    );
    let mut t = cat3("recursive mount option ", o, " is not supported for ");
    t.append(dest);
    push_reason(reasons, is_recursive_mount_attr(o), t);
    proof {
        assert(text::texts(reasons@) =~= was + option_reasons(o@, dest@));
    }
}

/// Adds what is wrong with a mount.
fn validate_mount(m: &Json, reasons: &mut Vec<String>)
    ensures
        text::texts(final(reasons)@) == text::texts(old(reasons)@) + mount_reasons(m@),
{
    let ghost was = text::texts(reasons@);
    let dest = get_text_or(m.get("destination"), "<unknown>");
    let os = get_strings(m.get("options"));
    let ghost all = text::texts(os@);
    let mut i: usize = 0;
    proof {
        assert(all.take(0) =~= Seq::<Seq<char>>::empty());
        assert(was =~= was + options_reasons(all.take(0), dest@));
    }
    while i < os.len()
        invariant
            i <= os@.len(),
            all == text::texts(os@),
            was == text::texts(old(reasons)@),
            text::texts(reasons@) == was + options_reasons(all.take(i as int), dest@),
        decreases os@.len() - i,
    {
        proof {
            assert(all.take(i + 1).drop_last() =~= all.take(i as int));
            assert(all.take(i + 1).last() == os@[i as int]@);
        }
        validate_option(os[i].as_str(), dest.as_str(), reasons);
        i += 1;
        proof {
            steps::lemma_assoc(
                was,
                options_reasons(all.take(i - 1), dest@),
                option_reasons(os@[i - 1]@, dest@),
            );
        }
    }
    proof {
        assert(all.take(all.len() as int) =~= all);
    }
}

/// Adds what is wrong with the mounts of a configuration.
fn validate_mount_options(value: &Json, reasons: &mut Vec<String>)
    ensures
        text::texts(final(reasons)@) == text::texts(old(reasons)@) + all_mount_reasons(
            items(json::field(value@, "mounts"@)),
        ),
{
    let ghost was = text::texts(reasons@);
    let list = match get_items(value.get("mounts")) {
        Some(a) => a,
        None => {
            proof {
                assert(text::texts(reasons@) =~= was + Seq::empty());
            }
            return;
        },
    };
    let ghost all = json::views(list@);
    let mut i: usize = 0;
    proof {
        assert(all.take(0) =~= Seq::<JsonView>::empty());
        assert(was =~= was + all_mount_reasons(all.take(0)));
    }
    while i < list.len()
        invariant
            i <= list@.len(),
            all == json::views(list@),
            was == text::texts(old(reasons)@),
            text::texts(reasons@) == was + all_mount_reasons(all.take(i as int)),
        decreases list@.len() - i,
    {
        proof {
            assert(all.take(i + 1).drop_last() =~= all.take(i as int));
            assert(all.take(i + 1).last() == list@[i as int]@);
        }
        validate_mount(&list[i], reasons);
        i += 1;
        proof {
            steps::lemma_assoc(
                was,
                all_mount_reasons(all.take(i - 1)),
                mount_reasons(list@[i - 1]@),
            );
        }
    }
    proof {
        assert(all.take(all.len() as int) =~= all);
    }
}

/// What a configuration asks for that is not supported, on a host that has the unified cgroup
/// hierarchy or not.
pub open spec fn reasons_in(v: JsonView, unified: bool) -> Seq<Seq<char>> {
    let linux = json::field(v, "linux"@);
    let process = json::field(v, "process"@);
    reason(
        json::at(linux, "resources"@) is Some && !unified,
        "cgroup v2 is not available on this host"@,
    ) + reason(
        json::nonempty_text(json::at(linux, "mountLabel"@)) is Some,
        "linux.mountLabel is not supported"@,
    ) + reason(json::at(linux, "intelRdt"@) is Some, "linux.intelRdt is not supported"@) + reason(
        json::at(linux, "memoryPolicy"@) is Some,
        "linux.memoryPolicy is not supported"@,
    ) + reason(json::at(linux, "timeOffsets"@) is Some, "linux.timeOffsets is not supported"@)
        + reason(json::at(process, "consoleSize"@) is Some, "process.consoleSize is not supported"@)
        + reason(json::at(process, "ioPriority"@) is Some, "process.ioPriority is not supported"@)
        + all_rlimit_reasons(items(json::at(process, "rlimits"@))) + sysctl_reasons(v)
        + all_mount_reasons(items(json::field(v, "mounts"@)))
}

/// Adds what a configuration asks for that is not supported.
pub fn collect_validation_reasons(value: &Json, unified: bool, reasons: &mut Vec<String>)
    ensures
        text::texts(final(reasons)@) == text::texts(old(reasons)@) + reasons_in(value@, unified),
{
    let ghost was = text::texts(reasons@);
    let mut own: Vec<String> = Vec::new();
    let linux = value.get("linux");
    let process = value.get("process");
    let ghost lv = json::field(value@, "linux"@);
    let ghost pv = json::field(value@, "process"@);
    push_reason(
        &mut own,
        get_at(linux, "resources").is_some() && !unified,
        owned("cgroup v2 is not available on this host"),
    );
    proof {
        assert(text::texts(own@) =~= reason(
            json::at(lv, "resources"@) is Some && !unified,
            "cgroup v2 is not available on this host"@,
        ));
    }
    push_reason(
        &mut own,
        get_nonempty(get_at(linux, "mountLabel")).is_some(),
        owned("linux.mountLabel is not supported"),
    );
    push_reason(
        &mut own,
        get_at(linux, "intelRdt").is_some(),
        owned("linux.intelRdt is not supported"),
    );
    push_reason(
        &mut own,
        get_at(linux, "memoryPolicy").is_some(),
        owned("linux.memoryPolicy is not supported"),
    );
    push_reason(
        &mut own,
        get_at(linux, "timeOffsets").is_some(),
        owned("linux.timeOffsets is not supported"),
    );
    push_reason(
        &mut own,
        get_at(process, "consoleSize").is_some(),
        owned("process.consoleSize is not supported"),
    );
    push_reason(
        &mut own,
        get_at(process, "ioPriority").is_some(),
        owned("process.ioPriority is not supported"),
    );
    validate_rlimits(value, &mut own);
    validate_sysctls(value, &mut own);
    validate_mount_options(value, &mut own);
    let ghost added = own@;
    proof {
        assert(text::texts(added) == reasons_in(value@, unified));
    }
    reasons.append(&mut own);
    proof {
        assert(text::texts(reasons@) =~= was + text::texts(added));
    }
}

/// The configuration of a bundle, or why it cannot be read.
pub open spec fn config_of(config: Option<Seq<u8>>, read_fault: Seq<char>) -> Result<
    JsonView,
    Seq<char>,
> {
    match config {
        Some(b) => json::json_text(b),
        None => Err(read_fault),
    }
}

/// What is wrong with a bundle as a whole.
pub open spec fn bundle_faults(c: Result<JsonView, Seq<char>>, arch: Arch) -> Seq<Seq<char>> {
    match c {
        Err(why) => seq!["config.json is not supported: "@ + why],
        Ok(v) => match spec::spec_fault(v) {
            Some(why) => seq!["config.json is not supported: "@ + why],
            None => match ext::ext_fault(v, arch) {
                Some(why) => seq!["extension plan compile failed: "@ + why],
                None => Seq::empty(),
            },
        },
    }
}

/// All that is wrong with a bundle.
pub open spec fn bundle_reasons(
    c: Result<JsonView, Seq<char>>,
    arch: Arch,
    unified: bool,
) -> Seq<Seq<char>> {
    match c {
        Ok(v) => bundle_faults(c, arch) + reasons_in(v, unified),
        Err(_) => bundle_faults(c, arch) + seq!["config.json is missing or invalid JSON"@]
            + reasons_in(JsonView::Null, unified),
    }
}

/// All that is wrong with the bundle at `bundle`: `config` are the bytes of its configuration; where
/// they could not be read, `read_fault` says why.
pub fn bundle_verdict(
    bundle: &str,
    config: Option<&[u8]>,
    read_fault: &str,
    arch: Arch,
    unified: bool,
) -> (v: Vec<String>)
    ensures
        text::texts(v@) == bundle_reasons(
            config_of(
                match config {
                    Some(b) => Some(b@),
                    None => None,
                },
                read_fault@,
            ),
            arch,
            unified,
        ),
{
    let mut reasons: Vec<String> = Vec::new();
    let ghost c = config_of(
        match config {
            Some(b) => Some(b@),
            None => None,
        },
        read_fault@,
    );
    match config {
        Some(b) => match Spec::from_bundle(b, bundle) {
            Ok(s) => match ext::compile(&s, "validate", arch, unified) {
                Ok(_) => {},
                Err(e) => {
                    reasons.push(cat2("extension plan compile failed: ", e.message()));
                },
            },
            Err(e) => {
                reasons.push(cat2("config.json is not supported: ", e.message()));
            },
        },
        None => {
            reasons.push(cat2("config.json is not supported: ", read_fault));
        },
    }
    proof {
        assert(text::texts(reasons@) =~= bundle_faults(c, arch));
    }
    let mut value = Json::Null;
    let mut readable = false;
    if let Some(b) = config {
        if let Ok(v) = parse_json(b) {
            value = v;
            readable = true;
        }
    }
    if !readable {
        reasons.push(owned("config.json is missing or invalid JSON"));
        proof {
            assert(text::texts(reasons@) =~= bundle_faults(c, arch)
                + seq!["config.json is missing or invalid JSON"@]);
        }
    }
    collect_validation_reasons(&value, unified, &mut reasons);
    reasons
}

/// A bundle without reasons against it is one whose configuration can be read and compiled.
pub proof fn law_supported_compiles(c: Result<JsonView, Seq<char>>, arch: Arch, unified: bool)
    requires
        bundle_reasons(c, arch, unified).len() == 0,
    ensures
        c is Ok,
        spec::spec_fault(c->Ok_0) is None,
        ext::ext_fault(c->Ok_0, arch) is None,
        reasons_in(c->Ok_0, unified).len() == 0,
{
    match c {
        Ok(v) => {
            assert(bundle_faults(c, arch).len() + reasons_in(v, unified).len() == 0);
        },
        Err(_) => {},
    }
}

/// The verdict on a bundle, as JSON.
pub open spec fn verdict_doc(reasons: Seq<Seq<char>>) -> JsonView {
    JsonView::Object(
        seq![
            ("reasons"@, hooks::strings_json(reasons)),
            ("safe_to_fallback"@, JsonView::Bool(reasons.len() > 0)),
            ("supported"@, JsonView::Bool(reasons.len() == 0)),
        ],
    )
}

/// The keys are in order.
proof fn lemma_verdict_doc(reasons: Seq<Seq<char>>)
    ensures
        json::tame(verdict_doc(reasons), json::read_depth()),
{
    reveal_strlit("reasons");
    reveal_strlit("safe_to_fallback");
    reveal_strlit("supported");
    order::lemma_first_difference("reasons"@, "safe_to_fallback"@, 0);
    order::lemma_first_difference("safe_to_fallback"@, "supported"@, 1);
    let m = verdict_doc(reasons)->Object_0;
    json::lemma_adjacent_keys(m);
    let d = (json::read_depth() - 1) as nat;
    hooks::lemma_strings_tame(reasons, d);
    assert forall|i: int| 0 <= i < m.len() implies json::tame((#[trigger] m[i]).1, d) by {
    }
}

/// The lines that tell the reasons.
pub open spec fn reason_lines(reasons: Seq<Seq<char>>) -> Seq<char>
    decreases reasons.len(),
{
    if reasons.len() == 0 {
        "unsupported\n"@
    } else {
        reason_lines(reasons.drop_last()) + "- "@ + reasons.last() + "\n"@
    }
}

/// The lines that tell the reasons.
fn list_reasons(reasons: &Vec<String>) -> (s: String)
    ensures
        s@ == reason_lines(text::texts(reasons@)),
{
    let ghost all = text::texts(reasons@);
    let mut s = owned("unsupported\n");
    let mut i: usize = 0;
    proof {
        assert(all.take(0) =~= Seq::<Seq<char>>::empty());
    }
    while i < reasons.len()
        invariant
            i <= reasons@.len(),
            all == text::texts(reasons@),
            s@ == reason_lines(all.take(i as int)),
        decreases reasons@.len() - i,
    {
        proof {
            assert(all.take(i + 1).drop_last() =~= all.take(i as int));
            assert(all.take(i + 1).last() == reasons@[i as int]@);
        }
        s.append("- ");
        s.append(reasons[i].as_str());
        s.append("\n");
        i += 1;
    }
    proof {
        assert(all.take(all.len() as int) =~= all);
    }
    s
}

/// What is printed of the verdict on a bundle.
pub fn validate_bundle(reasons: &Vec<String>, as_json: bool) -> (b: Vec<u8>)
    ensures
        as_json ==> b@ == json::rendered(verdict_doc(text::texts(reasons@))) + seq![10u8]
            && json::reads_as(b@.drop_last(), verdict_doc(text::texts(reasons@))),
        !as_json ==> b@ == encode_utf8(
            if reasons@.len() == 0 {
                "supported\n"@
            } else {
                reason_lines(text::texts(reasons@))
            },
        ),
{
    if as_json {
        let supported = reasons.len() == 0;
        let doc = Json::Object(
            vec![
                named("reasons", strings_to_json(reasons)),
                named("safe_to_fallback", Json::Bool(!supported)),
                named("supported", Json::Bool(supported)),
            ],
        );
        proof {
            assert(doc@->Object_0 =~= verdict_doc(text::texts(reasons@))->Object_0);
            lemma_verdict_doc(text::texts(reasons@));
        }
        return render_line(&doc);
    }
    if reasons.len() == 0 {
        "supported\n".as_bytes_vec()
    } else {
        list_reasons(reasons).as_str().as_bytes_vec()
    }
}

/// How the validation of a bundle ends.
pub fn validation_result(reasons: &Vec<String>) -> (r: Result<(), Error>)
    ensures
        match r {
            Ok(_) => reasons@.len() == 0,
            Err(e) => reasons@.len() > 0 && e@ == "bundle is not fully supported"@,
        },
{
    if reasons.len() == 0 {
        Ok(())
    } else {
        Err(Error::new(owned("bundle is not fully supported")))
    }
}

/// Whether a limit's soft value is above its hard one.
pub open spec fn overshoots(l: JsonView) -> bool {
    json::u64_at(json::field(l, "soft"@)) matches Some(s) && (json::u64_at(json::field(l, "hard"@))
        matches Some(h) && s > h)
}

/// Whether an option of a mount is one that cannot be done.
pub open spec fn undoable(o: Seq<char>) -> bool {
    o == "tmpcopyup"@ || is_recursive_attr(o)
}

/// Whether a mount has an option that cannot be done.
pub open spec fn has_undoable(m: JsonView) -> bool {
    exists|k: int|
        0 <= k < json::string_list(json::field(m, "options"@)).len() && undoable(
            #[trigger] json::string_list(json::field(m, "options"@))[k],
        )
}

/// Whether a kernel parameter needs a namespace that the container has not of its own.
pub open spec fn lacks_namespace(key: Seq<char>, network: bool, uts: bool) -> bool {
    ("net."@.is_prefix_of(key) && !network) || ((key == "kernel.hostname"@ || key
        == "kernel.domainname"@) && !uts)
}

proof fn lemma_no_rlimit_reason(ls: Seq<JsonView>)
    ensures
        all_rlimit_reasons(ls).len() == 0 <==> forall|i: int|
            0 <= i < ls.len() ==> !overshoots(#[trigger] ls[i]),
    decreases ls.len(),
{
    if ls.len() > 0 {
        let h = ls.drop_last();
        lemma_no_rlimit_reason(h);
        assert(ls[ls.len() - 1] == ls.last());
        assert(rlimit_reasons(ls.last()).len() == 0 <==> !overshoots(ls.last()));
        if all_rlimit_reasons(ls).len() == 0 {
            assert forall|i: int| 0 <= i < ls.len() implies !overshoots(#[trigger] ls[i]) by {
                if i < h.len() {
                    assert(h[i] == ls[i]);
                }
            }
        }
        if forall|i: int| 0 <= i < ls.len() ==> !overshoots(#[trigger] ls[i]) {
            assert forall|i: int| 0 <= i < h.len() implies !overshoots(#[trigger] h[i]) by {
                assert(h[i] == ls[i]);
            }
        }
    }
}

proof fn lemma_no_option_reason(os: Seq<Seq<char>>, dest: Seq<char>)
    ensures
        options_reasons(os, dest).len() == 0 <==> forall|i: int|
            0 <= i < os.len() ==> !undoable(#[trigger] os[i]),
    decreases os.len(),
{
    if os.len() > 0 {
        let h = os.drop_last();
        lemma_no_option_reason(h, dest);
        assert(os[os.len() - 1] == os.last());
        assert(option_reasons(os.last(), dest).len() == 0 <==> !undoable(os.last()));
        if options_reasons(os, dest).len() == 0 {
            assert forall|i: int| 0 <= i < os.len() implies !undoable(#[trigger] os[i]) by {
                if i < h.len() {
                    assert(h[i] == os[i]);
                }
            }
        }
        if forall|i: int| 0 <= i < os.len() ==> !undoable(#[trigger] os[i]) {
            assert forall|i: int| 0 <= i < h.len() implies !undoable(#[trigger] h[i]) by {
                assert(h[i] == os[i]);
            }
        }
    }
}

proof fn lemma_no_mount_reason(ms: Seq<JsonView>)
    ensures
        all_mount_reasons(ms).len() == 0 <==> forall|i: int|
            0 <= i < ms.len() ==> !has_undoable(#[trigger] ms[i]),
    decreases ms.len(),
{
    if ms.len() > 0 {
        let h = ms.drop_last();
        lemma_no_mount_reason(h);
        assert(ms[ms.len() - 1] == ms.last());
        let m = ms.last();
        lemma_no_option_reason(
            json::string_list(json::field(m, "options"@)),
            json::text_or(json::field(m, "destination"@), "<unknown>"@),
        );
        assert(mount_reasons(m).len() == 0 <==> !has_undoable(m));
        if all_mount_reasons(ms).len() == 0 {
            assert forall|i: int| 0 <= i < ms.len() implies !has_undoable(#[trigger] ms[i]) by {
                if i < h.len() {
                    assert(h[i] == ms[i]);
                }
            }
        }
        if forall|i: int| 0 <= i < ms.len() ==> !has_undoable(#[trigger] ms[i]) {
            assert forall|i: int| 0 <= i < h.len() implies !has_undoable(#[trigger] h[i]) by {
                assert(h[i] == ms[i]);
            }
        }
    }
}

proof fn lemma_no_key_reason(m: Seq<(Seq<char>, JsonView)>, network: bool, uts: bool)
    ensures
        sysctl_keys_reasons(m, network, uts).len() == 0 <==> forall|i: int|
            0 <= i < m.len() ==> !lacks_namespace((#[trigger] m[i]).0, network, uts),
    decreases m.len(),
{
    if m.len() > 0 {
        let h = m.drop_last();
        lemma_no_key_reason(h, network, uts);
        assert(m[m.len() - 1] == m.last());
        assert(sysctl_key_reasons(m.last().0, network, uts).len() == 0 <==> !lacks_namespace(
            m.last().0,
            network,
            uts,
        ));
        if sysctl_keys_reasons(m, network, uts).len() == 0 {
            assert forall|i: int| 0 <= i < m.len() implies !lacks_namespace(
                (#[trigger] m[i]).0,
                network,
                uts,
            ) by {
                if i < h.len() {
                    assert(h[i] == m[i]);
                }
            }
        }
        if forall|i: int| 0 <= i < m.len() ==> !lacks_namespace((#[trigger] m[i]).0, network, uts) {
            assert forall|i: int| 0 <= i < h.len() implies !lacks_namespace(
                (#[trigger] h[i]).0,
                network,
                uts,
            ) by {
                assert(h[i] == m[i]);
            }
        }
    }
}

/// Whether the kernel parameters of a document can be set.
pub open spec fn parameters_fit(v: JsonView) -> bool {
    let namespaces = items(json::at(json::field(v, "linux"@), "namespaces"@));
    match json::at(json::field(v, "linux"@), "sysctl"@) {
        Some(JsonView::Object(m)) => {
            &&& !((json::field(v, "hostname"@) matches Some(JsonView::Str(t)) && t.len() > 0)
                && json::member(m, "kernel.hostname"@) is Some)
            &&& forall|i: int|
                0 <= i < m.len() ==> !lacks_namespace(
                    (#[trigger] m[i]).0,
                    lists_namespace(namespaces, "network"@),
                    lists_namespace(namespaces, "uts"@),
                )
        },
        _ => true,
    }
}

/// When a document is supported: it asks for resources only where they can be limited, for none of the
/// things that are not done, for no limit whose soft value is above its hard one, for no kernel
/// parameter outside a namespace of its own, and for no mount option that cannot be done.
pub proof fn law_supported_exactly(v: JsonView, unified: bool)
    ensures
        reasons_in(v, unified).len() == 0 <==> {
            let linux = json::field(v, "linux"@);
            let process = json::field(v, "process"@);
            &&& json::at(linux, "resources"@) is Some ==> unified
            &&& !(json::at(linux, "mountLabel"@) matches Some(JsonView::Str(t)) && t.len() > 0)
            &&& json::at(linux, "intelRdt"@) is None
            &&& json::at(linux, "memoryPolicy"@) is None
            &&& json::at(linux, "timeOffsets"@) is None
            &&& json::at(process, "consoleSize"@) is None
            &&& json::at(process, "ioPriority"@) is None
            &&& forall|i: int|
                0 <= i < items(json::at(process, "rlimits"@)).len() ==> !overshoots(
                    #[trigger] items(json::at(process, "rlimits"@))[i],
                )
            &&& parameters_fit(v)
            &&& forall|i: int|
                0 <= i < items(json::field(v, "mounts"@)).len() ==> !has_undoable(
                    #[trigger] items(json::field(v, "mounts"@))[i],
                )
        },
{
    let linux = json::field(v, "linux"@);
    let process = json::field(v, "process"@);
    lemma_no_rlimit_reason(items(json::at(process, "rlimits"@)));
    lemma_no_mount_reason(items(json::field(v, "mounts"@)));
    let namespaces = items(json::at(linux, "namespaces"@));
    match json::at(linux, "sysctl"@) {
        Some(JsonView::Object(m)) => {
            lemma_no_key_reason(
                m,
                lists_namespace(namespaces, "network"@),
                lists_namespace(namespaces, "uts"@),
            );
        },
        _ => {},
    }
    assert(sysctl_reasons(v).len() == 0 <==> parameters_fit(v));
}

/// When a bundle is supported: its document can be read and compiled, and asks for nothing that is not
/// supported.
pub proof fn law_bundle_supported_exactly(
    c: Result<JsonView, Seq<char>>,
    arch: Arch,
    unified: bool,
)
    ensures
        bundle_reasons(c, arch, unified).len() == 0 <==> (c matches Ok(v) && spec::spec_fault(v)
            is None && ext::ext_fault(v, arch) is None && reasons_in(v, unified).len() == 0),
{
}

/// What the verdict says, read back: the reasons in their order, and that the bundle is supported
/// exactly where there is none, and else can be left to another runtime.
pub proof fn law_verdict_read_back(reasons: Seq<Seq<char>>)
    ensures
        ({
            let d = verdict_doc(reasons);
            &&& json::lists_texts(json::field(d, "reasons"@), reasons)
            &&& json::field(d, "supported"@) == Some(JsonView::Bool(reasons.len() == 0))
            &&& json::field(d, "safe_to_fallback"@) == Some(JsonView::Bool(reasons.len() > 0))
        }),
{
    reveal_strlit("reasons");
    reveal_strlit("safe_to_fallback");
    reveal_strlit("supported");
    order::lemma_first_difference("reasons"@, "safe_to_fallback"@, 0);
    order::lemma_first_difference("safe_to_fallback"@, "supported"@, 1);
    let m = verdict_doc(reasons)->Object_0;
    json::lemma_adjacent_keys(m);
    json::lemma_members_at(m);
    assert(m[0].0 == "reasons"@);
    assert(m[1].0 == "safe_to_fallback"@);
    assert(m[2].0 == "supported"@);
}

/// The verdict without JSON: a line that says so, and then a line for each reason, in their order.
pub proof fn law_reason_lines_read_back(reasons: Seq<Seq<char>>)
    requires
        forall|i: int| 0 <= i < reasons.len() ==> !text::has_char(#[trigger] reasons[i], '\n'),
    ensures
        text::pieces(reason_lines(reasons), '\n') == seq!["unsupported"@] + Seq::new(
            reasons.len(),
            |i: int| "- "@ + reasons[i],
        ) + seq![Seq::<char>::empty()],
    decreases reasons.len(),
{
    reveal_strlit("\n");
    reveal_strlit("- ");
    reveal_strlit("unsupported");
    reveal_strlit("unsupported\n");
    let none = Seq::<char>::empty();
    let all = Seq::new(reasons.len(), |i: int| "- "@ + reasons[i]);
    if reasons.len() == 0 {
        assert("unsupported\n"@ =~= none + "unsupported"@ + "\n"@);
        text::lemma_line_split(none, "unsupported"@);
        assert(none + "unsupported"@ =~= "unsupported"@);
        assert(text::pieces(reason_lines(reasons), '\n') =~= seq!["unsupported"@] + all + seq![none]);
    } else {
        let h = reasons.drop_last();
        assert forall|i: int| 0 <= i < h.len() implies !text::has_char(#[trigger] h[i], '\n') by {
            assert(h[i] == reasons[i]);
        }
        law_reason_lines_read_back(h);
        assert(reasons.last() == reasons[reasons.len() - 1]);
        let line = "- "@ + reasons.last();
        assert forall|i: int| 0 <= i < line.len() implies line[i] != '\n' by {
            if i >= 2 {
                assert(line[i] == reasons.last()[i - 2]);
            }
        }
        let before = reason_lines(h);
        assert(reason_lines(reasons) =~= before + line + "\n"@);
        text::lemma_line_split(before, line);
        let p = text::pieces(before, '\n');
        assert(p.last() + line =~= line);
        let head = Seq::new(h.len(), |i: int| "- "@ + h[i]);
        assert(all =~= head.push(line));
        assert(p.update(p.len() - 1, line).push(none) =~= seq!["unsupported"@] + all + seq![none]);
    }
}

} // verus!
