//! What a bundle asks for besides the core plan: the seccomp filter, the cgroup limits, the device
//! filter and the hooks.

use vstd::prelude::*;

use crate::cgroup;
use crate::devices;
use crate::error::Error;
use crate::hooks;
use crate::hooks::HooksView;
use crate::json;
use crate::json::{get_at, JsonView};
use crate::plan;
use crate::plan::ExtPlan;
use crate::seccomp;
use crate::seccomp::Arch;
use crate::spec;
use crate::spec::Spec;
use crate::text;

verus! {

/// Why the seccomp profile of a bundle cannot be compiled, if it cannot.
pub open spec fn seccomp_fault(v: JsonView, arch: Arch) -> Option<Seq<char>> {
    match json::at(json::field(v, "linux"@), "seccomp"@) {
        Some(s) => match seccomp::profile(s, arch) {
            Ok(_) => None,
            Err(why) => Some(why),
        },
        None => None,
    }
}

/// The device rules that a bundle lists.
pub open spec fn listed_devices(v: JsonView) -> Seq<JsonView> {
    spec::elements(json::at(json::at(json::field(v, "linux"@), "resources"@), "devices"@))
}

/// The devices that a bundle gives the container.
pub open spec fn own_devices(v: JsonView) -> Seq<JsonView> {
    spec::elements(json::at(json::field(v, "linux"@), "devices"@))
}

/// Why a bundle cannot be compiled, if it cannot: the first part that fails says.
pub open spec fn ext_fault(v: JsonView, arch: Arch) -> Option<Seq<char>> {
    if seccomp_fault(v, arch) is Some {
        seccomp_fault(v, arch)
    } else {
        match hooks::bundle_hooks(json::field(v, "hooks"@)) {
            Ok(_) => None,
            Err(why) => Some(why),
        }
    }
}

/// Whether a plan holds what a bundle asks for.
pub open spec fn ext_compiled(e: ExtPlan, v: JsonView, id: Seq<char>, arch: Arch, unified: bool) -> bool {
    let linux = json::field(v, "linux"@);
    let resources = json::at(linux, "resources"@);
    &&& e.seccomp_bpf@ == (match json::at(linux, "seccomp"@) {
        Some(s) => seccomp::profile_code(seccomp::profile(s, arch)->Ok_0),
        None => Seq::empty(),
    })
    &&& match resources {
        Some(r) => if unified && cgroup::needs_cgroup(r) {
            text::opt_text(e.cgroup_v2_path) == Some(cgroup::cgroup_dir(id)) && plan::write_views(
                e.cgroup_v2_writes@,
            ) == cgroup::resource_writes(r)
        } else {
            e.cgroup_v2_path is None && e.cgroup_v2_writes@.len() == 0
        },
        None => e.cgroup_v2_path is None && e.cgroup_v2_writes@.len() == 0,
    }
    &&& e.device_cgroup_bpf@ == (if listed_devices(v).len() == 0 {
        Seq::empty()
    } else {
        devices::program_bytes(
            devices::program(devices::all_rules(listed_devices(v), own_devices(v))),
        )
    })
    &&& hooks::bundle_hooks(json::field(v, "hooks"@)) == Ok::<HooksView, Seq<char>>(e.hooks@)
}

/// Compiles what a bundle asks for besides the core plan, for the container `container_id` on a
/// machine `arch` whose host has the unified cgroup hierarchy or not.
pub fn compile(spec: &Spec, container_id: &str, arch: Arch, unified: bool) -> (r: Result<
    ExtPlan,
    Error,
>)
    ensures
        match r {
            Ok(e) => ext_fault(spec.raw@, arch) is None && ext_compiled(
                e,
                spec.raw@,
                container_id@,
                arch,
                unified,
            ),
            Err(e) => ext_fault(spec.raw@, arch) == Some(e@),
        },
{
    let linux = spec.raw.get("linux");
    let seccomp_bpf = match seccomp::compile(get_at(linux, "seccomp"), arch) {
        Ok(p) => p,
        Err(e) => return Err(e),
    };
    let resources = get_at(linux, "resources");
    let (cgroup_v2_path, cgroup_v2_writes) = cgroup::compile(resources, container_id, unified);
    let device_cgroup_bpf = match devices::compile(resources, get_at(linux, "devices")) {
        Ok(p) => p,
        Err(e) => return Err(e),
    };
    let hooks = match hooks::compile(spec.raw.get("hooks"), spec.bundle.as_str()) {
        Ok(h) => h,
        Err(e) => return Err(e),
    };
    let e = ExtPlan { seccomp_bpf, cgroup_v2_path, cgroup_v2_writes, device_cgroup_bpf, hooks };
    proof {
        if json::at(json::field(spec.raw@, "linux"@), "seccomp"@) is None {
            assert(e.seccomp_bpf@ =~= Seq::empty());
        }
        if listed_devices(spec.raw@).len() == 0 {
            assert(e.device_cgroup_bpf@ =~= Seq::<u8>::empty());
        }
    }
    Ok(e)
}

/// What is compiled beside the plan: a filter of calls exactly where the bundle has a profile; a cgroup
/// of the container's own, with every limit that is asked for, where there is a limit or a rule for
/// devices and the machine can do it; a program for devices where there are rules for them; and
/// the hooks of the bundle.
pub proof fn law_ext_plan(e: ExtPlan, v: JsonView, id: Seq<char>, arch: Arch, unified: bool)
    requires
        ext_compiled(e, v, id, arch, unified),
    ensures
        ({
            let linux = json::field(v, "linux"@);
            let resources = json::at(linux, "resources"@);
            let rules = json::at(resources, "devices"@);
            let devices = json::at(linux, "devices"@);
            &&& json::at(linux, "seccomp"@) is None ==> e.seccomp_bpf@.len() == 0
            &&& json::at(linux, "seccomp"@) matches Some(s) ==> e.seccomp_bpf@
                == seccomp::profile_code(seccomp::profile(s, arch)->Ok_0)
            &&& e.cgroup_v2_path is Some <==> unified && (resources matches Some(r) && (
            cgroup::resource_writes(r).len() > 0 || (json::field(r, "devices"@) matches Some(
                JsonView::Array(a),
            ) && a.len() > 0)))
            &&& e.cgroup_v2_path matches Some(p) ==> p@ == cgroup::cgroup_dir(id)
                && plan::write_views(e.cgroup_v2_writes@) == cgroup::resource_writes(
                resources->Some_0,
            )
            &&& e.cgroup_v2_path is None ==> e.cgroup_v2_writes@.len() == 0
            &&& e.device_cgroup_bpf@.len() > 0 ==> (rules matches Some(JsonView::Array(a)) && a.len()
                > 0)
            &&& rules matches Some(JsonView::Array(a)) ==> (a.len() > 0 ==> e.device_cgroup_bpf@
                == devices::program_bytes(
                devices::program(
                    devices::all_rules(
                        a,
                        match devices {
                            Some(JsonView::Array(d)) => d,
                            _ => Seq::empty(),
                        },
                    ),
                ),
            ))
            &&& hooks::bundle_hooks(json::field(v, "hooks"@)) == Ok::<HooksView, Seq<char>>(e.hooks@)
        }),
{
}

/// What keeps it from being compiled: a profile that cannot be, or else a hook.
pub proof fn law_ext_refused(v: JsonView, arch: Arch)
    ensures
        ext_fault(v, arch) is None <==> (json::at(json::field(v, "linux"@), "seccomp"@) matches Some(s)
            ==> seccomp::profile(s, arch) is Ok) && hooks::bundle_hooks(json::field(v, "hooks"@))
            is Ok,
{
}

} // verus!
