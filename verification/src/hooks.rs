//! Lifecycle hooks: read out of a bundle, kept in a file, read back.

use vstd::prelude::*;

use crate::error::Error;
use crate::json;
use crate::json::{
    get_items, get_strings, get_text, get_u64, named, parse_json, render_json, Json, JsonView,
};
use crate::order;
use crate::plan;
use crate::plan::{HookCmd, Hooks};
use crate::spec;
use crate::text;
use crate::text::{contains_char, owned};

verus! {

/// What a hook says.
pub struct HookView {
    pub path: Seq<char>,
    pub args: Seq<Seq<char>>,
    pub env: Seq<Seq<char>>,
    pub timeout_ms: Option<u64>,
}

/// What the hooks of all points say.
pub struct HooksView {
    pub prestart: Seq<HookView>,
    pub create_runtime: Seq<HookView>,
    pub create_container: Seq<HookView>,
    pub start_container: Seq<HookView>,
    pub poststart: Seq<HookView>,
    pub poststop: Seq<HookView>,
}

impl View for HookCmd {
    type V = HookView;

    open spec fn view(&self) -> HookView {
        HookView {
            path: self.path@,
            args: text::texts(self.args@),
            env: text::texts(self.env@),
            timeout_ms: self.timeout_ms,
        }
    }
}

/// What the hooks of a list say.
pub open spec fn hook_views(v: Seq<HookCmd>) -> Seq<HookView> {
    Seq::new(v.len(), |i: int| v[i]@)
}

impl View for Hooks {
    type V = HooksView;

    open spec fn view(&self) -> HooksView {
        HooksView {
            prestart: hook_views(self.prestart@),
            create_runtime: hook_views(self.create_runtime@),
            create_container: hook_views(self.create_container@),
            start_container: hook_views(self.start_container@),
            poststart: hook_views(self.poststart@),
            poststop: hook_views(self.poststop@),
        }
    }
}

/// Whether the kernel can be handed the hook: none of its texts holds a NUL.
pub open spec fn hook_clean(h: HookView) -> bool {
    text::nul_free(h.path) && plan::all_nul_free(h.args) && plan::all_nul_free(h.env)
}

/// Whether the kernel can be handed every hook of a list.
pub open spec fn all_hooks_clean(v: Seq<HookView>) -> bool {
    forall|i: int| 0 <= i < v.len() ==> hook_clean(#[trigger] v[i])
}

/// Whether the kernel can be handed every hook.
pub open spec fn hooks_clean(h: HooksView) -> bool {
    all_hooks_clean(h.prestart) && all_hooks_clean(h.create_runtime) && all_hooks_clean(
        h.create_container,
    ) && all_hooks_clean(h.start_container) && all_hooks_clean(h.poststart) && all_hooks_clean(
        h.poststop,
    )
}

/// Texts as a JSON array.
pub open spec fn strings_json(v: Seq<Seq<char>>) -> JsonView {
    JsonView::Array(Seq::new(v.len(), |i: int| JsonView::Str(v[i])))
}

/// A number that may be missing, as JSON.
pub open spec fn opt_u64_json(n: Option<u64>) -> JsonView {
    match n {
        Some(n) => JsonView::UInt(n),
        None => JsonView::Null,
    }
}

/// A hook as JSON.
pub open spec fn hook_json(h: HookView) -> JsonView {
    JsonView::Object(
        seq![
            ("args"@, strings_json(h.args)),
            ("env"@, strings_json(h.env)),
            ("path"@, JsonView::Str(h.path)),
            ("timeout_ms"@, opt_u64_json(h.timeout_ms)),
        ],
    )
}

/// The hooks of a point as JSON.
pub open spec fn phase_json(v: Seq<HookView>) -> JsonView {
    JsonView::Array(Seq::new(v.len(), |i: int| hook_json(v[i])))
}

/// The hooks of all points as JSON.
pub open spec fn hooks_json(h: HooksView) -> JsonView {
    JsonView::Object(
        seq![
            ("createContainer"@, phase_json(h.create_container)),
            ("createRuntime"@, phase_json(h.create_runtime)),
            ("poststart"@, phase_json(h.poststart)),
            ("poststop"@, phase_json(h.poststop)),
            ("prestart"@, phase_json(h.prestart)),
            ("startContainer"@, phase_json(h.start_container)),
        ],
    )
}

/// The texts that hold no NUL.
pub open spec fn clean_texts(v: Seq<Seq<char>>) -> Seq<Seq<char>>
    decreases v.len(),
{
    if v.len() == 0 {
        Seq::empty()
    } else if text::nul_free(v.last()) {
        clean_texts(v.drop_last()).push(v.last())
    } else {
        clean_texts(v.drop_last())
    }
}

/// A hook read back: one without a usable path is dropped, and so is a text with a NUL.
pub open spec fn hook_of(v: JsonView) -> Option<HookView> {
    match json::text_at(json::field(v, "path"@)) {
        Some(path) => if text::nul_free(path) {
            Some(
                HookView {
                    path,
                    args: clean_texts(json::string_list(json::field(v, "args"@))),
                    env: clean_texts(json::string_list(json::field(v, "env"@))),
                    timeout_ms: json::u64_at(json::field(v, "timeout_ms"@)),
                },
            )
        } else {
            None
        },
        None => None,
    }
}

/// What becomes of an element of a list of hooks.
pub open spec fn hook_rule() -> spec_fn(JsonView) -> Option<HookView> {
    |x: JsonView| hook_of(x)
}

/// The hooks of a point, read back.
pub open spec fn phase_of(v: Option<JsonView>) -> Seq<HookView> {
    spec::kept(spec::elements(v), hook_rule())
}

/// The hooks of all points, read back.
pub open spec fn hooks_of(v: JsonView) -> HooksView {
    HooksView {
        prestart: phase_of(json::field(v, "prestart"@)),
        create_runtime: phase_of(json::field(v, "createRuntime"@)),
        create_container: phase_of(json::field(v, "createContainer"@)),
        start_container: phase_of(json::field(v, "startContainer"@)),
        poststart: phase_of(json::field(v, "poststart"@)),
        poststop: phase_of(json::field(v, "poststop"@)),
    }
}

/// Texts as a JSON array.
pub fn strings_to_json(v: &Vec<String>) -> (j: Json)
    ensures
        j@ == strings_json(text::texts(v@)),
{
    let mut a: Vec<Json> = Vec::new();
    let mut i: usize = 0;
    while i < v.len()
        invariant
            i <= v.len(),
            a.len() == i,
            forall|k: int| 0 <= k < i ==> (#[trigger] a@[k])@ == JsonView::Str(v@[k]@),
        decreases v.len() - i,
    {
        a.push(Json::Str(v[i].clone()));
        i = i + 1;
    }
    let j = Json::Array(a);
    proof {
        assert(j@->Array_0 =~= strings_json(text::texts(v@))->Array_0);
    }
    j
}

/// A number that may be missing, as JSON.
pub fn opt_u64_to_json(n: Option<u64>) -> (j: Json)
    ensures
        j@ == opt_u64_json(n),
{
    match n {
        Some(n) => Json::UInt(n),
        None => Json::Null,
    }
}

/// Owned copies of the texts that hold no NUL.
fn keep_clean(v: &Vec<String>) -> (r: Vec<String>)
    ensures
        text::texts(r@) == clean_texts(text::texts(v@)),
{
    let ghost all = text::texts(v@);
    let mut r: Vec<String> = Vec::new();
    let mut i: usize = 0;
    proof {
        assert(all.subrange(0, 0) =~= Seq::<Seq<char>>::empty());
        assert(text::texts(r@) =~= Seq::<Seq<char>>::empty());
    }
    while i < v.len()
        invariant
            i <= v.len(),
            all == text::texts(v@),
            text::texts(r@) == clean_texts(all.subrange(0, i as int)),
        decreases v.len() - i,
    {
        proof {
            assert(all.subrange(0, i + 1).drop_last() =~= all.subrange(0, i as int));
            assert(all.subrange(0, i + 1).last() == v@[i as int]@);
        }
        if !contains_char(v[i].as_str(), '\0') {
            let t = v[i].clone();
            proof {
                text::lemma_texts_push(r@, t);
            }
            r.push(t);
        }
        i = i + 1;
    }
    proof {
        assert(all.subrange(0, all.len() as int) =~= all);
    }
    r
}

/// What an optional hook says.
pub open spec fn opt_hook(h: Option<HookCmd>) -> Option<HookView> {
    match h {
        Some(h) => Some(h@),
        None => None,
    }
}

impl HookCmd {
    /// The hook as JSON.
    pub fn to_json(&self) -> (j: Json)
        ensures
            j@ == hook_json(self@),
    {
        let j = Json::Object(
            vec![
                named("args", strings_to_json(&self.args)),
                named("env", strings_to_json(&self.env)),
                named("path", Json::Str(self.path.clone())),
                named("timeout_ms", opt_u64_to_json(self.timeout_ms)),
            ],
        );
        proof {
            assert(j@->Object_0 =~= hook_json(self@)->Object_0);
        }
        j
    }

    /// Reads a hook back.
    pub fn from_json(v: &Json) -> (r: Option<HookCmd>)
        ensures
            opt_hook(r) == hook_of(v@),
    {
        match get_text(v.get("path")) {
            Some(path) => if contains_char(path, '\0') {
                None
            } else {
                let args = get_strings(v.get("args"));
                let env = get_strings(v.get("env"));
                Some(
                    HookCmd {
                        path: owned(path),
                        args: keep_clean(&args),
                        env: keep_clean(&env),
                        timeout_ms: get_u64(v.get("timeout_ms")),
                    },
                )
            },
            None => None,
        }
    }
}

/// The hooks of a point as JSON.
fn phase_to_json(v: &Vec<HookCmd>) -> (j: Json)
    ensures
        j@ == phase_json(hook_views(v@)),
{
    let mut a: Vec<Json> = Vec::new();
    let mut i: usize = 0;
    while i < v.len()
        invariant
            i <= v.len(),
            a.len() == i,
            forall|k: int| 0 <= k < i ==> (#[trigger] a@[k])@ == hook_json(v@[k]@),
        decreases v.len() - i,
    {
        a.push(v[i].to_json());
        i = i + 1;
    }
    let j = Json::Array(a);
    proof {
        assert(j@->Array_0 =~= phase_json(hook_views(v@))->Array_0);
    }
    j
}

/// Reads the hooks of a point back.
fn phase_from_json(v: Option<&Json>) -> (r: Vec<HookCmd>)
    ensures
        hook_views(r@) == phase_of(json::opt_view(v)),
{
    let mut r: Vec<HookCmd> = Vec::new();
    if let Some(a) = get_items(v) {
        let ghost all = json::views(a@);
        let mut i: usize = 0;
        proof {
            assert(all.subrange(0, 0) =~= Seq::<JsonView>::empty());
            assert(hook_views(r@) =~= spec::kept(all.subrange(0, 0), hook_rule()));
        }
        while i < a.len()
            invariant
                i <= a.len(),
                all == json::views(a@),
                hook_views(r@) == spec::kept(all.subrange(0, i as int), hook_rule()),
            decreases a.len() - i,
        {
            proof {
                assert(all.subrange(0, i + 1).drop_last() =~= all.subrange(0, i as int));
                assert(all.subrange(0, i + 1).last() == a@[i as int]@);
            }
            if let Some(x) = HookCmd::from_json(&a[i]) {
                let ghost was = r@;
                r.push(x);
                proof {
                    assert(hook_views(r@) =~= hook_views(was).push(x@));
                }
            }
            i = i + 1;
        }
        proof {
            assert(all.subrange(0, a@.len() as int) =~= all);
        }
    } else {
        proof {
            assert(hook_views(r@) =~= spec::kept(Seq::<JsonView>::empty(), hook_rule()));
        }
    }
    r
}

impl Hooks {
    /// The hooks as JSON.
    pub fn to_json(&self) -> (j: Json)
        ensures
            j@ == hooks_json(self@),
    {
        let j = Json::Object(
            vec![
                named("createContainer", phase_to_json(&self.create_container)),
                named("createRuntime", phase_to_json(&self.create_runtime)),
                named("poststart", phase_to_json(&self.poststart)),
                named("poststop", phase_to_json(&self.poststop)),
                named("prestart", phase_to_json(&self.prestart)),
                named("startContainer", phase_to_json(&self.start_container)),
            ],
        );
        proof {
            assert(j@->Object_0 =~= hooks_json(self@)->Object_0);
        }
        j
    }

    /// Reads the hooks back.
    pub fn from_json(v: &Json) -> (h: Hooks)
        ensures
            h@ == hooks_of(v@),
    {
        Hooks {
            prestart: phase_from_json(v.get("prestart")),
            create_runtime: phase_from_json(v.get("createRuntime")),
            create_container: phase_from_json(v.get("createContainer")),
            start_container: phase_from_json(v.get("startContainer")),
            poststart: phase_from_json(v.get("poststart")),
            poststop: phase_from_json(v.get("poststop")),
        }
    }
}

/// The strings of an array of strings.
pub proof fn lemma_strings_back(v: Seq<Seq<char>>)
    ensures
        json::strings_among(strings_json(v)->Array_0) == v,
    decreases v.len(),
{
    let a = strings_json(v)->Array_0;
    if v.len() > 0 {
        lemma_strings_back(v.drop_last());
        assert(a.drop_last() =~= strings_json(v.drop_last())->Array_0);
        assert(v.drop_last().push(v.last()) =~= v);
    } else {
        assert(json::strings_among(a) =~= v);
    }
}

/// Texts without a NUL are all kept.
proof fn lemma_clean_kept(v: Seq<Seq<char>>)
    requires
        plan::all_nul_free(v),
    ensures
        clean_texts(v) == v,
    decreases v.len(),
{
    if v.len() > 0 {
        assert forall|i: int| 0 <= i < v.drop_last().len() implies text::nul_free(
            #[trigger] v.drop_last()[i],
        ) by {
            assert(text::nul_free(v[i]));
        }
        lemma_clean_kept(v.drop_last());
        assert(text::nul_free(v[v.len() - 1]));
        assert(v.drop_last().push(v.last()) =~= v);
    } else {
        assert(clean_texts(v) =~= v);
    }
}

/// The members of a hook are in order.
proof fn lemma_hook_keys(h: HookView)
    ensures
        json::in_key_order(hook_json(h)->Object_0),
{
    reveal_strlit("args");
    reveal_strlit("env");
    reveal_strlit("path");
    reveal_strlit("timeout_ms");
    order::lemma_first_difference("args"@, "env"@, 0);
    order::lemma_first_difference("env"@, "path"@, 0);
    order::lemma_first_difference("path"@, "timeout_ms"@, 0);
    json::lemma_adjacent_keys(hook_json(h)->Object_0);
}

/// The members of the hooks file are in order.
proof fn lemma_hooks_keys(h: HooksView)
    ensures
        json::in_key_order(hooks_json(h)->Object_0),
{
    reveal_strlit("createContainer");
    reveal_strlit("createRuntime");
    reveal_strlit("poststart");
    reveal_strlit("poststop");
    reveal_strlit("prestart");
    reveal_strlit("startContainer");
    order::lemma_first_difference("createContainer"@, "createRuntime"@, 6);
    order::lemma_first_difference("createRuntime"@, "poststart"@, 0);
    order::lemma_first_difference("poststart"@, "poststop"@, 6);
    order::lemma_first_difference("poststop"@, "prestart"@, 1);
    order::lemma_first_difference("prestart"@, "startContainer"@, 0);
    json::lemma_adjacent_keys(hooks_json(h)->Object_0);
}

/// A hook reads back as it was.
proof fn lemma_hook_back(h: HookView)
    requires
        hook_clean(h),
    ensures
        hook_of(hook_json(h)) == Some(h),
{
    let m = hook_json(h)->Object_0;
    lemma_hook_keys(h);
    json::lemma_member_at(m, 0);
    json::lemma_member_at(m, 1);
    json::lemma_member_at(m, 2);
    json::lemma_member_at(m, 3);
    lemma_strings_back(h.args);
    lemma_strings_back(h.env);
    lemma_clean_kept(h.args);
    lemma_clean_kept(h.env);
}

/// The hooks of a point read back as they were.
proof fn lemma_phase_back(v: Seq<HookView>)
    requires
        all_hooks_clean(v),
    ensures
        phase_of(Some(phase_json(v))) == v,
    decreases v.len(),
{
    let a = phase_json(v)->Array_0;
    if v.len() > 0 {
        let w = v.drop_last();
        assert forall|i: int| 0 <= i < w.len() implies hook_clean(#[trigger] w[i]) by {
            assert(hook_clean(v[i]));
        }
        lemma_phase_back(w);
        assert(a.drop_last() =~= phase_json(w)->Array_0);
        assert(hook_clean(v[v.len() - 1]));
        lemma_hook_back(v.last());
        assert(w.push(v.last()) =~= v);
    } else {
        assert(phase_of(Some(phase_json(v))) =~= v);
    }
}

/// Hooks that the kernel can be handed read back as they were.
pub proof fn law_hooks_json_round_trip(h: HooksView)
    requires
        hooks_clean(h),
    ensures
        hooks_of(hooks_json(h)) == h,
{
    let m = hooks_json(h)->Object_0;
    lemma_hooks_keys(h);
    json::lemma_member_at(m, 0);
    json::lemma_member_at(m, 1);
    json::lemma_member_at(m, 2);
    json::lemma_member_at(m, 3);
    json::lemma_member_at(m, 4);
    json::lemma_member_at(m, 5);
    lemma_phase_back(h.prestart);
    lemma_phase_back(h.create_runtime);
    lemma_phase_back(h.create_container);
    lemma_phase_back(h.start_container);
    lemma_phase_back(h.poststart);
    lemma_phase_back(h.poststop);
}

/// A list of texts is read back from its text.
pub proof fn lemma_strings_tame(v: Seq<Seq<char>>, depth: nat)
    requires
        depth >= 1,
    ensures
        json::tame(strings_json(v), depth),
{
    assert forall|i: int| 0 <= i < strings_json(v)->Array_0.len() implies json::tame(
        #[trigger] strings_json(v)->Array_0[i],
        (depth - 1) as nat,
    ) by {}
}

/// The hooks of a phase are read back as written.
proof fn lemma_phase_tame(v: Seq<HookView>, depth: nat)
    requires
        depth >= 3,
    ensures
        json::tame(phase_json(v), depth),
{
    let a = phase_json(v)->Array_0;
    assert forall|i: int| 0 <= i < a.len() implies json::tame(
        #[trigger] a[i],
        (depth - 1) as nat,
    ) by {
        let h = v[i];
        let m = hook_json(h)->Object_0;
        lemma_hook_keys(h);
        let d = (depth - 2) as nat;
        lemma_strings_tame(h.args, d);
        lemma_strings_tame(h.env, d);
        assert forall|k: int| 0 <= k < m.len() implies json::tame((#[trigger] m[k]).1, d) by {
            assert(k == 0 || k == 1 || k == 2 || k == 3);
        }
    }
}

/// The hooks file is read back from its text.
proof fn lemma_hooks_tame(h: HooksView)
    ensures
        json::tame(hooks_json(h), json::read_depth()),
{
    let m = hooks_json(h)->Object_0;
    let d = (json::read_depth() - 1) as nat;
    lemma_hooks_keys(h);
    lemma_phase_tame(h.prestart, d);
    lemma_phase_tame(h.create_runtime, d);
    lemma_phase_tame(h.create_container, d);
    lemma_phase_tame(h.start_container, d);
    lemma_phase_tame(h.poststart, d);
    lemma_phase_tame(h.poststop, d);
    assert forall|k: int| 0 <= k < m.len() implies json::tame((#[trigger] m[k]).1, d) by {
        assert(k == 0 || k == 1 || k == 2 || k == 3 || k == 4 || k == 5);
    }
}

/// What the bytes of a hooks file say; a file that is missing or damaged says nothing.
pub open spec fn hooks_in(bytes: Option<Seq<u8>>) -> HooksView {
    match bytes {
        Some(b) => match json::json_text(b) {
            Ok(v) => hooks_of(v),
            Err(_) => no_hooks(),
        },
        None => no_hooks(),
    }
}

/// No hook at any point.
pub open spec fn no_hooks() -> HooksView {
    HooksView {
        prestart: Seq::empty(),
        create_runtime: Seq::empty(),
        create_container: Seq::empty(),
        start_container: Seq::empty(),
        poststart: Seq::empty(),
        poststop: Seq::empty(),
    }
}

/// The bytes of the hooks file. Reading them gives the hooks back.
pub fn save_hooks(h: &Hooks) -> (b: Vec<u8>)
    ensures
        b@ == json::rendered(hooks_json(h@)),
        hooks_clean(h@) ==> hooks_in(Some(b@)) == h@,
{
    proof {
        lemma_hooks_tame(h@);
        if hooks_clean(h@) {
            law_hooks_json_round_trip(h@);
        }
    }
    let j = h.to_json();
    render_json(&j)
}

/// The hooks in the bytes of a hooks file, which may be missing.
pub fn load_hooks(bytes: Option<&[u8]>) -> (h: Hooks)
    ensures
        h@ == hooks_in(
            match bytes {
                Some(b) => Some(b@),
                None => None,
            },
        ),
{
    let h = match bytes {
        Some(b) => match parse_json(b) {
            Ok(v) => Hooks::from_json(&v),
            Err(_) => Hooks::default(),
        },
        None => Hooks::default(),
    };
    proof {
        if h.none() {
            assert(h@.prestart =~= Seq::<HookView>::empty());
            assert(h@.create_runtime =~= Seq::<HookView>::empty());
            assert(h@.create_container =~= Seq::<HookView>::empty());
            assert(h@.start_container =~= Seq::<HookView>::empty());
            assert(h@.poststart =~= Seq::<HookView>::empty());
            assert(h@.poststop =~= Seq::<HookView>::empty());
        }
    }
    h
}

/// What a hook of a bundle says, or what is wrong with it.
pub open spec fn hook_entry(v: JsonView) -> Result<HookView, Seq<char>> {
    match json::text_at(json::field(v, "path"@)) {
        None => Err("hook entry missing path"@),
        Some(path) => {
            let args = match json::items_at(json::field(v, "args"@)) {
                Some(a) => json::strings_among(a),
                None => seq![path],
            };
            let env = json::string_list(json::field(v, "env"@));
            if !text::nul_free(path) {
                Err("hook path contains NUL"@)
            } else if !plan::all_nul_free(args) {
                Err("hook arg has NUL"@)
            } else if !plan::all_nul_free(env) {
                Err("hook env has NUL"@)
            } else {
                Ok(
                    HookView {
                        path,
                        args,
                        env,
                        timeout_ms: match json::u64_at(json::field(v, "timeout"@)) {
                            Some(s) => Some(in_ms(s)),
                            None => None,
                        },
                    },
                )
            }
        },
    }
}

/// Seconds in milliseconds, as far as they fit.
pub open spec fn in_ms(s: u64) -> u64 {
    if s * 1000 > u64::MAX {
        u64::MAX
    } else {
        (s * 1000) as u64
    }
}

/// The hooks of a point, or what is wrong with the first that is not usable.
pub open spec fn phase_entries(a: Seq<JsonView>) -> Result<Seq<HookView>, Seq<char>>
    decreases a.len(),
{
    if a.len() == 0 {
        Ok(Seq::empty())
    } else {
        match phase_entries(a.drop_last()) {
            Ok(v) => match hook_entry(a.last()) {
                Ok(h) => Ok(v.push(h)),
                Err(why) => Err(why),
            },
            Err(why) => Err(why),
        }
    }
}

/// Whether every text of a list is free of NUL.
fn all_clean(v: &Vec<String>) -> (r: bool)
    ensures
        r == plan::all_nul_free(text::texts(v@)),
{
    let ghost all = text::texts(v@);
    let mut i: usize = 0;
    while i < v.len()
        invariant
            i <= v.len(),
            all == text::texts(v@),
            forall|k: int| 0 <= k < i ==> text::nul_free(#[trigger] all[k]),
        decreases v.len() - i,
    {
        if contains_char(v[i].as_str(), '\0') {
            assert(!text::nul_free(all[i as int]));
            return false;
        }
        i = i + 1;
    }
    true
}

/// Reads a hook of a bundle.
fn parse_hook(v: &Json) -> (r: Result<HookCmd, Error>)
    ensures
        match r {
            Ok(h) => hook_entry(v@) == Ok::<HookView, Seq<char>>(h@),
            Err(e) => hook_entry(v@) == Err::<HookView, Seq<char>>(e@),
        },
{
    let path = match get_text(v.get("path")) {
        Some(p) => owned(p),
        None => return Err(Error::new(owned("hook entry missing path"))),
    };
    if contains_char(path.as_str(), '\0') {
        return Err(Error::new(owned("hook path contains NUL")));
    }
    let args_entry = v.get("args");
    let args = match get_items(args_entry) {
        Some(_) => get_strings(args_entry),
        None => {
            let only = vec![path.clone()];
            proof {
                assert(text::texts(only@) =~= seq![path@]);
            }
            only
        },
    };
    if !all_clean(&args) {
        return Err(Error::new(owned("hook arg has NUL")));
    }
    let env = get_strings(v.get("env"));
    if !all_clean(&env) {
        return Err(Error::new(owned("hook env has NUL")));
    }
    let timeout_ms = match get_u64(v.get("timeout")) {
        Some(s) => Some(
            if s > 0xffff_ffff_ffff_ffff / 1000 {
                0xffff_ffff_ffff_ffff
            } else {
                s * 1000
            },
        ),
        None => None,
    };
    Ok(HookCmd { path, args, env, timeout_ms })
}

/// The first hook that is not usable decides, whatever follows it.
proof fn lemma_bad_hook(a: Seq<JsonView>, k: int)
    requires
        0 <= k <= a.len(),
        phase_entries(a.subrange(0, k)) is Err,
    ensures
        phase_entries(a) == phase_entries(a.subrange(0, k)),
    decreases a.len() - k,
{
    if k < a.len() {
        assert(a.subrange(0, k + 1).drop_last() =~= a.subrange(0, k));
        lemma_bad_hook(a, k + 1);
    } else {
        assert(a.subrange(0, k) =~= a);
    }
}

/// Reads the hooks of a point out of a bundle.
fn parse_phase(v: Option<&Json>) -> (r: Result<Vec<HookCmd>, Error>)
    ensures
        match r {
            Ok(h) => phase_entries(spec::elements(json::opt_view(v))) == Ok::<
                Seq<HookView>,
                Seq<char>,
            >(hook_views(h@)),
            Err(e) => phase_entries(spec::elements(json::opt_view(v))) == Err::<
                Seq<HookView>,
                Seq<char>,
            >(e@),
        },
{
    let mut r: Vec<HookCmd> = Vec::new();
    proof {
        assert(hook_views(r@) =~= Seq::<HookView>::empty());
    }
    if let Some(a) = get_items(v) {
        let ghost all = json::views(a@);
        let mut i: usize = 0;
        proof {
            assert(all.subrange(0, 0) =~= Seq::<JsonView>::empty());
        }
        while i < a.len()
            invariant
                i <= a.len(),
                all == json::views(a@),
                all == spec::elements(json::opt_view(v)),
                phase_entries(all.subrange(0, i as int)) == Ok::<Seq<HookView>, Seq<char>>(
                    hook_views(r@),
                ),
            decreases a.len() - i,
        {
            proof {
                assert(all.subrange(0, i + 1).drop_last() =~= all.subrange(0, i as int));
                assert(all.subrange(0, i + 1).last() == a@[i as int]@);
            }
            match parse_hook(&a[i]) {
                Ok(h) => {
                    let ghost was = r@;
                    r.push(h);
                    proof {
                        assert(hook_views(r@) =~= hook_views(was).push(h@));
                    }
                },
                Err(e) => {
                    proof {
                        lemma_bad_hook(all, i + 1);
                    }
                    return Err(e);
                },
            }
            i = i + 1;
        }
        proof {
            assert(all.subrange(0, a@.len() as int) =~= all);
        }
    }
    Ok(r)
}

/// The hooks of the point `key`, or what is wrong with them.
pub open spec fn phase_at(v: JsonView, key: Seq<char>) -> Result<Seq<HookView>, Seq<char>> {
    phase_entries(spec::elements(json::field(v, key)))
}

/// What the `hooks` member of a bundle says, or what is wrong with it: the points are looked at
/// in the order in which they come in a container's life.
pub open spec fn bundle_hooks(v: Option<JsonView>) -> Result<HooksView, Seq<char>> {
    match v {
        None => Ok(no_hooks()),
        Some(v) => match phase_at(v, "prestart"@) {
            Err(why) => Err(why),
            Ok(prestart) => match phase_at(v, "createRuntime"@) {
                Err(why) => Err(why),
                Ok(create_runtime) => match phase_at(v, "createContainer"@) {
                    Err(why) => Err(why),
                    Ok(create_container) => match phase_at(v, "startContainer"@) {
                        Err(why) => Err(why),
                        Ok(start_container) => match phase_at(v, "poststart"@) {
                            Err(why) => Err(why),
                            Ok(poststart) => match phase_at(v, "poststop"@) {
                                Err(why) => Err(why),
                                Ok(poststop) => Ok(
                                    HooksView {
                                        prestart,
                                        create_runtime,
                                        create_container,
                                        start_container,
                                        poststart,
                                        poststop,
                                    },
                                ),
                            },
                        },
                    },
                },
            },
        },
    }
}

/// Reads the hooks of a bundle.
pub fn compile(hooks: Option<&Json>, _bundle: &str) -> (r: Result<Hooks, Error>)
    ensures
        match r {
            Ok(h) => bundle_hooks(json::opt_view(hooks)) == Ok::<HooksView, Seq<char>>(h@),
            Err(e) => bundle_hooks(json::opt_view(hooks)) == Err::<HooksView, Seq<char>>(e@),
        },
{
    let v = match hooks {
        Some(v) => v,
        None => return Ok(load_hooks(None)),
    };
    let prestart = match parse_phase(v.get("prestart")) {
        Ok(h) => h,
        Err(e) => return Err(e),
    };
    let create_runtime = match parse_phase(v.get("createRuntime")) {
        Ok(h) => h,
        Err(e) => return Err(e),
    };
    let create_container = match parse_phase(v.get("createContainer")) {
        Ok(h) => h,
        Err(e) => return Err(e),
    };
    let start_container = match parse_phase(v.get("startContainer")) {
        Ok(h) => h,
        Err(e) => return Err(e),
    };
    let poststart = match parse_phase(v.get("poststart")) {
        Ok(h) => h,
        Err(e) => return Err(e),
    };
    let poststop = match parse_phase(v.get("poststop")) {
        Ok(h) => h,
        Err(e) => return Err(e),
    };
    Ok(
        Hooks {
            prestart,
            create_runtime,
            create_container,
            start_container,
            poststart,
            poststop,
        },
    )
}

/// The hooks of a phase can be handed to the kernel.
proof fn lemma_phase_clean(a: Seq<JsonView>)
    requires
        phase_entries(a) is Ok,
    ensures
        all_hooks_clean(phase_entries(a)->Ok_0),
    decreases a.len(),
{
    if a.len() > 0 {
        lemma_phase_clean(a.drop_last());
    }
}

/// The hooks of a bundle hold no NUL, so the hooks file gives them back as they were.
pub proof fn law_bundle_hooks_kept(v: Option<JsonView>)
    requires
        bundle_hooks(v) is Ok,
    ensures
        hooks_clean(bundle_hooks(v)->Ok_0),
        hooks_of(hooks_json(bundle_hooks(v)->Ok_0)) == bundle_hooks(v)->Ok_0,
{
    if let Some(j) = v {
        lemma_phase_clean(spec::elements(json::field(j, "prestart"@)));
        lemma_phase_clean(spec::elements(json::field(j, "createRuntime"@)));
        lemma_phase_clean(spec::elements(json::field(j, "createContainer"@)));
        lemma_phase_clean(spec::elements(json::field(j, "startContainer"@)));
        lemma_phase_clean(spec::elements(json::field(j, "poststart"@)));
        lemma_phase_clean(spec::elements(json::field(j, "poststop"@)));
    }
    law_hooks_json_round_trip(bundle_hooks(v)->Ok_0);
}

/// What a hook of a bundle says, member by member: it needs a path; its arguments are the strings of
/// the list, or the path alone where there is no list; its limit is in seconds, and is kept in
/// milliseconds. A NUL byte in any of its texts is refused.
pub proof fn law_bundle_hook_read(v: JsonView)
    ensures
        hook_entry(v) matches Ok(h) ==> {
            let args = json::field(v, "args"@);
            let limit = json::field(v, "timeout"@);
            &&& json::field(v, "path"@) == Some(JsonView::Str(h.path))
            &&& args is Some && args->Some_0 is Array ==> h.args == json::strings_of(args)
            &&& !(args matches Some(JsonView::Array(_))) ==> h.args == seq![h.path]
            &&& h.env == json::strings_of(json::field(v, "env"@))
            &&& limit matches Some(JsonView::UInt(s)) ==> h.timeout_ms is Some && (s
                <= u64::MAX / 1000 ==> h.timeout_ms->Some_0 == s * 1000) && (s > u64::MAX / 1000
                ==> h.timeout_ms->Some_0 == u64::MAX)
            &&& !(limit matches Some(JsonView::UInt(_))) ==> h.timeout_ms is None
            &&& hook_clean(h)
        },
        hook_entry(v) is Ok ==> json::field(v, "path"@) matches Some(JsonView::Str(_)),
        !(json::field(v, "path"@) matches Some(JsonView::Str(_))) ==> hook_entry(v) is Err,
{
    json::law_string_list(json::field(v, "args"@));
    json::law_string_list(json::field(v, "env"@));
    assert(u64::MAX / 1000 * 1000 <= u64::MAX < (u64::MAX / 1000 + 1) * 1000);
}

/// The hooks of a phase are those of its list, one for one; the first that cannot be read is what
/// is complained of.
proof fn lemma_phase_entries(a: Seq<JsonView>)
    ensures
        match phase_entries(a) {
            Ok(v) => v.len() == a.len() && forall|i: int|
                0 <= i < a.len() ==> hook_entry(#[trigger] a[i]) == Ok::<HookView, Seq<char>>(v[i]),
            Err(why) => exists|i: int|
                0 <= i < a.len() && hook_entry(#[trigger] a[i]) == Err::<HookView, Seq<char>>(why),
        },
    decreases a.len(),
{
    if a.len() > 0 {
        let h = a.drop_last();
        lemma_phase_entries(h);
        match phase_entries(h) {
            Ok(v) => {
                match hook_entry(a.last()) {
                    Ok(x) => {
                        assert forall|i: int| 0 <= i < a.len() implies hook_entry(#[trigger] a[i])
                            == Ok::<HookView, Seq<char>>(v.push(x)[i]) by {
                            if i < h.len() {
                                assert(h[i] == a[i]);
                            }
                        }
                    },
                    Err(why) => {
                        assert(hook_entry(a[a.len() - 1]) == Err::<HookView, Seq<char>>(why));
                    },
                }
            },
            Err(why) => {
                let i = choose|i: int|
                    0 <= i < h.len() && hook_entry(#[trigger] h[i]) == Err::<HookView, Seq<char>>(
                        why,
                    );
                assert(hook_entry(a[i]) == Err::<HookView, Seq<char>>(why));
            },
        }
    }
}

/// Whether hooks are those of a list of a bundle, one for one and in its order.
pub open spec fn reads_phase(hs: Seq<HookView>, v: Option<JsonView>) -> bool {
    match v {
        Some(JsonView::Array(a)) => hs.len() == a.len() && forall|i: int|
            0 <= i < a.len() ==> hook_entry(#[trigger] a[i]) == Ok::<HookView, Seq<char>>(hs[i]),
        _ => hs.len() == 0,
    }
}

/// Each phase has the hooks of its own list; without hooks in the bundle no phase has any.
pub proof fn law_bundle_phases_read(v: JsonView)
    ensures
        bundle_hooks(Some(v)) matches Ok(h) ==> {
            &&& reads_phase(h.prestart, json::field(v, "prestart"@))
            &&& reads_phase(h.create_runtime, json::field(v, "createRuntime"@))
            &&& reads_phase(h.create_container, json::field(v, "createContainer"@))
            &&& reads_phase(h.start_container, json::field(v, "startContainer"@))
            &&& reads_phase(h.poststart, json::field(v, "poststart"@))
            &&& reads_phase(h.poststop, json::field(v, "poststop"@))
        },
        bundle_hooks(None) matches Ok(h) && h.prestart.len() == 0 && h.create_runtime.len() == 0
            && h.create_container.len() == 0 && h.start_container.len() == 0 && h.poststart.len()
            == 0 && h.poststop.len() == 0,
{
    lemma_phase_entries(spec::elements(json::field(v, "prestart"@)));
    lemma_phase_entries(spec::elements(json::field(v, "createRuntime"@)));
    lemma_phase_entries(spec::elements(json::field(v, "createContainer"@)));
    lemma_phase_entries(spec::elements(json::field(v, "startContainer"@)));
    lemma_phase_entries(spec::elements(json::field(v, "poststart"@)));
    lemma_phase_entries(spec::elements(json::field(v, "poststop"@)));
}

/// Whether a member is the array of these hooks as they are kept.
pub open spec fn keeps_phase(v: Option<JsonView>, hs: Seq<HookView>) -> bool {
    v matches Some(JsonView::Array(a)) && a.len() == hs.len() && forall|i: int|
        0 <= i < hs.len() ==> keeps_hook(#[trigger] a[i], hs[i])
}

/// Whether a document says of a hook what it is, each thing under its own name.
pub open spec fn keeps_hook(v: JsonView, h: HookView) -> bool {
    &&& json::field(v, "path"@) == Some(JsonView::Str(h.path))
    &&& json::lists_texts(json::field(v, "args"@), h.args)
    &&& json::lists_texts(json::field(v, "env"@), h.env)
    &&& h.timeout_ms matches Some(n) ==> json::field(v, "timeout_ms"@) == Some(JsonView::UInt(n))
    &&& h.timeout_ms is None <==> json::field(v, "timeout_ms"@) == Some(JsonView::Null)
}

/// What is kept of hooks: each phase under its own name.
pub proof fn law_hooks_kept(h: HooksView)
    ensures
        ({
            let d = hooks_json(h);
            &&& keeps_phase(json::field(d, "createContainer"@), h.create_container)
            &&& keeps_phase(json::field(d, "createRuntime"@), h.create_runtime)
            &&& keeps_phase(json::field(d, "poststart"@), h.poststart)
            &&& keeps_phase(json::field(d, "poststop"@), h.poststop)
            &&& keeps_phase(json::field(d, "prestart"@), h.prestart)
            &&& keeps_phase(json::field(d, "startContainer"@), h.start_container)
        }),
{
    lemma_hooks_tame(h);
    let m = hooks_json(h)->Object_0;
    json::lemma_members_at(m);
    assert(m[0].0 == "createContainer"@);
    assert(m[1].0 == "createRuntime"@);
    assert(m[2].0 == "poststart"@);
    assert(m[3].0 == "poststop"@);
    assert(m[4].0 == "prestart"@);
    assert(m[5].0 == "startContainer"@);
    lemma_phase_kept(h.create_container);
    lemma_phase_kept(h.create_runtime);
    lemma_phase_kept(h.poststart);
    lemma_phase_kept(h.poststop);
    lemma_phase_kept(h.prestart);
    lemma_phase_kept(h.start_container);
}

proof fn lemma_phase_kept(v: Seq<HookView>)
    ensures
        keeps_phase(Some(phase_json(v)), v),
{
    let a = phase_json(v)->Array_0;
    assert forall|i: int| 0 <= i < v.len() implies keeps_hook(#[trigger] a[i], v[i]) by {
        lemma_hook_keys(v[i]);
        let m = hook_json(v[i])->Object_0;
        json::lemma_members_at(m);
        assert(m[0].0 == "args"@);
        assert(m[1].0 == "env"@);
        assert(m[2].0 == "path"@);
        assert(m[3].0 == "timeout_ms"@);
    }
}

} // verus!
