//! What the program says of itself and of its failures.

use vstd::prelude::*;
use vstd::string::*;

use crate::hooks;
use crate::hooks::strings_to_json;
use crate::json;
use crate::json::{named, render_line, Json, JsonView};
use crate::order;
use crate::spec;
use crate::text;
use crate::text::{cat3, chars_of, dec_u64, owned};

verus! {

/// So many zeros.
pub open spec fn zero_digits(n: int) -> Seq<char> {
    Seq::new(
        if n > 0 {
            n as nat
        } else {
            0
        },
        |i: int| '0',
    )
}

/// A number with zeros in front, at least `width` wide with its sign.
pub open spec fn wide(i: int, width: int) -> Seq<char> {
    if i < 0 {
        "-"@ + zero_digits(width - 1 - text::dec((-i) as nat).len()) + text::dec((-i) as nat)
    } else {
        zero_digits(width - text::dec(i as nat).len()) + text::dec(i as nat)
    }
}

/// Adds so many zeros.
fn push_zero_digits(s: &mut String, n: usize)
    ensures
        final(s)@ == old(s)@ + zero_digits(n as int),
{
    let ghost was = s@;
    let mut i: usize = 0;
    proof {
        assert(s@ =~= was + zero_digits(0));
    }
    while i < n
        invariant
            i <= n,
            s@ == was + zero_digits(i as int),
        decreases n - i,
    {
        s.append("0");
        i += 1;
        proof {
            reveal_strlit("0");
            assert(s@ =~= was + zero_digits(i as int));
        }
    }
}

/// Adds a number with zeros in front.
fn push_wide(s: &mut String, i: i64, width: usize)
    requires
        i > i64::MIN,
    ensures
        final(s)@ == old(s)@ + wide(i as int, width as int),
{
    let ghost was = s@;
    if i < 0 {
        s.append("-");
        let d = dec_u64((-i) as u64);
        let n = d.as_str().unicode_len();
        push_zero_digits(
            s,
            if width > 0 && width - 1 > n {
                width - 1 - n
            } else {
                0
            },
        );
        s.append(d.as_str());
    } else {
        let d = dec_u64(i as u64);
        let n = d.as_str().unicode_len();
        push_zero_digits(
            s,
            if width > n {
                width - n
            } else {
                0
            },
        );
        s.append(d.as_str());
    }
    proof {
        assert(s@ =~= was + wide(i as int, width as int));
    }
}

/// A point in time by the calendar: years from 1900 on and months from zero on.
#[derive(Debug, Clone, Copy)]
pub struct CalendarTime {
    pub year: i32,
    pub month: i32,
    pub day: i32,
    pub hour: i32,
    pub minute: i32,
    pub second: i32,
}

/// A point in time as text; the start of time where it has no place in the calendar.
pub open spec fn time_text(t: Option<CalendarTime>) -> Seq<char> {
    match t {
        Some(t) => wide(t.year + 1900, 4) + "-"@ + wide(t.month + 1, 2) + "-"@ + wide(
            t.day as int,
            2,
        ) + "T"@ + wide(t.hour as int, 2) + ":"@ + wide(t.minute as int, 2) + ":"@ + wide(
            t.second as int,
            2,
        ) + "Z"@,
        None => "1970-01-01T00:00:00Z"@,
    }
}

/// A point in time as text.
pub fn timestamp(t: Option<CalendarTime>) -> (s: String)
    ensures
        s@ == time_text(t),
{
    let t = match t {
        Some(t) => t,
        None => {
            return owned("1970-01-01T00:00:00Z");
        },
    };
    let mut s = owned("");
    push_wide(&mut s, t.year as i64 + 1900, 4);
    proof {
        reveal_strlit("");
        assert(s@ =~= wide(t.year + 1900, 4));
    }
    s.append("-");
    push_wide(&mut s, t.month as i64 + 1, 2);
    s.append("-");
    push_wide(&mut s, t.day as i64, 2);
    s.append("T");
    push_wide(&mut s, t.hour as i64, 2);
    s.append(":");
    push_wide(&mut s, t.minute as i64, 2);
    s.append(":");
    push_wide(&mut s, t.second as i64, 2);
    s.append("Z");
    s
}

/// A text with a backslash in front of every quote.
pub open spec fn escaped(s: Seq<char>) -> Seq<char>
    decreases s.len(),
{
    if s.len() == 0 {
        Seq::empty()
    } else if s.last() == '"' {
        escaped(s.drop_last()).push('\\').push('"')
    } else {
        escaped(s.drop_last()).push(s.last())
    }
}

/// A text with a backslash in front of every quote.
fn escape(t: &str) -> (s: String)
    ensures
        s@ == escaped(t@),
{
    let v = chars_of(t);
    let mut s = owned("");
    let mut i: usize = 0;
    proof {
        reveal_strlit("");
        assert(v@.take(0) =~= Seq::<char>::empty());
        assert(s@ =~= Seq::<char>::empty());
    }
    while i < v.len()
        invariant
            i <= v@.len(),
            s@ == escaped(v@.take(i as int)),
        decreases v@.len() - i,
    {
        proof {
            assert(v@.take(i + 1).drop_last() =~= v@.take(i as int));
        }
        if v[i] == '"' {
            s.push('\\');
        }
        s.push(v[i]);
        i += 1;
    }
    proof {
        assert(v@.take(v@.len() as int) =~= t@);
    }
    s
}

/// A text without quotes stays as it is.
pub proof fn law_plain_text_unescaped(s: Seq<char>)
    requires
        !s.contains('"'),
    ensures
        escaped(s) == s,
    decreases s.len(),
{
    if s.len() > 0 {
        let d = s.drop_last();
        if d.contains('"') {
            let k = choose|k: int| 0 <= k < d.len() && d[k] == '"';
            assert(s[k] == '"');
        }
        law_plain_text_unescaped(d);
        assert(s.last() != '"') by {
            if s.last() == '"' {
                assert(s[s.len() - 1] == '"');
            }
        }
        assert(d.push(s.last()) =~= s);
    } else {
        assert(escaped(s) =~= s);
    }
}

/// The message of a failure.
pub open spec fn failure_text(json_log: bool, time: Option<CalendarTime>, msg: Seq<char>) -> Seq<
    char,
> {
    if json_log {
        "{\"level\":\"error\",\"time\":\""@ + time_text(time) + "\",\"msg\":\""@ + escaped(msg)
            + "\"}\n"@
    } else {
        "rsrun: "@ + msg + "\n"@
    }
}

/// The message of a failure: a line of JSON, as engines read it, or plain text.
pub fn failure_message(json_log: bool, time: Option<CalendarTime>, msg: &str) -> (s: String)
    ensures
        s@ == failure_text(json_log, time, msg@),
{
    if json_log {
        let mut s = owned("{\"level\":\"error\",\"time\":\"");
        let t = timestamp(time);
        s.append(t.as_str());
        s.append("\",\"msg\":\"");
        let m = escape(msg);
        s.append(m.as_str());
        s.append("\"}\n");
        return s;
    }
    cat3("rsrun: ", msg, "\n")
}

/// The kinds of namespace that are supported.
pub open spec fn namespace_names() -> Seq<Seq<char>> {
    seq!["mount"@, "pid"@, "ipc"@, "uts"@, "network"@, "cgroup"@, "user"@]
}

/// What is supported of Linux.
pub open spec fn linux_features() -> JsonView {
    JsonView::Object(
        seq![
            ("apparmor"@, JsonView::Null),
            ("capabilities"@, JsonView::Null),
            ("cgroup"@, JsonView::Object(Seq::empty())),
            ("intelRdt"@, JsonView::Null),
            ("mountExtensions"@, JsonView::Null),
            ("namespaces"@, hooks::strings_json(namespace_names())),
            ("seccomp"@, JsonView::Null),
            ("selinux"@, JsonView::Null),
        ],
    )
}

/// What is supported.
pub open spec fn features_doc() -> JsonView {
    JsonView::Object(
        seq![
            ("annotations"@, JsonView::Null),
            ("linux"@, linux_features()),
            ("ociVersionMax"@, JsonView::Str("1.0.2"@)),
            ("ociVersionMin"@, JsonView::Str("1.0.0"@)),
            ("potentiallyUnsafeConfigAnnotations"@, JsonView::Null),
        ],
    )
}

/// The keys are in order.
proof fn lemma_linux_features(depth: nat)
    requires
        depth > 1,
    ensures
        json::tame(linux_features(), depth),
{
    reveal_strlit("apparmor");
    reveal_strlit("capabilities");
    reveal_strlit("cgroup");
    reveal_strlit("intelRdt");
    reveal_strlit("mountExtensions");
    reveal_strlit("namespaces");
    reveal_strlit("seccomp");
    reveal_strlit("selinux");
    order::lemma_first_difference("apparmor"@, "capabilities"@, 0);
    order::lemma_first_difference("capabilities"@, "cgroup"@, 1);
    order::lemma_first_difference("cgroup"@, "intelRdt"@, 0);
    order::lemma_first_difference("intelRdt"@, "mountExtensions"@, 0);
    order::lemma_first_difference("mountExtensions"@, "namespaces"@, 0);
    order::lemma_first_difference("namespaces"@, "seccomp"@, 0);
    order::lemma_first_difference("seccomp"@, "selinux"@, 2);
    let m = linux_features()->Object_0;
    json::lemma_adjacent_keys(m);
    let d = (depth - 1) as nat;
    hooks::lemma_strings_tame(namespace_names(), d);
    assert forall|i: int| 0 <= i < m.len() implies json::tame((#[trigger] m[i]).1, d) by {
    }
}

/// The keys are in order.
proof fn lemma_features_doc()
    ensures
        json::tame(features_doc(), json::read_depth()),
{
    reveal_strlit("annotations");
    reveal_strlit("linux");
    reveal_strlit("ociVersionMax");
    reveal_strlit("ociVersionMin");
    reveal_strlit("potentiallyUnsafeConfigAnnotations");
    order::lemma_first_difference("annotations"@, "linux"@, 0);
    order::lemma_first_difference("linux"@, "ociVersionMax"@, 0);
    order::lemma_first_difference("ociVersionMax"@, "ociVersionMin"@, 11);
    order::lemma_first_difference("ociVersionMin"@, "potentiallyUnsafeConfigAnnotations"@, 0);
    let m = features_doc()->Object_0;
    json::lemma_adjacent_keys(m);
    let d = (json::read_depth() - 1) as nat;
    lemma_linux_features(d);
    assert forall|i: int| 0 <= i < m.len() implies json::tame((#[trigger] m[i]).1, d) by {
    }
}

/// The line that tells what is supported.
pub fn sub_features() -> (b: Vec<u8>)
    ensures
        b@ == json::rendered(features_doc()) + seq![10u8],
        json::reads_as(b@.drop_last(), features_doc()),
{
    let names = vec![
        owned("mount"),
        owned("pid"),
        owned("ipc"),
        owned("uts"),
        owned("network"),
        owned("cgroup"),
        owned("user"),
    ];
    proof {
        assert(text::texts(names@) =~= namespace_names());
    }
    let nothing = Json::Object(Vec::new());
    proof {
        assert(nothing@->Object_0 =~= Seq::empty());
    }
    let linux = Json::Object(
        vec![
            named("apparmor", Json::Null),
            named("capabilities", Json::Null),
            named("cgroup", nothing),
            named("intelRdt", Json::Null),
            named("mountExtensions", Json::Null),
            named("namespaces", strings_to_json(&names)),
            named("seccomp", Json::Null),
            named("selinux", Json::Null),
        ],
    );
    proof {
        assert(linux@->Object_0 =~= linux_features()->Object_0);
    }
    let doc = Json::Object(
        vec![
            named("annotations", Json::Null),
            named("linux", linux),
            named("ociVersionMax", Json::Str(owned("1.0.2"))),
            named("ociVersionMin", Json::Str(owned("1.0.0"))),
            named("potentiallyUnsafeConfigAnnotations", Json::Null),
        ],
    );
    proof {
        assert(doc@->Object_0 =~= features_doc()->Object_0);
        lemma_features_doc();
    }
    render_line(&doc)
}

/// Text is escaped character by character, in order: a quote gets a backslash before it, and
/// everything else stays as it is.
pub proof fn law_escaped_parts(a: Seq<char>, b: Seq<char>, c: char)
    ensures
        escaped(a + b) == escaped(a) + escaped(b),
        escaped(seq!['"']) == seq!['\\', '"'],
        c != '"' ==> escaped(seq![c]) == seq![c],
    decreases b.len(),
{
    reveal_with_fuel(escaped, 2);
    assert(seq!['"'].drop_last() =~= Seq::<char>::empty());
    assert(escaped(seq!['"']) =~= seq!['\\', '"']);
    assert(seq![c].drop_last() =~= Seq::<char>::empty());
    assert(c != '"' ==> escaped(seq![c]) =~= seq![c]);
    if b.len() == 0 {
        assert(a + b =~= a);
        assert(escaped(a) + escaped(b) =~= escaped(a));
    } else {
        let h = b.drop_last();
        law_escaped_parts(a, h, c);
        assert((a + b).drop_last() =~= a + h);
        assert((a + b).last() == b.last());
        assert(escaped(a + b) =~= escaped(a) + escaped(b));
    }
}

/// A number from 0 to 9999 in so many digits has them, and stands for the number.
proof fn lemma_wide(n: int, width: int)
    requires
        width == 2 && 0 <= n < 100 || width == 4 && 0 <= n < 10000,
    ensures
        wide(n, width).len() == width,
        text::is_digits(wide(n, width)),
        text::digits_value(wide(n, width)) == n,
{
    reveal_with_fuel(text::in_base, 4);
    text::lemma_dec_value(n as nat);
    let d = text::dec(n as nat);
    let z = zero_digits(width - d.len());
    assert(d.len() <= width) by {
        assert(n / 10 < 1000 && n / 10 / 10 < 100 && n / 10 / 10 / 10 < 10);
        if n < 100 {
            assert(n / 10 < 10);
        }
    }
    lemma_zeros_before(z, d);
    let w = z + d;
    assert forall|i: int| 0 <= i < w.len() implies '0' <= #[trigger] w[i] <= '9' by {
        if i >= z.len() {
            assert(w[i] == d[i - z.len()]);
        }
    }
}

/// Zeros in front change nothing.
proof fn lemma_zeros_before(z: Seq<char>, d: Seq<char>)
    requires
        forall|i: int| 0 <= i < z.len() ==> #[trigger] z[i] == '0',
    ensures
        text::digits_value(z + d) == text::digits_value(d),
    decreases z.len() + d.len(),
{
    let w = z + d;
    if d.len() > 0 {
        lemma_zeros_before(z, d.drop_last());
        assert(w.drop_last() =~= z + d.drop_last());
        assert(w.last() == d.last());
    } else if z.len() > 0 {
        let h = z.drop_last();
        assert forall|i: int| 0 <= i < h.len() implies #[trigger] h[i] == '0' by {
            assert(h[i] == z[i]);
        }
        lemma_zeros_before(h, d);
        assert(w.drop_last() =~= h + d);
        assert(w.last() == z[z.len() - 1]);
    } else {
        assert(w =~= d);
    }
}

/// A time, read back: the year, the month counted from one, the day, the hour, the minute and the
/// second, each in its place and in as many digits as it has there.
pub proof fn law_time_read_back(t: CalendarTime)
    requires
        -1900 <= t.year < 8100,
        0 <= t.month < 12,
        1 <= t.day <= 31,
        0 <= t.hour < 24,
        0 <= t.minute < 60,
        0 <= t.second <= 60,
    ensures
        ({
            let s = time_text(Some(t));
            &&& s.len() == 20
            &&& s[4] == '-' && s[7] == '-' && s[10] == 'T' && s[13] == ':' && s[16] == ':' && s[19]
                == 'Z'
            &&& text::digits_value(s.subrange(0, 4)) == t.year + 1900
            &&& text::digits_value(s.subrange(5, 7)) == t.month + 1
            &&& text::digits_value(s.subrange(8, 10)) == t.day
            &&& text::digits_value(s.subrange(11, 13)) == t.hour
            &&& text::digits_value(s.subrange(14, 16)) == t.minute
            &&& text::digits_value(s.subrange(17, 19)) == t.second
        }),
{
    reveal_strlit("-");
    reveal_strlit("T");
    reveal_strlit(":");
    reveal_strlit("Z");
    lemma_wide(t.year + 1900, 4);
    lemma_wide(t.month + 1, 2);
    lemma_wide(t.day as int, 2);
    lemma_wide(t.hour as int, 2);
    lemma_wide(t.minute as int, 2);
    lemma_wide(t.second as int, 2);
    let s = time_text(Some(t));
    assert(s.subrange(0, 4) =~= wide(t.year + 1900, 4));
    assert(s.subrange(5, 7) =~= wide(t.month + 1, 2));
    assert(s.subrange(8, 10) =~= wide(t.day as int, 2));
    assert(s.subrange(11, 13) =~= wide(t.hour as int, 2));
    assert(s.subrange(14, 16) =~= wide(t.minute as int, 2));
    assert(s.subrange(17, 19) =~= wide(t.second as int, 2));
}

/// What is told of a failure: the message, behind the program's name, or as one line of JSON.
pub proof fn law_failure_told(time: Option<CalendarTime>, msg: Seq<char>)
    ensures
        failure_text(false, time, msg) == "rsrun: "@ + msg + "\n"@,
        exists|head: Seq<char>|
            failure_text(true, time, msg) == #[trigger] (head + escaped(msg)) + "\"}\n"@
                && "{\"level\":\"error\",\"time\":\""@.is_prefix_of(head)
                && "\",\"msg\":\""@.is_suffix_of(head) && text::holds(head, time_text(time)),
{
    let a = "{\"level\":\"error\",\"time\":\""@;
    let t = time_text(time);
    let b = "\",\"msg\":\""@;
    let head = a + t + b;
    assert(head.subrange(a.len() as int, a.len() as int + t.len()) =~= t);
    assert(failure_text(true, time, msg) == (head + escaped(msg)) + "\"}\n"@);
    assert(head.subrange(0, a.len() as int) =~= a);
    assert(a.is_prefix_of(head));
    assert(head.skip(head.len() - b.len()) =~= b);
    assert(b.is_suffix_of(head));
}

/// What the features say, read back: the versions, and every kind of namespace that can be asked for.
pub proof fn law_features_read_back(name: Seq<char>)
    ensures
        ({
            let d = features_doc();
            let names = json::at(json::field(d, "linux"@), "namespaces"@);
            &&& json::field(d, "ociVersionMin"@) == Some(JsonView::Str("1.0.0"@))
            &&& json::field(d, "ociVersionMax"@) == Some(JsonView::Str("1.0.2"@))
            &&& names matches Some(JsonView::Array(a)) && (a.contains(JsonView::Str(name))
                <==> spec::namespace_kind(name) is Some)
        }),
{
    lemma_features_doc();
    let m = features_doc()->Object_0;
    json::lemma_members_at(m);
    assert(m[1].0 == "linux"@);
    assert(m[2].0 == "ociVersionMax"@);
    assert(m[3].0 == "ociVersionMin"@);
    lemma_linux_features(2);
    let n = linux_features()->Object_0;
    json::lemma_members_at(n);
    assert(n[5].0 == "namespaces"@);
    let v = namespace_names();
    let a = n[5].1->Array_0;
    assert(a.len() == v.len());
    assert(a[0] == JsonView::Str("mount"@) && a[1] == JsonView::Str("pid"@) && a[2]
        == JsonView::Str("ipc"@) && a[3] == JsonView::Str("uts"@) && a[4] == JsonView::Str(
        "network"@,
    ) && a[5] == JsonView::Str("cgroup"@) && a[6] == JsonView::Str("user"@));
}

} // verus!
