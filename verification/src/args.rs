//! The words of a command line, read without help.

use vstd::prelude::*;
use vstd::string::*;

use crate::error::Error;
use crate::text;
use crate::text::{cat2, owned, str_eq};

verus! {

/// What a command line asks for.
#[derive(Debug)]
pub enum Command {
    Create { id: String, bundle: String, pid_file: Option<String> },
    Start { id: String },
    Delete { id: String, force: bool },
    State { id: String },
    Kill { id: String, signal: String },
    Exec { id: String, process: String, pid_file: Option<String>, detach: bool },
    Features,
    List,
    Version,
    Help,
}

/// What a command line asks for.
pub enum CommandView {
    Create { id: Seq<char>, bundle: Seq<char>, pid_file: Option<Seq<char>> },
    Start { id: Seq<char> },
    Delete { id: Seq<char>, force: bool },
    State { id: Seq<char> },
    Kill { id: Seq<char>, signal: Seq<char> },
    Exec { id: Seq<char>, process: Seq<char>, pid_file: Option<Seq<char>>, detach: bool },
    Features,
    List,
    Version,
    Help,
}

impl View for Command {
    type V = CommandView;

    open spec fn view(&self) -> CommandView {
        match *self {
            Command::Create { id, bundle, pid_file } => CommandView::Create {
                id: id@,
                bundle: bundle@,
                pid_file: text::opt_text(pid_file),
            },
            Command::Start { id } => CommandView::Start { id: id@ },
            Command::Delete { id, force } => CommandView::Delete { id: id@, force },
            Command::State { id } => CommandView::State { id: id@ },
            Command::Kill { id, signal } => CommandView::Kill { id: id@, signal: signal@ },
            Command::Exec { id, process, pid_file, detach } => CommandView::Exec {
                id: id@,
                process: process@,
                pid_file: text::opt_text(pid_file),
                detach,
            },
            Command::Features => CommandView::Features,
            Command::List => CommandView::List,
            Command::Version => CommandView::Version,
            Command::Help => CommandView::Help,
        }
    }
}

/// A result in terms of what it says.
pub open spec fn command_result(r: Result<Command, Error>) -> Result<CommandView, Seq<char>> {
    match r {
        Ok(c) => Ok(c@),
        Err(e) => Err(e@),
    }
}

/// The words behind the first `n`.
pub open spec fn past(words: Seq<Seq<char>>, n: int) -> Seq<Seq<char>> {
    if n >= words.len() {
        Seq::empty()
    } else {
        words.skip(n)
    }
}

/// Whether a word is an option.
pub open spec fn is_option(w: Seq<char>) -> bool {
    w.len() > 0 && w[0] == '-'
}

/// Whether a word is an option.
fn is_dashed(w: &str) -> (r: bool)
    ensures
        r == is_option(w@),
{
    w.unicode_len() > 0 && w.get_char(0) == '-'
}

/// `n` words further, or the end.
fn further(i: usize, n: usize, len: usize) -> (k: usize)
    requires
        i <= len,
    ensures
        k == (if i + n > len {
            len as int
        } else {
            i + n
        }),
{
    if len - i < n {
        len
    } else {
        i + n
    }
}

/// Some words further is the same as behind so many of the words that are left.
proof fn lemma_past(words: Seq<Seq<char>>, i: int, n: int)
    requires
        0 <= i <= words.len(),
        0 <= n,
    ensures
        past(words.skip(i), n) == words.skip(
            if i + n > words.len() {
                words.len() as int
            } else {
                i + n
            },
        ),
{
    let k: int = if i + n > words.len() {
        words.len() as int
    } else {
        i + n
    };
    assert(past(words.skip(i), n) =~= words.skip(k));
}

/// What is set for all commands.
#[derive(Debug)]
pub struct Globals {
    /// Where the state of containers is kept.
    pub root: Option<String>,
    /// Where messages go.
    pub log: Option<String>,
    /// Whether messages are JSON.
    pub json_log: bool,
}

/// What is set for all commands.
pub struct GlobalsView {
    pub root: Option<Seq<char>>,
    pub log: Option<Seq<char>>,
    pub json_log: bool,
}

impl View for Globals {
    type V = GlobalsView;

    open spec fn view(&self) -> GlobalsView {
        GlobalsView {
            root: text::opt_text(self.root),
            log: text::opt_text(self.log),
            json_log: self.json_log,
        }
    }
}

/// Reads the options in front of a command: what they set, and the words behind them.
pub open spec fn globals(words: Seq<Seq<char>>, g: GlobalsView) -> (
    GlobalsView,
    Result<Seq<Seq<char>>, Seq<char>>,
)
    decreases words.len(),
{
    if words.len() == 0 {
        (g, Ok(words))
    } else if words[0] == "--root"@ {
        if words.len() < 2 {
            (g, Err("--root needs an argument"@))
        } else {
            globals(past(words, 2), GlobalsView { root: Some(words[1]), ..g })
        }
    } else if words[0] == "--log"@ {
        if words.len() < 2 {
            (g, Err("--log needs an argument"@))
        } else {
            globals(past(words, 2), GlobalsView { log: Some(words[1]), ..g })
        }
    } else if words[0] == "--log-format"@ {
        let json_log = g.json_log || words.len() > 1 && words[1] == "json"@;
        globals(past(words, 2), GlobalsView { json_log, ..g })
    } else if words[0] == "--rootless"@ {
        globals(past(words, 2), g)
    } else if words[0] == "--systemd-cgroup"@ || words[0] == "--debug"@ {
        globals(past(words, 1), g)
    } else {
        (g, Ok(words))
    }
}

/// Where nothing is set.
pub open spec fn unset() -> GlobalsView {
    GlobalsView { root: None, log: None, json_log: false }
}

/// Options that are accepted for the sake of engines that pass them change nothing.
pub proof fn law_ignored_options(words: Seq<Seq<char>>, g: GlobalsView, value: Seq<char>)
    ensures
        globals(seq!["--debug"@] + words, g) == globals(words, g),
        globals(seq!["--systemd-cgroup"@] + words, g) == globals(words, g),
        globals(seq!["--rootless"@, value] + words, g) == globals(words, g),
{
    reveal_strlit("--root");
    reveal_strlit("--log");
    reveal_strlit("--log-format");
    reveal_strlit("--rootless");
    reveal_strlit("--systemd-cgroup");
    reveal_strlit("--debug");
    assert("--debug"@[2] != "--root"@[2]);
    assert("--debug"@[2] != "--log"@[2]);
    assert("--debug"@[2] != "--rootless"@[2]);
    assert("--debug"@.len() != "--log-format"@.len());
    assert("--systemd-cgroup"@[2] != "--root"@[2]);
    assert("--systemd-cgroup"@[2] != "--log"@[2]);
    assert("--systemd-cgroup"@.len() != "--log-format"@.len());
    assert("--systemd-cgroup"@[2] != "--rootless"@[2]);
    assert("--rootless"@.len() != "--root"@.len());
    assert("--rootless"@[2] != "--log"@[2]);
    assert("--rootless"@.len() != "--log-format"@.len());
    assert(past(seq!["--debug"@] + words, 1) =~= words);
    assert(past(seq!["--systemd-cgroup"@] + words, 1) =~= words);
    assert(past(seq!["--rootless"@, value] + words, 2) =~= words);
}

/// Reads the options in front of a command, from the word `from` on.
fn read_globals(words: &Vec<String>, from: usize) -> (r: (Globals, Result<usize, Error>))
    requires
        from <= words@.len(),
    ensures
        globals(text::texts(words@).skip(from as int), unset()).0 == r.0@,
        match r.1 {
            Ok(i) => from <= i <= words@.len() && globals(
                text::texts(words@).skip(from as int),
                unset(),
            ).1 == Ok::<Seq<Seq<char>>, Seq<char>>(text::texts(words@).skip(i as int)),
            Err(e) => globals(text::texts(words@).skip(from as int), unset()).1 == Err::<
                Seq<Seq<char>>,
                Seq<char>,
            >(e@),
        },
{
    let ghost all = text::texts(words@);
    let mut g = Globals { root: None, log: None, json_log: false };
    let mut i: usize = from;
    let n = words.len();
    while i < n
        invariant
            from <= i <= n,
            n == words@.len(),
            all == text::texts(words@),
            globals(all.skip(from as int), unset()) == globals(all.skip(i as int), g@),
        decreases n - i,
    {
        let ghost rest = all.skip(i as int);
        proof {
            assert(rest[0] == words@[i as int]@);
            lemma_past(all, i as int, 1);
            lemma_past(all, i as int, 2);
        }
        let w = words[i].as_str();
        if str_eq(w, "--root") {
            if i + 1 >= n {
                return (g, Err(Error::new(owned("--root needs an argument"))));
            }
            proof {
                assert(rest[1] == words@[i + 1]@);
            }
            g.root = Some(words[i + 1].clone());
            i = further(i, 2, n);
        } else if str_eq(w, "--log") {
            if i + 1 >= n {
                return (g, Err(Error::new(owned("--log needs an argument"))));
            }
            proof {
                assert(rest[1] == words@[i + 1]@);
            }
            g.log = Some(words[i + 1].clone());
            i = further(i, 2, n);
        } else if str_eq(w, "--log-format") {
            if i + 1 < n {
                proof {
                    assert(rest[1] == words@[i + 1]@);
                }
                if str_eq(words[i + 1].as_str(), "json") {
                    g.json_log = true;
                }
            }
            i = further(i, 2, n);
        } else if str_eq(w, "--rootless") {
            i = further(i, 2, n);
        } else if str_eq(w, "--systemd-cgroup") || str_eq(w, "--debug") {
            i = further(i, 1, n);
        } else {
            return (g, Ok(i));
        }
    }
    (g, Ok(i))
}

/// The words that are no options.
pub open spec fn plain_words(words: Seq<Seq<char>>) -> Seq<Seq<char>>
    decreases words.len(),
{
    if words.len() == 0 {
        Seq::empty()
    } else if is_option(words.last()) {
        plain_words(words.drop_last())
    } else {
        plain_words(words.drop_last()).push(words.last())
    }
}

/// The words from `from` on that are no options.
fn read_plain(words: &Vec<String>, from: usize) -> (v: Vec<String>)
    requires
        from <= words@.len(),
    ensures
        text::texts(v@) == plain_words(text::texts(words@).skip(from as int)),
{
    let ghost rest = text::texts(words@).skip(from as int);
    let mut v: Vec<String> = Vec::new();
    let mut i: usize = from;
    proof {
        assert(rest.take(0) =~= Seq::<Seq<char>>::empty());
        assert(text::texts(v@) =~= Seq::<Seq<char>>::empty());
    }
    while i < words.len()
        invariant
            from <= i <= words@.len(),
            rest == text::texts(words@).skip(from as int),
            text::texts(v@) == plain_words(rest.take(i - from)),
        decreases words@.len() - i,
    {
        proof {
            let k = i - from;
            assert(rest.take(k + 1).drop_last() =~= rest.take(k));
            assert(rest.take(k + 1).last() == words@[i as int]@);
        }
        if !is_dashed(words[i].as_str()) {
            let w = words[i].clone();
            proof {
                text::lemma_texts_push(v@, w);
            }
            v.push(w);
        }
        i += 1;
    }
    proof {
        assert(rest.take(rest.len() as int) =~= rest);
    }
    v
}

/// The container that a command is about: the first word that is no option.
pub open spec fn subject(words: Seq<Seq<char>>, what: Seq<char>) -> Result<Seq<char>, Seq<char>> {
    let plain = plain_words(words);
    if plain.len() == 0 {
        Err(what + ": missing container ID"@)
    } else {
        Ok(plain[0])
    }
}

/// The container that a command is about.
fn read_subject(words: &Vec<String>, from: usize, what: &str) -> (r: Result<String, Error>)
    requires
        from <= words@.len(),
    ensures
        match r {
            Ok(id) => subject(text::texts(words@).skip(from as int), what@) == Ok::<
                Seq<char>,
                Seq<char>,
            >(id@),
            Err(e) => subject(text::texts(words@).skip(from as int), what@) == Err::<
                Seq<char>,
                Seq<char>,
            >(e@),
        },
{
    let plain = read_plain(words, from);
    proof {
        assert(text::texts(plain@).len() == plain@.len());
    }
    if plain.len() == 0 {
        return Err(Error::new(cat2(what, ": missing container ID")));
    }
    proof {
        assert(text::texts(plain@)[0] == plain@[0]@);
    }
    Ok(plain[0].clone())
}

/// What the words of `create` set.
pub struct CreateView {
    pub bundle: Seq<char>,
    pub id: Option<Seq<char>>,
    pub pid_file: Option<Seq<char>>,
}

/// How many words an option takes that is not known: its value belongs to it where the next word is
/// no option.
pub open spec fn unknown_width(words: Seq<Seq<char>>) -> int {
    if words.len() > 1 && !is_option(words[1]) {
        2
    } else {
        1
    }
}

/// Reads the words of `create`.
pub open spec fn create_words(words: Seq<Seq<char>>, a: CreateView) -> Result<CreateView, Seq<char>>
    decreases words.len(),
{
    if words.len() == 0 {
        Ok(a)
    } else if words[0] == "-b"@ || words[0] == "--bundle"@ {
        if words.len() < 2 {
            Err("--bundle needs an argument"@)
        } else {
            create_words(past(words, 2), CreateView { bundle: words[1], ..a })
        }
    } else if words[0] == "--pid-file"@ {
        if words.len() < 2 {
            Err("--pid-file needs an argument"@)
        } else {
            create_words(past(words, 2), CreateView { pid_file: Some(words[1]), ..a })
        }
    } else if words[0] == "--console-socket"@ || words[0] == "--preserve-fds"@ {
        create_words(past(words, 2), a)
    } else if words[0] == "--no-pivot"@ {
        create_words(past(words, 1), a)
    } else if is_option(words[0]) {
        create_words(past(words, unknown_width(words)), a)
    } else {
        create_words(
            past(words, 1),
            CreateView {
                id: if a.id is None {
                    Some(words[0])
                } else {
                    a.id
                },
                ..a
            },
        )
    }
}

/// What `create` asks for.
pub open spec fn create_command(words: Seq<Seq<char>>) -> Result<CommandView, Seq<char>> {
    match create_words(words, (CreateView { bundle: "."@, id: None, pid_file: None })) {
        Err(f) => Err(f),
        Ok(a) => match a.id {
            None => Err("create: missing container ID"@),
            Some(id) => Ok(CommandView::Create { id, bundle: a.bundle, pid_file: a.pid_file }),
        },
    }
}

/// How many words an option takes that is not known.
fn width_of_unknown(words: &Vec<String>, i: usize) -> (k: usize)
    requires
        i < words@.len(),
    ensures
        k == unknown_width(text::texts(words@).skip(i as int)),
{
    proof {
        let rest = text::texts(words@).skip(i as int);
        assert(rest.len() == words@.len() - i);
        if i + 1 < words@.len() {
            assert(rest[1] == words@[i + 1]@);
        }
    }
    let n = words.len();
    if i + 1 < n && !is_dashed(words[i + 1].as_str()) {
        2
    } else {
        1
    }
}

/// Reads the words of `create`, from the word `from` on.
fn sub_create(words: &Vec<String>, from: usize) -> (r: Result<Command, Error>)
    requires
        from <= words@.len(),
    ensures
        command_result(r) == create_command(text::texts(words@).skip(from as int)),
{
    let ghost all = text::texts(words@);
    let mut bundle = owned(".");
    let mut id: Option<String> = None;
    let mut pid_file: Option<String> = None;
    let mut i: usize = from;
    let n = words.len();
    let ghost first = CreateView { bundle: "."@, id: None, pid_file: None };
    while i < n
        invariant
            from <= i <= n,
            n == words@.len(),
            all == text::texts(words@),
            create_words(all.skip(from as int), first) == create_words(
                all.skip(i as int),
                (CreateView {
                    bundle: bundle@,
                    id: text::opt_text(id),
                    pid_file: text::opt_text(pid_file),
                }),
            ),
            first == (CreateView { bundle: "."@, id: None, pid_file: None }),
        decreases n - i,
    {
        let ghost rest = all.skip(i as int);
        proof {
            assert(rest[0] == words@[i as int]@);
            lemma_past(all, i as int, 1);
            lemma_past(all, i as int, 2);
        }
        let w = words[i].as_str();
        if str_eq(w, "-b") || str_eq(w, "--bundle") {
            if i + 1 >= n {
                return Err(Error::new(owned("--bundle needs an argument")));
            }
            proof {
                assert(rest[1] == words@[i + 1]@);
            }
            bundle = words[i + 1].clone();
            i = further(i, 2, n);
        } else if str_eq(w, "--pid-file") {
            if i + 1 >= n {
                return Err(Error::new(owned("--pid-file needs an argument")));
            }
            proof {
                assert(rest[1] == words@[i + 1]@);
            }
            pid_file = Some(words[i + 1].clone());
            i = further(i, 2, n);
        } else if str_eq(w, "--console-socket") || str_eq(w, "--preserve-fds") {
            i = further(i, 2, n);
        } else if str_eq(w, "--no-pivot") {
            i = further(i, 1, n);
        } else if is_dashed(w) {
            i = further(i, width_of_unknown(words, i), n);
        } else {
            if id.is_none() {
                id = Some(words[i].clone());
            }
            i = further(i, 1, n);
        }
    }
    proof {
        assert(all.skip(i as int).len() == 0);
    }
    match id {
        Some(id) => Ok(Command::Create { id, bundle, pid_file }),
        None => Err(Error::new(owned("create: missing container ID"))),
    }
}

/// What the words of `exec` set.
pub struct ExecView {
    pub process: Option<Seq<char>>,
    pub pid_file: Option<Seq<char>>,
    pub detach: bool,
    pub id: Option<Seq<char>>,
}

/// Whether a word is an option of `exec` that is accepted and takes a value.
pub open spec fn takes_value(w: Seq<char>) -> bool {
    ||| w == "--console-socket"@
    ||| w == "--pidfd-socket"@
    ||| w == "--user"@
    ||| w == "-u"@
    ||| w == "--cwd"@
    ||| w == "--env"@
    ||| w == "-e"@
    ||| w == "--additional-gids"@
    ||| w == "-g"@
    ||| w == "--apparmor"@
    ||| w == "--cap"@
    ||| w == "--no-new-privs"@
    ||| w == "--preserve-fds"@
}

/// Whether a word is an option of `exec` that is accepted and takes a value.
fn has_value(w: &str) -> (r: bool)
    ensures
        r == takes_value(w@),
{
    str_eq(w, "--console-socket") || str_eq(w, "--pidfd-socket") || str_eq(w, "--user") || str_eq(
        w,
        "-u",
    ) || str_eq(w, "--cwd") || str_eq(w, "--env") || str_eq(w, "-e") || str_eq(
        w,
        "--additional-gids",
    ) || str_eq(w, "-g") || str_eq(w, "--apparmor") || str_eq(w, "--cap") || str_eq(
        w,
        "--no-new-privs",
    ) || str_eq(w, "--preserve-fds")
}

/// Reads the words of `exec`.
pub open spec fn exec_words(words: Seq<Seq<char>>, a: ExecView) -> Result<ExecView, Seq<char>>
    decreases words.len(),
{
    if words.len() == 0 {
        Ok(a)
    } else if words[0] == "-p"@ || words[0] == "--process"@ {
        if words.len() < 2 {
            Err("--process needs an argument"@)
        } else {
            exec_words(past(words, 2), ExecView { process: Some(words[1]), ..a })
        }
    } else if words[0] == "--pid-file"@ {
        if words.len() < 2 {
            Err("--pid-file needs an argument"@)
        } else {
            exec_words(past(words, 2), ExecView { pid_file: Some(words[1]), ..a })
        }
    } else if words[0] == "--detach"@ || words[0] == "-d"@ {
        exec_words(past(words, 1), ExecView { detach: true, ..a })
    } else if words[0] == "--tty"@ || words[0] == "-t"@ {
        exec_words(past(words, 1), a)
    } else if takes_value(words[0]) {
        exec_words(past(words, 2), a)
    } else if is_option(words[0]) {
        exec_words(past(words, unknown_width(words)), a)
    } else {
        exec_words(
            past(words, 1),
            ExecView {
                id: if a.id is None {
                    Some(words[0])
                } else {
                    a.id
                },
                ..a
            },
        )
    }
}

/// What `exec` asks for.
pub open spec fn exec_command(words: Seq<Seq<char>>) -> Result<CommandView, Seq<char>> {
    match exec_words(
        words,
        (ExecView { process: None, pid_file: None, detach: false, id: None }),
    ) {
        Err(f) => Err(f),
        Ok(a) => match a.id {
            None => Err("exec: missing container ID"@),
            Some(id) => match a.process {
                None => Err("exec: --process required"@),
                Some(process) => Ok(
                    CommandView::Exec { id, process, pid_file: a.pid_file, detach: a.detach },
                ),
            },
        },
    }
}

/// Reads the words of `exec`, from the word `from` on.
fn sub_exec(words: &Vec<String>, from: usize) -> (r: Result<Command, Error>)
    requires
        from <= words@.len(),
    ensures
        command_result(r) == exec_command(text::texts(words@).skip(from as int)),
{
    let ghost all = text::texts(words@);
    let mut process: Option<String> = None;
    let mut pid_file: Option<String> = None;
    let mut detach = false;
    let mut id: Option<String> = None;
    let mut i: usize = from;
    let n = words.len();
    let ghost first = ExecView { process: None, pid_file: None, detach: false, id: None };
    while i < n
        invariant
            from <= i <= n,
            n == words@.len(),
            all == text::texts(words@),
            exec_words(all.skip(from as int), first) == exec_words(
                all.skip(i as int),
                (ExecView {
                    process: text::opt_text(process),
                    pid_file: text::opt_text(pid_file),
                    detach,
                    id: text::opt_text(id),
                }),
            ),
            first == (ExecView { process: None, pid_file: None, detach: false, id: None }),
        decreases n - i,
    {
        let ghost rest = all.skip(i as int);
        proof {
            assert(rest[0] == words@[i as int]@);
            lemma_past(all, i as int, 1);
            lemma_past(all, i as int, 2);
        }
        let w = words[i].as_str();
        if str_eq(w, "-p") || str_eq(w, "--process") {
            if i + 1 >= n {
                return Err(Error::new(owned("--process needs an argument")));
            }
            proof {
                assert(rest[1] == words@[i + 1]@);
            }
            process = Some(words[i + 1].clone());
            i = further(i, 2, n);
        } else if str_eq(w, "--pid-file") {
            if i + 1 >= n {
                return Err(Error::new(owned("--pid-file needs an argument")));
            }
            proof {
                assert(rest[1] == words@[i + 1]@);
            }
            pid_file = Some(words[i + 1].clone());
            i = further(i, 2, n);
        } else if str_eq(w, "--detach") || str_eq(w, "-d") {
            detach = true;
            i = further(i, 1, n);
        } else if str_eq(w, "--tty") || str_eq(w, "-t") {
            i = further(i, 1, n);
        } else if has_value(w) {
            i = further(i, 2, n);
        } else if is_dashed(w) {
            i = further(i, width_of_unknown(words, i), n);
        } else {
            if id.is_none() {
                id = Some(words[i].clone());
            }
            i = further(i, 1, n);
        }
    }
    proof {
        assert(all.skip(i as int).len() == 0);
    }
    let id = match id {
        Some(id) => id,
        None => {
            return Err(Error::new(owned("exec: missing container ID")));
        },
    };
    match process {
        Some(process) => Ok(Command::Exec { id, process, pid_file, detach }),
        None => Err(Error::new(owned("exec: --process required"))),
    }
}

/// Whether one of the words asks for force.
pub open spec fn forced(words: Seq<Seq<char>>) -> bool {
    exists|i: int|
        0 <= i < words.len() && (#[trigger] words[i] == "-f"@ || words[i] == "--force"@)
}

/// Whether one of the words from `from` on asks for force.
fn read_force(words: &Vec<String>, from: usize) -> (r: bool)
    requires
        from <= words@.len(),
    ensures
        r == forced(text::texts(words@).skip(from as int)),
{
    let ghost rest = text::texts(words@).skip(from as int);
    let mut i: usize = from;
    while i < words.len()
        invariant
            from <= i <= words@.len(),
            rest == text::texts(words@).skip(from as int),
            forall|k: int| 0 <= k < i - from ==> #[trigger] rest[k] != "-f"@ && rest[k] != "--force"@,
        decreases words@.len() - i,
    {
        proof {
            assert(rest[i - from] == words@[i as int]@);
        }
        if str_eq(words[i].as_str(), "-f") || str_eq(words[i].as_str(), "--force") {
            return true;
        }
        i += 1;
    }
    false
}

/// What `kill` asks for.
pub open spec fn kill_command(words: Seq<Seq<char>>) -> Result<CommandView, Seq<char>> {
    let plain = plain_words(words);
    if plain.len() == 0 {
        Err("kill: need <id>"@)
    } else {
        Ok(
            CommandView::Kill {
                id: plain[0],
                signal: if plain.len() > 1 {
                    plain[1]
                } else {
                    "TERM"@
                },
            },
        )
    }
}

/// Reads the words of `kill`, from the word `from` on.
fn sub_kill(words: &Vec<String>, from: usize) -> (r: Result<Command, Error>)
    requires
        from <= words@.len(),
    ensures
        command_result(r) == kill_command(text::texts(words@).skip(from as int)),
{
    let plain = read_plain(words, from);
    proof {
        assert(text::texts(plain@).len() == plain@.len());
    }
    if plain.len() == 0 {
        return Err(Error::new(owned("kill: need <id>")));
    }
    proof {
        assert(text::texts(plain@)[0] == plain@[0]@);
    }
    let id = plain[0].clone();
    if plain.len() > 1 {
        proof {
            assert(text::texts(plain@)[1] == plain@[1]@);
        }
        return Ok(Command::Kill { id, signal: plain[1].clone() });
    }
    Ok(Command::Kill { id, signal: owned("TERM") })
}

/// What a command and the words behind it ask for.
pub open spec fn command(sub: Seq<char>, rest: Seq<Seq<char>>) -> Result<CommandView, Seq<char>> {
    if sub == "create"@ {
        create_command(rest)
    } else if sub == "start"@ {
        match subject(rest, "start"@) {
            Ok(id) => Ok(CommandView::Start { id }),
            Err(f) => Err(f),
        }
    } else if sub == "delete"@ {
        match subject(rest, "delete"@) {
            Ok(id) => Ok(CommandView::Delete { id, force: forced(rest) }),
            Err(f) => Err(f),
        }
    } else if sub == "state"@ {
        match subject(rest, "state"@) {
            Ok(id) => Ok(CommandView::State { id }),
            Err(f) => Err(f),
        }
    } else if sub == "kill"@ {
        kill_command(rest)
    } else if sub == "exec"@ {
        exec_command(rest)
    } else if sub == "features"@ {
        Ok(CommandView::Features)
    } else if sub == "list"@ {
        Ok(CommandView::List)
    } else if sub == "spec"@ {
        Err("spec subcommand not implemented"@)
    } else if sub == "--version"@ || sub == "-v"@ {
        Ok(CommandView::Version)
    } else if sub == "--help"@ || sub == "-h"@ || sub == "help"@ {
        Ok(CommandView::Help)
    } else {
        Err("unknown subcommand: "@ + sub)
    }
}

/// Whether a word is one of the commands.
pub open spec fn is_known(sub: Seq<char>) -> bool {
    ||| sub == "create"@
    ||| sub == "start"@
    ||| sub == "delete"@
    ||| sub == "state"@
    ||| sub == "kill"@
    ||| sub == "exec"@
    ||| sub == "features"@
    ||| sub == "list"@
    ||| sub == "spec"@
    ||| sub == "--version"@
    ||| sub == "-v"@
}

/// What a whole command line asks for; its first word names the program.
pub open spec fn asked(words: Seq<Seq<char>>) -> Result<CommandView, Seq<char>> {
    match globals(past(words, 1), unset()).1 {
        Err(f) => Err(f),
        Ok(rest) => if rest.len() == 0 {
            Err("missing subcommand"@)
        } else {
            command(rest[0], rest.skip(1))
        },
    }
}

/// Whether the usage is shown: where it is asked for, and where no command is named.
pub open spec fn shows_usage(words: Seq<Seq<char>>) -> bool {
    match globals(past(words, 1), unset()).1 {
        Err(_) => false,
        Ok(rest) => rest.len() == 0 || !is_known(rest[0]),
    }
}

/// What comes of a command line.
#[derive(Debug)]
pub struct Dispatch {
    pub globals: Globals,
    /// Whether the messages go to the log that was named. They do once all options were read.
    pub redirect: bool,
    pub usage: bool,
    pub outcome: Result<Command, Error>,
}

/// Reads a command and the words behind it.
fn read_command(words: &Vec<String>, at: usize) -> (r: Result<Command, Error>)
    requires
        at < words@.len(),
    ensures
        command_result(r) == command(
            words@[at as int]@,
            text::texts(words@).skip(at as int).skip(1),
        ),
{
    proof {
        assert(text::texts(words@).skip(at as int).skip(1) =~= text::texts(words@).skip(at + 1));
    }
    let sub = words[at].as_str();
    let from = further(at, 1, words.len());
    if str_eq(sub, "create") {
        sub_create(words, from)
    } else if str_eq(sub, "start") {
        match read_subject(words, from, "start") {
            Ok(id) => Ok(Command::Start { id }),
            Err(e) => Err(e),
        }
    } else if str_eq(sub, "delete") {
        match read_subject(words, from, "delete") {
            Ok(id) => Ok(Command::Delete { id, force: read_force(words, from) }),
            Err(e) => Err(e),
        }
    } else if str_eq(sub, "state") {
        match read_subject(words, from, "state") {
            Ok(id) => Ok(Command::State { id }),
            Err(e) => Err(e),
        }
    } else if str_eq(sub, "kill") {
        sub_kill(words, from)
    } else if str_eq(sub, "exec") {
        sub_exec(words, from)
    } else if str_eq(sub, "features") {
        Ok(Command::Features)
    } else if str_eq(sub, "list") {
        Ok(Command::List)
    } else if str_eq(sub, "spec") {
        Err(Error::new(owned("spec subcommand not implemented")))
    } else if str_eq(sub, "--version") || str_eq(sub, "-v") {
        Ok(Command::Version)
    } else if str_eq(sub, "--help") || str_eq(sub, "-h") || str_eq(sub, "help") {
        Ok(Command::Help)
    } else {
        Err(Error::new(cat2("unknown subcommand: ", sub)))
    }
}

/// Whether a word is one of the commands.
fn known(sub: &str) -> (r: bool)
    ensures
        r == is_known(sub@),
{
    str_eq(sub, "create") || str_eq(sub, "start") || str_eq(sub, "delete") || str_eq(sub, "state")
        || str_eq(sub, "kill") || str_eq(sub, "exec") || str_eq(sub, "features") || str_eq(
        sub,
        "list",
    ) || str_eq(sub, "spec") || str_eq(sub, "--version") || str_eq(sub, "-v")
}

/// Reads a whole command line.
pub fn dispatch(words: &Vec<String>) -> (d: Dispatch)
    ensures
        command_result(d.outcome) == asked(text::texts(words@)),
        d.usage == shows_usage(text::texts(words@)),
        d.globals@ == globals(past(text::texts(words@), 1), unset()).0,
        d.redirect == (globals(past(text::texts(words@), 1), unset()).1 is Ok),
{
    let ghost all = text::texts(words@);
    let from: usize = if words.len() > 1 {
        1
    } else {
        words.len()
    };
    proof {
        assert(past(all, 1) =~= all.skip(from as int));
    }
    let (g, read) = read_globals(words, from);
    match read {
        Err(e) => Dispatch { globals: g, redirect: false, usage: false, outcome: Err(e) },
        Ok(i) => {
            if i >= words.len() {
                return Dispatch {
                    globals: g,
                    redirect: true,
                    usage: true,
                    outcome: Err(Error::new(owned("missing subcommand"))),
                };
            }
            proof {
                assert(all.skip(i as int)[0] == words@[i as int]@);
            }
            Dispatch {
                globals: g,
                redirect: true,
                usage: !known(words[i].as_str()),
                outcome: read_command(words, i),
            }
        },
    }
}

/// A word in front of others.
proof fn lemma_in_front(w: Seq<char>, rest: Seq<Seq<char>>)
    ensures
        (seq![w] + rest).len() == rest.len() + 1,
        (seq![w] + rest)[0] == w,
        past(seq![w] + rest, 1) == rest,
{
    let s = seq![w] + rest;
    assert(s.skip(1) =~= rest);
    if rest.len() == 0 {
        assert(rest =~= Seq::<Seq<char>>::empty());
    }
}

/// Two words in front of others.
proof fn lemma_two_in_front(w: Seq<char>, v: Seq<char>, rest: Seq<Seq<char>>)
    ensures
        (seq![w, v] + rest).len() == rest.len() + 2,
        (seq![w, v] + rest)[0] == w,
        (seq![w, v] + rest)[1] == v,
        past(seq![w, v] + rest, 2) == rest,
{
    let s = seq![w, v] + rest;
    assert(s.skip(2) =~= rest);
    if rest.len() == 0 {
        assert(rest =~= Seq::<Seq<char>>::empty());
    }
}

/// What the options before the command do: each that takes a word takes the next, the last of its kind
/// counts, and the first word that is none of them begins the command. One without its word is an
/// error.
pub proof fn law_global_options(words: Seq<Seq<char>>, g: GlobalsView, v: Seq<char>)
    ensures
        globals(seq!["--root"@, v] + words, g) == globals(
            words,
            GlobalsView { root: Some(v), log: g.log, json_log: g.json_log },
        ),
        globals(seq!["--log"@, v] + words, g) == globals(
            words,
            GlobalsView { root: g.root, log: Some(v), json_log: g.json_log },
        ),
        globals(seq!["--log-format"@, "json"@] + words, g) == globals(
            words,
            GlobalsView { root: g.root, log: g.log, json_log: true },
        ),
        v != "json"@ ==> globals(seq!["--log-format"@, v] + words, g) == globals(words, g),
        globals(seq!["--root"@], g).1 is Err,
        globals(seq!["--log"@], g).1 is Err,
        !is_option(v) ==> globals(seq![v] + words, g) == (g, Ok::<Seq<Seq<char>>, Seq<char>>(
            seq![v] + words,
        )),
{
    reveal_strlit("--root");
    reveal_strlit("--log");
    reveal_strlit("--log-format");
    reveal_strlit("--rootless");
    reveal_strlit("--systemd-cgroup");
    reveal_strlit("--debug");
    reveal_strlit("json");
    assert("--root"@.len() == 6);
    assert("--log"@.len() == 5);
    assert("--log-format"@.len() == 12);
    assert("--rootless"@.len() == 10);
    assert("--systemd-cgroup"@.len() == 16);
    assert("--debug"@.len() == 7);
    assert("json"@.len() == 4);
    lemma_two_in_front("--root"@, v, words);
    lemma_two_in_front("--log"@, v, words);
    lemma_two_in_front("--log-format"@, "json"@, words);
    lemma_two_in_front("--log-format"@, v, words);
    lemma_in_front(v, words);
    assert(seq!["--root"@].len() == 1 && seq!["--root"@][0] == "--root"@);
    assert(seq!["--log"@].len() == 1 && seq!["--log"@][0] == "--log"@);
    assert("--root"@[0] == '-' && "--log"@[0] == '-' && "--log-format"@[0] == '-' && "--rootless"@[0] == '-' && "--systemd-cgroup"@[0] == '-' && "--debug"@[0] == '-');
}

/// What the words of a creation do: the bundle and the file for the pid are the words after their
/// options, the first plain word is the container, and what else there is changes nothing.
pub proof fn law_create_words(words: Seq<Seq<char>>, a: CreateView, v: Seq<char>)
    ensures
        create_words(seq!["-b"@, v] + words, a) == create_words(
            words,
            CreateView { bundle: v, id: a.id, pid_file: a.pid_file },
        ),
        create_words(seq!["--bundle"@, v] + words, a) == create_words(
            words,
            CreateView { bundle: v, id: a.id, pid_file: a.pid_file },
        ),
        create_words(seq!["--pid-file"@, v] + words, a) == create_words(
            words,
            CreateView { bundle: a.bundle, id: a.id, pid_file: Some(v) },
        ),
        create_words(seq!["--console-socket"@, v] + words, a) == create_words(words, a),
        create_words(seq!["--preserve-fds"@, v] + words, a) == create_words(words, a),
        create_words(seq!["--no-pivot"@] + words, a) == create_words(words, a),
        !is_option(v) ==> create_words(seq![v] + words, a) == create_words(
            words,
            CreateView {
                bundle: a.bundle,
                id: Some(
                    match a.id {
                        Some(id) => id,
                        None => v,
                    },
                ),
                pid_file: a.pid_file,
            },
        ),
        create_words(seq!["--bundle"@], a) is Err,
        create_words(seq!["--pid-file"@], a) is Err,
        create_words(Seq::empty(), a) == Ok::<CreateView, Seq<char>>(a),
{
    reveal_strlit("-b");
    reveal_strlit("--bundle");
    reveal_strlit("--pid-file");
    reveal_strlit("--console-socket");
    reveal_strlit("--preserve-fds");
    reveal_strlit("--no-pivot");
    assert("-b"@.len() == 2);
    assert("--bundle"@.len() == 8);
    assert("--pid-file"@.len() == 10);
    assert("--console-socket"@.len() == 16);
    assert("--preserve-fds"@.len() == 14);
    assert("--no-pivot"@.len() == 10);
    assert("--pid-file"@[2] == 'p');
    assert("--no-pivot"@[2] == 'n');
    lemma_two_in_front("-b"@, v, words);
    lemma_two_in_front("--bundle"@, v, words);
    lemma_two_in_front("--pid-file"@, v, words);
    lemma_two_in_front("--console-socket"@, v, words);
    lemma_two_in_front("--preserve-fds"@, v, words);
    lemma_in_front("--no-pivot"@, words);
    lemma_in_front(v, words);
    assert(seq!["--bundle"@].len() == 1 && seq!["--bundle"@][0] == "--bundle"@);
    assert(seq!["--pid-file"@].len() == 1 && seq!["--pid-file"@][0] == "--pid-file"@);
    assert("-b"@[0] == '-' && "--bundle"@[0] == '-' && "--pid-file"@[0] == '-' && "--console-socket"@[0] == '-' && "--preserve-fds"@[0] == '-' && "--no-pivot"@[0] == '-');
}

/// A creation needs a container; its bundle is the current directory where none is said.
pub proof fn law_create_command(id: Seq<char>)
    requires
        !is_option(id),
    ensures
        create_command(seq![id]) == Ok::<CommandView, Seq<char>>(
            CommandView::Create { id, bundle: "."@, pid_file: None },
        ),
        create_command(Seq::empty()) is Err,
{
    let a = CreateView { bundle: "."@, id: None, pid_file: None };
    let none = Seq::<Seq<char>>::empty();
    law_create_words(none, a, id);
    assert(seq![id] + none =~= seq![id]);
    let b = CreateView { bundle: "."@, id: Some(id), pid_file: None };
    law_create_words(none, b, id);
}

/// What the words of a command in a container do.
pub proof fn law_exec_words(words: Seq<Seq<char>>, a: ExecView, v: Seq<char>)
    ensures
        exec_words(seq!["-p"@, v] + words, a) == exec_words(
            words,
            ExecView { process: Some(v), pid_file: a.pid_file, detach: a.detach, id: a.id },
        ),
        exec_words(seq!["--process"@, v] + words, a) == exec_words(
            words,
            ExecView { process: Some(v), pid_file: a.pid_file, detach: a.detach, id: a.id },
        ),
        exec_words(seq!["--pid-file"@, v] + words, a) == exec_words(
            words,
            ExecView { process: a.process, pid_file: Some(v), detach: a.detach, id: a.id },
        ),
        exec_words(seq!["--detach"@] + words, a) == exec_words(
            words,
            ExecView { process: a.process, pid_file: a.pid_file, detach: true, id: a.id },
        ),
        exec_words(seq!["-d"@] + words, a) == exec_words(
            words,
            ExecView { process: a.process, pid_file: a.pid_file, detach: true, id: a.id },
        ),
        exec_words(seq!["--tty"@] + words, a) == exec_words(words, a),
        exec_words(seq!["-t"@] + words, a) == exec_words(words, a),
        !is_option(v) ==> exec_words(seq![v] + words, a) == exec_words(
            words,
            ExecView {
                process: a.process,
                pid_file: a.pid_file,
                detach: a.detach,
                id: Some(
                    match a.id {
                        Some(id) => id,
                        None => v,
                    },
                ),
            },
        ),
        exec_words(seq!["--process"@], a) is Err,
        exec_words(seq!["--pid-file"@], a) is Err,
        exec_words(Seq::empty(), a) == Ok::<ExecView, Seq<char>>(a),
{
    reveal_strlit("-p");
    reveal_strlit("--process");
    reveal_strlit("--pid-file");
    reveal_strlit("--detach");
    reveal_strlit("-d");
    reveal_strlit("--tty");
    reveal_strlit("-t");
    reveal_strlit("--console-socket");
    reveal_strlit("--pidfd-socket");
    reveal_strlit("--user");
    reveal_strlit("-u");
    reveal_strlit("--cwd");
    reveal_strlit("--env");
    reveal_strlit("-e");
    reveal_strlit("--additional-gids");
    reveal_strlit("-g");
    reveal_strlit("--apparmor");
    reveal_strlit("--cap");
    reveal_strlit("--no-new-privs");
    reveal_strlit("--preserve-fds");
    assert("-p"@.len() == 2);
    assert("--process"@.len() == 9);
    assert("--pid-file"@.len() == 10);
    assert("--detach"@.len() == 8);
    assert("-d"@.len() == 2);
    assert("--tty"@.len() == 5);
    assert("-t"@.len() == 2);
    assert("--console-socket"@.len() == 16);
    assert("--pidfd-socket"@.len() == 14);
    assert("--user"@.len() == 6);
    assert("-u"@.len() == 2);
    assert("--cwd"@.len() == 5);
    assert("--env"@.len() == 5);
    assert("-e"@.len() == 2);
    assert("--additional-gids"@.len() == 17);
    assert("-g"@.len() == 2);
    assert("--apparmor"@.len() == 10);
    assert("--cap"@.len() == 5);
    assert("--no-new-privs"@.len() == 14);
    assert("--preserve-fds"@.len() == 14);
    assert("-p"@[1] == 'p');
    assert("-d"@[1] == 'd');
    assert("-t"@[1] == 't');
    assert("-u"@[1] == 'u');
    assert("-e"@[1] == 'e');
    assert("-g"@[1] == 'g');
    assert("--pid-file"@[2] == 'p');
    assert("--apparmor"@[2] == 'a');
    assert("--tty"@[2] == 't');
    assert("--cwd"@[2] == 'c');
    assert("--env"@[2] == 'e');
    assert("--cap"@[2] == 'c');
    assert("--pidfd-socket"@[2] == 'p');
    assert("--no-new-privs"@[2] == 'n');
    assert("--pidfd-socket"@[3] == 'i');
    assert("--preserve-fds"@[3] == 'r');
    assert("--cwd"@[3] == 'w');
    assert("--cap"@[3] == 'a');
    assert("--preserve-fds"@[2] == 'p');
    lemma_two_in_front("-p"@, v, words);
    lemma_two_in_front("--process"@, v, words);
    lemma_two_in_front("--pid-file"@, v, words);
    lemma_in_front("--detach"@, words);
    lemma_in_front("-d"@, words);
    lemma_in_front("--tty"@, words);
    lemma_in_front("-t"@, words);
    lemma_in_front(v, words);
    assert(seq!["--process"@].len() == 1 && seq!["--process"@][0] == "--process"@);
    assert(seq!["--pid-file"@].len() == 1 && seq!["--pid-file"@][0] == "--pid-file"@);
    assert("-p"@[0] == '-' && "--process"@[0] == '-' && "--pid-file"@[0] == '-' && "--detach"@[0] == '-' && "-d"@[0] == '-' && "--tty"@[0] == '-' && "-t"@[0] == '-');
}

/// The plain words are those that begin with no dash, in their order.
pub proof fn law_plain_words(words: Seq<Seq<char>>)
    ensures
        plain_words(words) == words.filter(|w: Seq<char>| !(w.len() > 0 && w[0] == '-')),
    decreases words.len(),
{
    reveal(Seq::filter);
    if words.len() > 0 {
        law_plain_words(words.drop_last());
    }
}

/// A signal goes to the container of the first plain word, and is the second, or `TERM` where there
/// is none.
pub proof fn law_kill_words(words: Seq<Seq<char>>)
    ensures
        ({
            let plain = words.filter(|w: Seq<char>| !(w.len() > 0 && w[0] == '-'));
            &&& plain.len() == 0 <==> kill_command(words) is Err
            &&& kill_command(words) matches Ok(c) ==> (c matches CommandView::Kill { id, signal }
                && id == plain[0] && (plain.len() > 1 ==> signal == plain[1]) && (plain.len() == 1
                ==> signal == "TERM"@))
        }),
{
    law_plain_words(words);
}

/// The commands by their names: what each needs, and what it is then.
pub proof fn law_commands(rest: Seq<Seq<char>>, sub: Seq<char>)
    ensures
        ({
            let plain = rest.filter(|w: Seq<char>| !(w.len() > 0 && w[0] == '-'));
            let force = rest.contains("-f"@) || rest.contains("--force"@);
            &&& command("create"@, rest) == create_command(rest)
            &&& command("kill"@, rest) == kill_command(rest)
            &&& command("exec"@, rest) == exec_command(rest)
            &&& plain.len() > 0 ==> command("start"@, rest) == Ok::<CommandView, Seq<char>>(
                CommandView::Start { id: plain[0] },
            ) && command("state"@, rest) == Ok::<CommandView, Seq<char>>(
                CommandView::State { id: plain[0] },
            ) && command("delete"@, rest) == Ok::<CommandView, Seq<char>>(
                CommandView::Delete { id: plain[0], force },
            )
            &&& plain.len() == 0 ==> command("start"@, rest) is Err && command("state"@, rest)
                is Err && command("delete"@, rest) is Err
            &&& command("features"@, rest) == Ok::<CommandView, Seq<char>>(CommandView::Features)
            &&& command("list"@, rest) == Ok::<CommandView, Seq<char>>(CommandView::List)
            &&& command("spec"@, rest) is Err
            &&& sub == "--version"@ || sub == "-v"@ ==> command(sub, rest) == Ok::<
                CommandView,
                Seq<char>,
            >(CommandView::Version)
            &&& sub == "--help"@ || sub == "-h"@ || sub == "help"@ ==> command(sub, rest) == Ok::<
                CommandView,
                Seq<char>,
            >(CommandView::Help)
        }),
{
    law_plain_words(rest);
    reveal_strlit("create");
    reveal_strlit("start");
    reveal_strlit("delete");
    reveal_strlit("state");
    reveal_strlit("kill");
    reveal_strlit("exec");
    reveal_strlit("features");
    reveal_strlit("list");
    reveal_strlit("spec");
    reveal_strlit("--version");
    reveal_strlit("-v");
    reveal_strlit("--help");
    reveal_strlit("-h");
    reveal_strlit("help");
    assert("create"@.len() == 6);
    assert("start"@.len() == 5);
    assert("delete"@.len() == 6);
    assert("state"@.len() == 5);
    assert("kill"@.len() == 4);
    assert("exec"@.len() == 4);
    assert("features"@.len() == 8);
    assert("list"@.len() == 4);
    assert("spec"@.len() == 4);
    assert("--version"@.len() == 9);
    assert("-v"@.len() == 2);
    assert("--help"@.len() == 6);
    assert("-h"@.len() == 2);
    assert("help"@.len() == 4);
    assert("create"@[0] == 'c');
    assert("delete"@[0] == 'd');
    assert("--help"@[0] == '-');
    assert("start"@[3] == 'r');
    assert("state"@[3] == 't');
    assert("kill"@[0] == 'k');
    assert("exec"@[0] == 'e');
    assert("list"@[0] == 'l');
    assert("spec"@[0] == 's');
    assert("help"@[0] == 'h');
    assert("-v"@[1] == 'v');
    assert("-h"@[1] == 'h');
    assert(forced(rest) <==> rest.contains("-f"@) || rest.contains("--force"@)) by {
        if forced(rest) {
            let i = choose|i: int|
                0 <= i < rest.len() && (#[trigger] rest[i] == "-f"@ || rest[i] == "--force"@);
            assert(rest.contains(rest[i]));
        }
        if rest.contains("-f"@) {
            let i = choose|i: int| 0 <= i < rest.len() && rest[i] == "-f"@;
            assert(rest[i] == "-f"@);
        }
        if rest.contains("--force"@) {
            let i = choose|i: int| 0 <= i < rest.len() && rest[i] == "--force"@;
            assert(rest[i] == "--force"@);
        }
    }
}

} // verus!
