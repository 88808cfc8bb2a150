//! Running a command for an agent: bounded output, a timeout, and a result a program can read.

use vstd::prelude::*;
use vstd::string::*;
use vstd::utf8::*;

use crate::bytes::copy_bytes;
use crate::child_calls::{EAGAIN, EINTR};
use crate::error::Error;
use crate::exec::AgentExecOpts;
use crate::json;
use crate::json::{named, render_json, Json, JsonView};
use crate::order;
use crate::signal;
use crate::signal::{ending_of, SIGKILL, SIGTERM};
use crate::state;
use crate::state::int_to_json;
use crate::text;
use crate::text::{cat2, chars_of, dec_i64, owned, parse_i32, parse_unsigned, split, str_eq, string_of, trim};

verus! {

pub const EPIPE: i32 = 32;

/// How long after `SIGTERM` `SIGKILL` follows, in milliseconds.
pub const KILL_AFTER_MS: u64 = 100;

/// What a process wrote to one of its streams, up to a limit.
#[derive(Debug)]
pub struct CapturedStream {
    /// The first bytes, no more than the limit.
    pub data: Vec<u8>,
    /// How many there were.
    pub bytes: usize,
    /// Whether there were more than the limit.
    pub truncated: bool,
}

/// Whether `c` is what is kept of the bytes `all` under the limit `limit`.
pub open spec fn keeps(c: CapturedStream, all: Seq<u8>, limit: int) -> bool {
    &&& c.data@ == (if all.len() <= limit {
        all
    } else {
        all.take(limit)
    })
    &&& c.bytes == all.len()
    &&& c.truncated == (all.len() > limit)
}

impl CapturedStream {
    /// Nothing yet.
    pub fn new(limit: usize) -> (c: CapturedStream)
        ensures
            keeps(c, Seq::empty(), limit as int),
    {
        let capacity: usize = if limit < 8192 {
            limit
        } else {
            8192
        };
        CapturedStream { data: Vec::with_capacity(capacity), bytes: 0, truncated: false }
    }

    /// Takes in what was read.
    pub fn push(&mut self, chunk: &[u8], limit: usize)
        requires
            old(self).bytes + chunk@.len() <= usize::MAX,
        ensures
            forall|all: Seq<u8>| #[trigger]
                keeps(*old(self), all, limit as int) ==> keeps(
                    *final(self),
                    all + chunk@,
                    limit as int,
                ),
            final(self).bytes == old(self).bytes + chunk@.len(),
    {
        let ghost was = self.data@;
        let ghost before = *self;
        self.bytes = self.bytes + chunk.len();
        let room: usize = if self.data.len() < limit {
            limit - self.data.len()
        } else {
            0
        };
        let take: usize = if room < chunk.len() {
            room
        } else {
            chunk.len()
        };
        let mut i: usize = 0;
        let ghost total = self.bytes;
        let ghost cut = self.truncated;
        while i < take
            invariant
                i <= take <= chunk@.len(),
                self.data@ == was + chunk@.take(i as int),
                self.bytes == total,
                self.truncated == cut,
            decreases take - i,
        {
            self.data.push(chunk[i]);
            i += 1;
            proof {
                assert(self.data@ =~= was + chunk@.take(i as int));
            }
        }
        proof {
            if take == 0 {
                assert(was + chunk@.take(0) =~= was);
            }
        }
        if self.bytes > limit {
            self.truncated = true;
        }
        proof {
            assert forall|all: Seq<u8>| #[trigger] keeps(before, all, limit as int) implies keeps(
                *self,
                all + chunk@,
                limit as int,
            ) by {
                let now = all + chunk@;
                if now.len() <= limit {
                    assert(chunk@.take(take as int) =~= chunk@);
                    assert(self.data@ =~= now);
                } else {
                    assert(self.data@ =~= now.take(limit as int));
                }
            }
        }
    }
}

/// What to do after a read of a stream.
#[derive(Debug, Clone, Copy, PartialEq, Eq, Structural)]
pub enum ReadNext {
    /// Take the bytes in and read again.
    More,
    /// Come back later.
    Later,
    /// Close the stream; it has ended.
    Ended,
    /// Close the stream and fail with the error of the call.
    Failed,
}

/// What to do after a read that returned `n`, with `errno` where that is negative.
pub open spec fn read_next(n: i64, errno: i32) -> ReadNext {
    if n > 0 {
        ReadNext::More
    } else if n == 0 {
        ReadNext::Ended
    } else if errno == EAGAIN || errno == EINTR {
        ReadNext::Later
    } else {
        ReadNext::Failed
    }
}

/// Decides what to do after a read of a stream.
pub fn read_stream_available(n: i64, errno: i32) -> (r: ReadNext)
    ensures
        r == read_next(n, errno),
{
    if n > 0 {
        ReadNext::More
    } else if n == 0 {
        ReadNext::Ended
    } else if errno == EAGAIN || errno == EINTR {
        ReadNext::Later
    } else {
        ReadNext::Failed
    }
}

/// What to do after a write of the input.
#[derive(Debug, Clone, Copy, PartialEq, Eq, Structural)]
pub enum WriteNext {
    /// So many bytes went; write on, if any are left.
    Wrote(usize),
    /// Come back later.
    Later,
    /// Close the input; nobody reads it any more.
    Ended,
    /// Close the input and fail with the error of the call.
    Failed,
}

/// What to do after a write that returned `n`, with `errno` where that is negative.
pub open spec fn write_next(n: i64, errno: i32) -> WriteNext {
    if n > 0 {
        WriteNext::Wrote(n as usize)
    } else if n == 0 || errno == EAGAIN || errno == EINTR {
        WriteNext::Later
    } else if errno == EPIPE {
        WriteNext::Ended
    } else {
        WriteNext::Failed
    }
}

/// Decides what to do after a write of the input.
pub fn write_stdin_available(n: i64, errno: i32) -> (r: WriteNext)
    ensures
        r == write_next(n, errno),
{
    if n > 0 {
        WriteNext::Wrote(n as usize)
    } else if n == 0 || errno == EAGAIN || errno == EINTR {
        WriteNext::Later
    } else if errno == EPIPE {
        WriteNext::Ended
    } else {
        WriteNext::Failed
    }
}

/// The wait for a command: its streams, its status, and how far the timeout has gone.
#[derive(Debug)]
pub struct AgentWait {
    /// When the wait began, in milliseconds.
    pub started: u64,
    pub timeout_ms: Option<u64>,
    pub max_output_bytes: usize,
    pub stdin_len: usize,
    pub stdin_pos: usize,
    pub stdin_open: bool,
    pub out_open: bool,
    pub err_open: bool,
    pub stdout: CapturedStream,
    pub stderr: CapturedStream,
    pub status: Option<i32>,
    /// When `SIGTERM` was sent, if it was.
    pub term_sent_at: Option<u64>,
    pub kill_sent: bool,
}

impl AgentWait {
    /// What holds of every wait: no more input was written than there is, an open input has some
    /// left, and `SIGKILL` follows `SIGTERM`.
    pub open spec fn wf(&self) -> bool {
        &&& self.stdin_pos <= self.stdin_len
        &&& self.stdin_open ==> self.stdin_pos < self.stdin_len
        &&& self.kill_sent ==> self.term_sent_at is Some
        &&& self.term_sent_at is Some ==> self.timeout_ms is Some
    }

    /// Whether the command ran out of time.
    pub open spec fn timed_out(&self) -> bool {
        self.term_sent_at is Some
    }

    /// Whether nothing is left to wait for: the command has ended, and all its streams have.
    pub open spec fn over(&self) -> bool {
        self.status is Some && !self.out_open && !self.err_open && !self.stdin_open
    }

    /// The signal due at a time, if any: `SIGTERM` once the time is up, `SIGKILL` a little later.
    pub open spec fn signal_due(&self, now: int) -> Option<i32> {
        if self.status is Some {
            None
        } else {
            match self.timeout_ms {
                None => None,
                Some(limit) => match self.term_sent_at {
                    None => if now - self.started >= limit {
                        Some(SIGTERM)
                    } else {
                        None
                    },
                    Some(t) => if !self.kill_sent && now - t >= KILL_AFTER_MS {
                        Some(SIGKILL)
                    } else {
                        None
                    },
                },
            }
        }
    }

    /// The wait after the signal due was sent.
    pub open spec fn signalled(&self, now: u64) -> AgentWait {
        match self.signal_due(now as int) {
            Some(s) => if s == SIGTERM {
                AgentWait { term_sent_at: Some(now), ..*self }
            } else {
                AgentWait { kill_sent: true, ..*self }
            },
            None => *self,
        }
    }

    /// Starts the wait. An input that is empty is closed at once.
    pub fn new(opts: &AgentExecOpts, now: u64) -> (w: AgentWait)
        ensures
            w.wf(),
            w.started == now,
            w.timeout_ms == opts.timeout_ms,
            w.max_output_bytes == opts.max_output_bytes,
            w.stdin_len == (match opts.stdin {
                Some(b) => b@.len(),
                None => 0,
            }),
            w.stdin_pos == 0,
            w.stdin_open == (w.stdin_len > 0),
            w.out_open,
            w.err_open,
            keeps(w.stdout, Seq::empty(), opts.max_output_bytes as int),
            keeps(w.stderr, Seq::empty(), opts.max_output_bytes as int),
            w.status is None,
            w.term_sent_at is None,
            !w.kill_sent,
    {
        let stdin_len: usize = match &opts.stdin {
            Some(b) => b.len(),
            None => 0,
        };
        AgentWait {
            started: now,
            timeout_ms: opts.timeout_ms,
            max_output_bytes: opts.max_output_bytes,
            stdin_len,
            stdin_pos: 0,
            stdin_open: stdin_len > 0,
            out_open: true,
            err_open: true,
            stdout: CapturedStream::new(opts.max_output_bytes),
            stderr: CapturedStream::new(opts.max_output_bytes),
            status: None,
            term_sent_at: None,
            kill_sent: false,
        }
    }

    /// Takes in the result of a write of the input and says what to do next; the input is closed
    /// when all of it went or nobody reads it.
    pub fn on_write(&mut self, n: i64, errno: i32) -> (r: WriteNext)
        requires
            old(self).wf(),
            old(self).stdin_open,
            n <= old(self).stdin_len - old(self).stdin_pos,
        ensures
            r == write_next(n, errno),
            final(self).wf(),
            *final(self) == (AgentWait {
                stdin_pos: if n > 0 {
                    (old(self).stdin_pos + n) as usize
                } else {
                    old(self).stdin_pos
                },
                stdin_open: match write_next(n, errno) {
                    WriteNext::Wrote(_) => old(self).stdin_pos + n < old(self).stdin_len,
                    WriteNext::Later => true,
                    WriteNext::Ended => false,
                    WriteNext::Failed => false,
                },
                ..*old(self)
            }),
    {
        let next = write_stdin_available(n, errno);
        match next {
            WriteNext::Wrote(k) => {
                self.stdin_pos = self.stdin_pos + k;
                self.stdin_open = self.stdin_pos < self.stdin_len;
            },
            WriteNext::Later => {},
            WriteNext::Ended => {
                self.stdin_open = false;
            },
            WriteNext::Failed => {
                self.stdin_open = false;
            },
        }
        next
    }

    /// Takes in the result `rc` of asking for the status of the process `pid`. Where it cannot be
    /// had, the command counts as ended well.
    pub fn on_wait(&mut self, pid: i32, rc: i32, status: i32, errno: i32)
        ensures
            *final(self) == (AgentWait {
                status: if old(self).status is Some {
                    old(self).status
                } else if rc == pid {
                    Some(status)
                } else if rc < 0 && errno != EINTR {
                    Some(0i32)
                } else {
                    None
                },
                ..*old(self)
            }),
    {
        if self.status.is_none() {
            if rc == pid {
                self.status = Some(status);
            } else if rc < 0 && errno != EINTR {
                self.status = Some(0);
            }
        }
    }

    /// Whether nothing is left to wait for.
    pub fn is_over(&self) -> (r: bool)
        ensures
            r == self.over(),
    {
        self.status.is_some() && !self.out_open && !self.err_open && !self.stdin_open
    }

    /// Takes in what was read of the standard output, or of the standard error, and says what to do
    /// next. The stream is closed when it has ended or failed.
    pub fn on_read(&mut self, of_stderr: bool, n: i64, errno: i32, chunk: &[u8]) -> (r: ReadNext)
        requires
            old(self).wf(),
            n > 0 ==> chunk@.len() == n,
            old(self).stdout.bytes + chunk@.len() <= usize::MAX,
            old(self).stderr.bytes + chunk@.len() <= usize::MAX,
        ensures
            r == read_next(n, errno),
            final(self).wf(),
            *final(self) == (AgentWait {
                out_open: old(self).out_open && (of_stderr || r == ReadNext::More || r
                    == ReadNext::Later),
                err_open: old(self).err_open && (!of_stderr || r == ReadNext::More || r
                    == ReadNext::Later),
                stdout: final(self).stdout,
                stderr: final(self).stderr,
                ..*old(self)
            }),
            n > 0 && !of_stderr ==> {
                &&& final(self).stderr == old(self).stderr
                &&& forall|all: Seq<u8>| #[trigger]
                    keeps(old(self).stdout, all, old(self).max_output_bytes as int) ==> keeps(
                        final(self).stdout,
                        all + chunk@,
                        old(self).max_output_bytes as int,
                    )
            },
            n > 0 && of_stderr ==> {
                &&& final(self).stdout == old(self).stdout
                &&& forall|all: Seq<u8>| #[trigger]
                    keeps(old(self).stderr, all, old(self).max_output_bytes as int) ==> keeps(
                        final(self).stderr,
                        all + chunk@,
                        old(self).max_output_bytes as int,
                    )
            },
            n <= 0 ==> final(self).stdout == old(self).stdout && final(self).stderr == old(
                self,
            ).stderr,
    {
        let next = read_stream_available(n, errno);
        let limit = self.max_output_bytes;
        match next {
            ReadNext::More => {
                if of_stderr {
                    self.stderr.push(chunk, limit);
                } else {
                    self.stdout.push(chunk, limit);
                }
            },
            ReadNext::Later => {},
            _ => {
                if of_stderr {
                    self.err_open = false;
                } else {
                    self.out_open = false;
                }
            },
        }
        next
    }

    /// The signal to send now, if any.
    pub fn on_clock(&mut self, now: u64) -> (s: Option<i32>)
        requires
            old(self).wf(),
            old(self).started <= now,
            old(self).term_sent_at matches Some(t) ==> t <= now,
        ensures
            final(self).wf(),
            s == old(self).signal_due(now as int),
            *final(self) == old(self).signalled(now),
    {
        if self.status.is_some() {
            return None;
        }
        let limit: u64 = match self.timeout_ms {
            Some(limit) => limit,
            None => {
                return None;
            },
        };
        match self.term_sent_at {
            None => {
                if now - self.started >= limit {
                    self.term_sent_at = Some(now);
                    return Some(SIGTERM);
                }
                None
            },
            Some(t) => {
                if !self.kill_sent && now - t >= KILL_AFTER_MS {
                    self.kill_sent = true;
                    return Some(SIGKILL);
                }
                None
            },
        }
    }
}

/// A command that runs out of time gets `SIGTERM` once, then `SIGKILL` once, no sooner than the
/// grace after it, and no signal from then on.
pub proof fn law_kill_follows_term(w: AgentWait, now: u64, later: int)
    requires
        w.wf(),
    ensures
        w.signal_due(now as int) == Some(SIGKILL) ==> w.timed_out(),
        w.signal_due(now as int) == Some(SIGTERM) ==> w.signalled(now).signal_due(later) != Some(
            SIGTERM,
        ) && (w.signalled(now).signal_due(later) == Some(SIGKILL) ==> later - now
            >= KILL_AFTER_MS),
        w.signal_due(now as int) == Some(SIGKILL) ==> w.signalled(now).signal_due(later) is None,
{
}

/// A command that has ended, or that has no timeout, gets no signal.
pub proof fn law_no_signal_without_timeout(w: AgentWait, now: int)
    ensures
        w.timeout_ms is None || w.status is Some ==> w.signal_due(now) is None,
{
}

/// What the cgroup says of the resources used.
#[derive(Debug, Clone, Copy, PartialEq, Eq, Structural)]
pub struct CgroupSample {
    pub cpu_usage_usec: u64,
    pub memory_current: u64,
    pub memory_peak: u64,
    pub pids_current: u64,
    pub pids_peak: u64,
    pub oom: u64,
    pub oom_kill: u64,
}

/// A sample where there is no cgroup.
pub open spec fn no_sample() -> CgroupSample {
    CgroupSample {
        cpu_usage_usec: 0,
        memory_current: 0,
        memory_peak: 0,
        pids_current: 0,
        pids_peak: 0,
        oom: 0,
        oom_kill: 0,
    }
}

impl Default for CgroupSample {
    fn default() -> (s: CgroupSample)
        ensures
            s == no_sample(),
    {
        CgroupSample {
            cpu_usage_usec: 0,
            memory_current: 0,
            memory_peak: 0,
            pids_current: 0,
            pids_peak: 0,
            oom: 0,
            oom_kill: 0,
        }
    }
}

/// The number a text stands for, white space aside; zero where it stands for none.
pub open spec fn number_in(s: Seq<char>) -> u64 {
    match text::unsigned_value(text::trimmed(s), u64::MAX as nat) {
        Some(n) => n as u64,
        None => 0,
    }
}

/// The number a text stands for.
pub fn read_number(s: &str) -> (n: u64)
    ensures
        n == number_in(s@),
{
    match parse_unsigned(trim(s), 0xffff_ffff_ffff_ffff) {
        Some(n) => n,
        None => 0,
    }
}

/// What a line says of a key: the number behind the first space, where the key is in front of it.
pub open spec fn line_value(line: Seq<char>, key: Seq<char>) -> Option<nat> {
    match line.index_of_first(' ') {
        Some(at) => if line.take(at) == key {
            text::unsigned_value(text::trimmed(line.skip(at + 1)), u64::MAX as nat)
        } else {
            None
        },
        None => None,
    }
}

/// The first number that one of the lines gives for a key; zero where none does.
pub open spec fn key_value(lines: Seq<Seq<char>>, key: Seq<char>) -> u64
    decreases lines.len(),
{
    if lines.len() == 0 {
        0
    } else {
        match line_value(lines[0], key) {
            Some(n) => n as u64,
            None => key_value(lines.skip(1), key),
        }
    }
}

/// Where the first space of a line is.
fn first_space(v: &Vec<char>) -> (k: usize)
    ensures
        k <= v@.len(),
        v@.index_of_first(' ') == (if k == v@.len() {
            None::<int>
        } else {
            Some(k as int)
        }),
{
    proof {
        v@.index_of_first_ensures(' ');
    }
    let mut k: usize = 0;
    while k < v.len()
        invariant
            k <= v.len(),
            forall|j: int| 0 <= j < k ==> v@[j] != ' ',
        decreases v.len() - k,
    {
        if v[k] == ' ' {
            proof {
                v@.index_of_first_ensures(' ');
                assert(v@.contains(' '));
            }
            return k;
        }
        k += 1;
    }
    proof {
        assert(!v@.contains(' '));
    }
    k
}

/// What a line says of a key.
fn read_line(line: &str, key: &str) -> (n: Option<u64>)
    ensures
        match n {
            Some(n) => line_value(line@, key@) == Some(n as nat),
            None => line_value(line@, key@) is None,
        },
{
    let v = chars_of(line);
    let k = first_space(&v);
    if k == v.len() {
        return None;
    }
    let name = string_of(vstd::slice::slice_subrange(v.as_slice(), 0, k));
    let rest = string_of(vstd::slice::slice_subrange(v.as_slice(), k + 1, v.len()));
    proof {
        assert(name@ =~= line@.take(k as int));
        assert(rest@ =~= line@.skip(k + 1));
    }
    if !str_eq(name.as_str(), key) {
        return None;
    }
    parse_unsigned(trim(rest.as_str()), 0xffff_ffff_ffff_ffff)
}

/// The first number that one of the lines of a text gives for a key.
pub fn parse_cgroup_key(s: &str, key: &str) -> (n: u64)
    ensures
        n == key_value(text::pieces(s@, '\n'), key@),
{
    let lines = split(s, '\n');
    let ghost all = text::texts(lines@);
    let mut i: usize = 0;
    proof {
        assert(all.skip(0) =~= all);
    }
    while i < lines.len()
        invariant
            i <= lines.len(),
            all == text::texts(lines@),
            all == text::pieces(s@, '\n'),
            key_value(all, key@) == key_value(all.skip(i as int), key@),
        decreases lines.len() - i,
    {
        proof {
            let rest = all.skip(i as int);
            assert(rest[0] == lines@[i as int]@);
            assert(rest.skip(1) =~= all.skip(i + 1));
        }
        if let Some(n) = read_line(lines[i].as_str(), key) {
            return n;
        }
        i += 1;
    }
    0
}

/// The samples of a cgroup, out of the texts of its files.
pub fn read_cgroup_sample(
    cpu_stat: &str,
    memory_current: &str,
    memory_peak: &str,
    pids_current: &str,
    pids_peak: &str,
    memory_events: &str,
) -> (s: CgroupSample)
    ensures
        s == (CgroupSample {
            cpu_usage_usec: key_value(text::pieces(cpu_stat@, '\n'), "usage_usec"@),
            memory_current: number_in(memory_current@),
            memory_peak: number_in(memory_peak@),
            pids_current: number_in(pids_current@),
            pids_peak: number_in(pids_peak@),
            oom: key_value(text::pieces(memory_events@, '\n'), "oom"@),
            oom_kill: key_value(text::pieces(memory_events@, '\n'), "oom_kill"@),
        }),
{
    CgroupSample {
        cpu_usage_usec: parse_cgroup_key(cpu_stat, "usage_usec"),
        memory_current: read_number(memory_current),
        memory_peak: read_number(memory_peak),
        pids_current: read_number(pids_current),
        pids_peak: read_number(pids_peak),
        oom: parse_cgroup_key(memory_events, "oom"),
        oom_kill: parse_cgroup_key(memory_events, "oom_kill"),
    }
}

/// What came of a command.
#[derive(Debug)]
pub struct AgentExecResult {
    pub exit_code: Option<i32>,
    pub signal: Option<i32>,
    pub timeout: bool,
    pub duration_ms: u64,
    pub stdout: CapturedStream,
    pub stderr: CapturedStream,
    pub cpu_ms: u64,
    pub max_rss_bytes: u64,
    pub pids_peak: u64,
    pub oom_killed: bool,
}

/// The larger of two numbers.
pub open spec fn larger(a: u64, b: u64) -> u64 {
    if a < b {
        b
    } else {
        a
    }
}

/// Gives the larger number.
fn larger_of(a: u64, b: u64) -> (m: u64)
    ensures
        m == larger(a, b),
{
    if a < b {
        b
    } else {
        a
    }
}

/// The result of a wait that is over: how the command ended, what it wrote, how long it took, and
/// what it used between the two samples.
pub fn wait_agent_exec(w: AgentWait, now: u64, before: CgroupSample, after: CgroupSample) -> (r:
    AgentExecResult)
    requires
        w.over(),
        w.started <= now,
    ensures
        r.exit_code == signal::ending(w.status->Some_0).exit_code,
        r.signal == signal::ending(w.status->Some_0).signal,
        r.timeout == w.timed_out(),
        r.duration_ms == now - w.started,
        r.stdout == w.stdout,
        r.stderr == w.stderr,
        r.cpu_ms == (if after.cpu_usage_usec >= before.cpu_usage_usec {
            (after.cpu_usage_usec - before.cpu_usage_usec) / 1000
        } else {
            0
        }),
        r.max_rss_bytes == larger(
            larger(after.memory_peak, after.memory_current),
            before.memory_peak,
        ),
        r.pids_peak == larger(larger(after.pids_peak, after.pids_current), before.pids_peak),
        r.oom_killed == (after.oom_kill > before.oom_kill || after.oom > before.oom),
{
    let status: i32 = match w.status {
        Some(s) => s,
        None => 0,
    };
    let e = ending_of(status);
    let used: u64 = if after.cpu_usage_usec >= before.cpu_usage_usec {
        after.cpu_usage_usec - before.cpu_usage_usec
    } else {
        0
    };
    AgentExecResult {
        exit_code: e.exit_code,
        signal: e.signal,
        timeout: w.term_sent_at.is_some(),
        duration_ms: now - w.started,
        stdout: w.stdout,
        stderr: w.stderr,
        cpu_ms: used / 1000,
        max_rss_bytes: larger_of(
            larger_of(after.memory_peak, after.memory_current),
            before.memory_peak,
        ),
        pids_peak: larger_of(larger_of(after.pids_peak, after.pids_current), before.pids_peak),
        oom_killed: after.oom_kill > before.oom_kill || after.oom > before.oom,
    }
}

/// What went wrong with a command, in short.
pub open spec fn summary(r: AgentExecResult) -> Seq<char> {
    if r.timeout {
        "timeout"@
    } else {
        match r.signal {
            Some(s) => "signal "@ + text::dec_int(s as int),
            None => "exit "@ + text::dec_int(
                match r.exit_code {
                    Some(c) => c as int,
                    None => 1,
                },
            ),
        }
    }
}

/// Whether the command ended well, and in time.
pub open spec fn succeeded(r: AgentExecResult) -> bool {
    r.exit_code == Some(0i32) && !r.timeout
}

/// Whole numbers that may be missing, as JSON.
pub open spec fn opt_int_json(n: Option<i32>) -> JsonView {
    match n {
        Some(n) => state::int_json(n as int),
        None => JsonView::Null,
    }
}

/// A number that may be absent, as a value.
fn opt_int_to_json(n: Option<i32>) -> (j: Json)
    ensures
        j@ == opt_int_json(n),
{
    match n {
        Some(n) => int_to_json(n as i64),
        None => Json::Null,
    }
}

/// The text `String::from_utf8_lossy` makes of bytes.
pub uninterp spec fn lossy_text(bytes: Seq<u8>) -> Seq<char>;

/// `String::from_utf8_lossy` gives a text back whole where the bytes are one in UTF-8; elsewhere it
/// puts a replacement character for what is none.
#[verifier::external_body]
pub(crate) fn lossy(bytes: &[u8]) -> (s: String)
    ensures
        s@ == lossy_text(bytes@),
        valid_utf8(bytes@) ==> s@ == decode_utf8(bytes@),
{
    String::from_utf8_lossy(bytes).into_owned()
}

/// The result as JSON.
pub open spec fn result_json(r: AgentExecResult) -> JsonView {
    JsonView::Object(
        seq![
            ("cpu_ms"@, JsonView::UInt(r.cpu_ms)),
            ("duration_ms"@, JsonView::UInt(r.duration_ms)),
            ("exit_code"@, opt_int_json(r.exit_code)),
            ("max_rss_bytes"@, JsonView::UInt(r.max_rss_bytes)),
            ("oom_killed"@, JsonView::Bool(r.oom_killed)),
            ("pids_peak"@, JsonView::UInt(r.pids_peak)),
            ("signal"@, opt_int_json(r.signal)),
            ("stderr"@, JsonView::Str(lossy_text(r.stderr.data@))),
            ("stderr_bytes"@, JsonView::UInt(r.stderr.bytes as u64)),
            ("stderr_truncated"@, JsonView::Bool(r.stderr.truncated)),
            ("stdout"@, JsonView::Str(lossy_text(r.stdout.data@))),
            ("stdout_bytes"@, JsonView::UInt(r.stdout.bytes as u64)),
            ("stdout_truncated"@, JsonView::Bool(r.stdout.truncated)),
            ("timeout"@, JsonView::Bool(r.timeout)),
        ],
    )
}

/// The keys of the result are in order.
proof fn lemma_result_tame(r: AgentExecResult)
    ensures
        json::tame(result_json(r), json::read_depth()),
{
    reveal_strlit("cpu_ms");
    reveal_strlit("duration_ms");
    reveal_strlit("exit_code");
    reveal_strlit("max_rss_bytes");
    reveal_strlit("oom_killed");
    reveal_strlit("pids_peak");
    reveal_strlit("signal");
    reveal_strlit("stderr");
    reveal_strlit("stderr_bytes");
    reveal_strlit("stderr_truncated");
    reveal_strlit("stdout");
    reveal_strlit("stdout_bytes");
    reveal_strlit("stdout_truncated");
    reveal_strlit("timeout");
    order::lemma_first_difference("cpu_ms"@, "duration_ms"@, 0);
    order::lemma_first_difference("duration_ms"@, "exit_code"@, 0);
    order::lemma_first_difference("exit_code"@, "max_rss_bytes"@, 0);
    order::lemma_first_difference("max_rss_bytes"@, "oom_killed"@, 0);
    order::lemma_first_difference("oom_killed"@, "pids_peak"@, 0);
    order::lemma_first_difference("pids_peak"@, "signal"@, 0);
    order::lemma_first_difference("signal"@, "stderr"@, 1);
    order::lemma_prefix_before("stderr"@, "stderr_bytes"@);
    order::lemma_first_difference("stderr_bytes"@, "stderr_truncated"@, 7);
    order::lemma_first_difference("stderr_truncated"@, "stdout"@, 3);
    order::lemma_prefix_before("stdout"@, "stdout_bytes"@);
    order::lemma_first_difference("stdout_bytes"@, "stdout_truncated"@, 7);
    order::lemma_first_difference("stdout_truncated"@, "timeout"@, 0);
    let m = result_json(r)->Object_0;
    json::lemma_adjacent_keys(m);
    let d = (json::read_depth() - 1) as nat;
    assert forall|i: int| 0 <= i < m.len() implies json::tame((#[trigger] m[i]).1, d) by {
    }
}

/// What is printed for a command.
pub struct Printed {
    pub stdout: Vec<u8>,
    pub stderr: Vec<u8>,
}

impl AgentExecResult {
    /// What went wrong with a command, in short.
    pub fn failure_summary(&self) -> (s: String)
        ensures
            s@ == summary(*self),
    {
        if self.timeout {
            return owned("timeout");
        }
        match self.signal {
            Some(s) => {
                let n = dec_i64(s as i64);
                cat2("signal ", n.as_str())
            },
            None => {
                let c: i32 = match self.exit_code {
                    Some(c) => c,
                    None => 1,
                };
                let n = dec_i64(c as i64);
                cat2("exit ", n.as_str())
            },
        }
    }

    /// What becomes of the request: an error where the command failed, unless the result is given
    /// as JSON.
    pub fn outcome(&self, json: bool) -> (r: Result<(), Error>)
        ensures
            match r {
                Ok(()) => json || succeeded(*self),
                Err(e) => !json && !succeeded(*self) && e@ == "exec: "@ + summary(*self),
            },
    {
        let ok = match self.exit_code {
            Some(c) => c == 0 && !self.timeout,
            None => false,
        };
        if json || ok {
            Ok(())
        } else {
            let s = self.failure_summary();
            Err(Error::new(cat2("exec: ", s.as_str())))
        }
    }
}

/// What is printed for a command: one line of JSON, or what it wrote.
pub fn emit_agent_exec_result(r: &AgentExecResult, json: bool) -> (p: Printed)
    ensures
        json ==> {
            &&& p.stderr@.len() == 0
            &&& p.stdout@ == json::rendered(result_json(*r)) + seq![10u8]
            &&& json::reads_as(p.stdout@.drop_last(), result_json(*r))
        },
        !json ==> p.stdout@ == r.stdout.data@ && p.stderr@ == r.stderr.data@,
{
    if !json {
        return Printed { stdout: copy_bytes(&r.stdout.data), stderr: copy_bytes(&r.stderr.data) };
    }
    let m = vec![
        named("cpu_ms", Json::UInt(r.cpu_ms)),
        named("duration_ms", Json::UInt(r.duration_ms)),
        named("exit_code", opt_int_to_json(r.exit_code)),
        named("max_rss_bytes", Json::UInt(r.max_rss_bytes)),
        named("oom_killed", Json::Bool(r.oom_killed)),
        named("pids_peak", Json::UInt(r.pids_peak)),
        named("signal", opt_int_to_json(r.signal)),
        named("stderr", Json::Str(lossy(r.stderr.data.as_slice()))),
        named("stderr_bytes", Json::UInt(r.stderr.bytes as u64)),
        named("stderr_truncated", Json::Bool(r.stderr.truncated)),
        named("stdout", Json::Str(lossy(r.stdout.data.as_slice()))),
        named("stdout_bytes", Json::UInt(r.stdout.bytes as u64)),
        named("stdout_truncated", Json::Bool(r.stdout.truncated)),
        named("timeout", Json::Bool(r.timeout)),
    ];
    let ghost mv = m@;
    let doc = Json::Object(m);
    proof {
        assert(doc@->Object_0 =~= result_json(*r)->Object_0);
        lemma_result_tame(*r);
    }
    let mut line = render_json(&doc);
    let ghost text = line@;
    line.push(10);
    proof {
        assert(line@ =~= text + seq![10u8]);
        assert(line@.drop_last() =~= text);
    }
    Printed { stdout: line, stderr: Vec::new() }
}

/// The processes a list of pids names, one on each line, but for one.
pub open spec fn other_pids(lines: Seq<Seq<char>>, but: int) -> Seq<int>
    decreases lines.len(),
{
    if lines.len() == 0 {
        Seq::empty()
    } else {
        let head = other_pids(lines.drop_last(), but);
        match text::i32_value(text::trimmed(lines.last())) {
            Some(p) => if p != but {
                head.push(p)
            } else {
                head
            },
            None => head,
        }
    }
}

/// Numbers as integers.
pub open spec fn ints(v: Seq<i32>) -> Seq<int> {
    Seq::new(v.len(), |i: int| v[i] as int)
}

/// The processes of a cgroup but for one, out of the text of its list.
pub fn pids_but(procs: &str, but: i32) -> (v: Vec<i32>)
    ensures
        ints(v@) == other_pids(text::pieces(procs@, '\n'), but as int),
{
    let lines = split(procs, '\n');
    let ghost all = text::texts(lines@);
    let mut v: Vec<i32> = Vec::new();
    let mut i: usize = 0;
    proof {
        assert(all.subrange(0, 0) =~= Seq::<Seq<char>>::empty());
        assert(ints(v@) =~= other_pids(all.subrange(0, 0), but as int));
    }
    while i < lines.len()
        invariant
            i <= lines.len(),
            all == text::texts(lines@),
            ints(v@) == other_pids(all.subrange(0, i as int), but as int),
        decreases lines.len() - i,
    {
        let ghost was = v@;
        proof {
            let part = all.subrange(0, i + 1);
            assert(part.drop_last() =~= all.subrange(0, i as int));
            assert(part.last() == lines@[i as int]@);
        }
        if let Some(p) = parse_i32(trim(lines[i].as_str())) {
            if p != but {
                v.push(p);
                proof {
                    assert(ints(v@) =~= ints(was).push(p as int));
                }
            }
        }
        i += 1;
    }
    proof {
        assert(all.subrange(0, all.len() as int) =~= all);
    }
    v
}

/// Whom to signal to end a command: its process group where the whole tree is to go, and the process
/// itself.
pub open spec fn signal_targets(pid: int, kill_tree: bool) -> Seq<int> {
    if kill_tree {
        seq![-pid, pid]
    } else {
        seq![pid]
    }
}

/// Whom to signal to end a command. With `SIGKILL` the whole tree goes: then the other processes of
/// the cgroup, whose list is `procs`, are signalled as well.
pub fn kill_exec_tree(pid: i32, kill_tree: bool, sig: i32, procs: &str) -> (v: Vec<i32>)
    requires
        pid > i32::MIN,
    ensures
        ints(v@) == signal_targets(pid as int, kill_tree) + (if sig == SIGKILL && kill_tree {
            other_pids(text::pieces(procs@, '\n'), pid as int)
        } else {
            Seq::empty()
        }),
{
    let mut v: Vec<i32> = Vec::new();
    if kill_tree {
        v.push(-pid);
    }
    v.push(pid);
    let ghost first = v@;
    proof {
        assert(ints(v@) =~= signal_targets(pid as int, kill_tree));
    }
    if sig == SIGKILL && kill_tree {
        let mut others = pids_but(procs, pid);
        let ghost o = others@;
        v.append(&mut others);
        proof {
            assert(ints(v@) =~= ints(first) + ints(o));
        }
    } else {
        proof {
            assert(ints(v@) =~= ints(v@) + Seq::<int>::empty());
        }
    }
    v
}

/// The result as it is read back: under each name stands what the command gave. The exit code is the
/// number that the command exited with where it exited, and null exactly where it did not; the signal
/// likewise; the sizes are those of the whole streams, kept or not.
pub proof fn law_result_read_back(r: AgentExecResult)
    ensures
        ({
            let d = result_json(r);
            &&& json::u64_at(json::field(d, "cpu_ms"@)) == Some(r.cpu_ms)
            &&& json::u64_at(json::field(d, "duration_ms"@)) == Some(r.duration_ms)
            &&& r.exit_code matches Some(c) ==> json::i64_at(json::field(d, "exit_code"@)) == Some(c as i64)
            &&& r.exit_code is None <==> json::field(d, "exit_code"@) == Some(JsonView::Null)
            &&& json::u64_at(json::field(d, "max_rss_bytes"@)) == Some(r.max_rss_bytes)
            &&& json::bool_at(json::field(d, "oom_killed"@)) == Some(r.oom_killed)
            &&& json::u64_at(json::field(d, "pids_peak"@)) == Some(r.pids_peak)
            &&& r.signal matches Some(c) ==> json::i64_at(json::field(d, "signal"@)) == Some(c as i64)
            &&& r.signal is None <==> json::field(d, "signal"@) == Some(JsonView::Null)
            &&& json::text_at(json::field(d, "stderr"@)) == Some(lossy_text(r.stderr.data@))
            &&& json::u64_at(json::field(d, "stderr_bytes"@)) == Some(r.stderr.bytes as u64)
            &&& json::bool_at(json::field(d, "stderr_truncated"@)) == Some(r.stderr.truncated)
            &&& json::text_at(json::field(d, "stdout"@)) == Some(lossy_text(r.stdout.data@))
            &&& json::u64_at(json::field(d, "stdout_bytes"@)) == Some(r.stdout.bytes as u64)
            &&& json::bool_at(json::field(d, "stdout_truncated"@)) == Some(r.stdout.truncated)
            &&& json::bool_at(json::field(d, "timeout"@)) == Some(r.timeout)
        }),
{
    lemma_result_tame(r);
    let m = result_json(r)->Object_0;
    json::lemma_members_at(m);
    assert(m[0].0 == "cpu_ms"@);
    assert(m[1].0 == "duration_ms"@);
    assert(m[2].0 == "exit_code"@);
    assert(m[3].0 == "max_rss_bytes"@);
    assert(m[4].0 == "oom_killed"@);
    assert(m[5].0 == "pids_peak"@);
    assert(m[6].0 == "signal"@);
    assert(m[7].0 == "stderr"@);
    assert(m[8].0 == "stderr_bytes"@);
    assert(m[9].0 == "stderr_truncated"@);
    assert(m[10].0 == "stdout"@);
    assert(m[11].0 == "stdout_bytes"@);
    assert(m[12].0 == "stdout_truncated"@);
    assert(m[13].0 == "timeout"@);
}

/// What is kept of a stream: its beginning, up to the limit; how long it was in all; and that it was
/// cut exactly where it was longer than that.
pub proof fn law_captured_stream(c: CapturedStream, all: Seq<u8>, limit: int)
    requires
        keeps(c, all, limit),
        limit >= 0,
    ensures
        c.data@.is_prefix_of(all),
        c.data@.len() == (if all.len() <= limit {
            all.len() as int
        } else {
            limit
        }),
        c.bytes == all.len(),
        c.truncated <==> all.len() > limit,
{
    if all.len() > limit {
        assert(all.take(limit).is_prefix_of(all));
    } else {
        assert(all.is_prefix_of(all));
    }
}

/// What to do after a read or a write: bytes go on, an interruption or nothing to be had comes back
/// later, the end closes the stream, and so does an error.
pub proof fn law_stream_turns(n: i64, errno: i32)
    ensures
        n > 0 ==> read_next(n, errno) == ReadNext::More && write_next(n, errno)
            == WriteNext::Wrote(n as usize),
        n == 0 ==> read_next(n, errno) == ReadNext::Ended && write_next(n, errno)
            == WriteNext::Later,
        n < 0 && (errno == 4 || errno == 11) ==> read_next(n, errno) == ReadNext::Later
            && write_next(n, errno) == WriteNext::Later,
        n < 0 && errno != 4 && errno != 11 ==> read_next(n, errno) == ReadNext::Failed,
        n < 0 && errno == 32 ==> write_next(n, errno) == WriteNext::Ended,
        n < 0 && errno != 4 && errno != 11 && errno != 32 ==> write_next(n, errno)
            == WriteNext::Failed,
{
}

/// When a command is signalled: never without a limit nor once it has ended; first to end, when the
/// limit has passed, and to be killed a tenth of a second after that, each once.
pub proof fn law_signals_due(w: AgentWait, now: u64)
    ensures
        w.status is Some || w.timeout_ms is None ==> w.signal_due(now as int) is None,
        w.status is None ==> (w.timeout_ms matches Some(limit) ==> {
            &&& w.term_sent_at is None ==> (w.signal_due(now as int) == Some(15i32) <==> now
                - w.started >= limit)
            &&& w.term_sent_at is None && now - w.started < limit ==> w.signal_due(now as int)
                is None
            &&& w.term_sent_at matches Some(t) ==> (w.signal_due(now as int) == Some(9i32) <==> now
                - t >= 100 && !w.kill_sent)
            &&& w.term_sent_at matches Some(t) ==> (now - t < 100 || w.kill_sent ==> w.signal_due(
                now as int,
            ) is None)
        }),
        w.signal_due(now as int) == Some(15i32) ==> w.signalled(now).term_sent_at == Some(now)
            && w.signalled(now).kill_sent == w.kill_sent,
        w.signal_due(now as int) == Some(9i32) ==> w.signalled(now).kill_sent,
        w.signal_due(now as int) is None ==> w.signalled(now) == w,
        w.over() <==> w.status is Some && !w.out_open && !w.err_open && !w.stdin_open,
        w.timed_out() <==> w.term_sent_at is Some,
{
}

/// What a line gives for a key: the number behind the key and a space.
pub proof fn law_key_line(key: Seq<char>, n: u64)
    requires
        !key.contains(' '),
    ensures
        line_value(key + seq![' '] + text::dec(n as nat), key) == Some(n as nat),
{
    let line = key + seq![' '] + text::dec(n as nat);
    let k = key.len() as int;
    assert(line[k] == ' ');
    assert(line.contains(' '));
    line.index_of_first_ensures(' ');
    let at = line.index_of_first(' ')->Some_0;
    assert(at == k) by {
        if at < k {
            assert(line[at] == key[at]);
            assert(key.contains(key[at]));
        }
    }
    assert(line.take(k) =~= key);
    assert(line.skip(k + 1) =~= text::dec(n as nat));
    text::law_decimal_round_trip(n);
    let d = text::dec(n as nat);
    text::lemma_dec_value(n as nat);
    assert('0' <= d[0] <= '9');
    assert('0' <= d[d.len() - 1] <= '9');
    assert(text::trimmed_front(d) == d);
    assert(text::trimmed(d) == d);
}

/// The first line that gives a number for a key counts; where none does it is zero.
pub proof fn law_first_key_counts(lines: Seq<Seq<char>>, key: Seq<char>, k: int)
    requires
        0 <= k <= lines.len(),
        forall|i: int| 0 <= i < k ==> line_value(#[trigger] lines[i], key) is None,
    ensures
        k == lines.len() ==> key_value(lines, key) == 0,
        k < lines.len() ==> (line_value(lines[k], key) matches Some(n) ==> key_value(lines, key)
            == n as u64),
    decreases k,
{
    if k > 0 {
        let t = lines.skip(1);
        assert(line_value(lines[0], key) is None);
        assert forall|i: int| 0 <= i < k - 1 implies line_value(#[trigger] t[i], key) is None by {
            assert(t[i] == lines[i + 1]);
        }
        law_first_key_counts(t, key, k - 1);
        if k < lines.len() {
            assert(t[k - 1] == lines[k]);
        }
    }
}

/// The larger of two numbers is one of them and neither is above it.
pub proof fn law_larger(a: u64, b: u64)
    ensures
        larger(a, b) >= a,
        larger(a, b) >= b,
        larger(a, b) == a || larger(a, b) == b,
{
}

/// What is told of a command that failed: that it ran out of time, else the signal that ended it, else
/// the code that it exited with; it did well only where it exited with zero and in time.
pub proof fn law_failures_told(r: AgentExecResult)
    ensures
        r.timeout ==> summary(r) == "timeout"@ && !succeeded(r),
        !r.timeout ==> (r.signal matches Some(s) ==> summary(r) == "signal "@ + text::dec_int(
            s as int,
        )),
        !r.timeout && r.signal is None ==> (r.exit_code matches Some(c) ==> summary(r) == "exit "@
            + text::dec_int(c as int)),
        succeeded(r) <==> r.exit_code == Some(0i32) && !r.timeout,
{
}

/// Whom the end of a command reaches: the command itself, its group with the whole tree, and then also
/// every process of its cgroup that is listed, but for itself.
pub proof fn law_ended_processes(pid: int, kill_tree: bool, lines: Seq<Seq<char>>, p: int)
    ensures
        signal_targets(pid, kill_tree).contains(pid),
        pid != 0 ==> (signal_targets(pid, kill_tree).contains(-pid) <==> kill_tree),
        other_pids(lines, pid).contains(p) <==> p != pid && exists|i: int|
            0 <= i < lines.len() && text::i32_value(text::trimmed(#[trigger] lines[i])) == Some(p),
    decreases lines.len(),
{
    let s = signal_targets(pid, kill_tree);
    if kill_tree {
        assert(s[0] == -pid && s[1] == pid);
    } else {
        assert(s[0] == pid);
    }
    let all = other_pids(lines, pid);
    if lines.len() > 0 {
        let h = lines.drop_last();
        law_ended_processes(pid, kill_tree, h, p);
        let head = other_pids(h, pid);
        assert(lines[lines.len() - 1] == lines.last());
        if all.contains(p) {
            let k = choose|k: int| 0 <= k < all.len() && all[k] == p;
            if k < head.len() {
                assert(head[k] == p);
                let i = choose|i: int|
                    0 <= i < h.len() && text::i32_value(text::trimmed(#[trigger] h[i])) == Some(p);
                assert(lines[i] == h[i]);
            }
        }
        if p != pid && exists|i: int|
            0 <= i < lines.len() && text::i32_value(text::trimmed(#[trigger] lines[i])) == Some(p) {
            let i = choose|i: int|
                0 <= i < lines.len() && text::i32_value(text::trimmed(#[trigger] lines[i])) == Some(
                    p,
                );
            if i < h.len() {
                assert(h[i] == lines[i]);
                let k = choose|k: int| 0 <= k < head.len() && head[k] == p;
                assert(all[k] == p);
            } else {
                assert(all[all.len() - 1] == p);
            }
        }
    }
}

} // verus!
