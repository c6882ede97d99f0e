//! Supervision of a course's development server: its status, the last
//! lines it printed, the command that starts it, and health checks over
//! plain HTTP/1.0.

use vstd::prelude::*;
use std::collections::VecDeque;
use crate::error::PraxisError;
use crate::environment::{is_white, white};
use crate::template::replace_all;
use crate::text::{chars_of, string_of, decimal, u64_text, parse_unsigned, parse_unsigned_text, occurs_at, matches_at};

verus! {

/// The status of the server process.
#[derive(PartialEq, Eq, Structural, Clone, Copy, Debug)]
pub enum ServerStatus {
    Stopped,
    Starting,
    Running,
    Crashed,
}

impl ServerStatus {
    /// The status in lowercase, as reported to the front end.
    pub fn name(&self) -> (r: &'static str)
        ensures
            r@ == match self {
                ServerStatus::Stopped => "stopped"@,
                ServerStatus::Starting => "starting"@,
                ServerStatus::Running => "running"@,
                ServerStatus::Crashed => "crashed"@,
            },
    {
        match self {
            ServerStatus::Stopped => "stopped",
            ServerStatus::Starting => "starting",
            ServerStatus::Running => "running",
            ServerStatus::Crashed => "crashed",
        }
    }
}

/// How many output lines are kept.
pub open spec fn output_cap() -> nat {
    500
}

/// The lines kept after appending `line`: the last `output_cap()` of them.
pub open spec fn appended(lines: Seq<Seq<char>>, line: Seq<char>) -> Seq<Seq<char>> {
    let all = lines.push(line);
    if all.len() > output_cap() {
        all.drop_first()
    } else {
        all
    }
}

/// The shared state of the server: its status, the process handle `C`
/// while one runs, the last lines it printed, and its port.
pub struct ServerState<C> {
    pub status: ServerStatus,
    pub child: Option<C>,
    pub output: VecDeque<String>,
    pub port: u16,
}

impl<C> ServerState<C> {
    /// The output lines kept, oldest first.
    pub open spec fn lines(&self) -> Seq<Seq<char>> {
        self.output@.map_values(|s: String| s@)
    }

    /// A stopped server with no output and port 0.
    pub fn new() -> (r: ServerState<C>)
        ensures
            r.status == ServerStatus::Stopped,
            r.child is None,
            r.lines() == Seq::<Seq<char>>::empty(),
            r.port == 0,
    {
        let r = ServerState { status: ServerStatus::Stopped, child: None, output: VecDeque::new(), port: 0 };
        assert(r.lines() =~= Seq::<Seq<char>>::empty());
        r
    }

    /// Keeps a printed line, dropping the oldest one beyond the cap.
    pub fn append_line(&mut self, line: String)
        ensures
            final(self).lines() == appended(old(self).lines(), line@),
            old(self).lines().len() <= output_cap() ==> final(self).lines().len() <= output_cap(),
            final(self).status == old(self).status,
            final(self).port == old(self).port,
            final(self).child == old(self).child,
    {
        let ghost before = self.lines();
        let ghost lv = line@;
        self.output.push_back(line);
        assert(self.lines() =~= before.push(lv));
        if self.output.len() > 500 {
            let ghost all = self.lines();
            let _ = self.output.pop_front();
            assert(self.lines() =~= all.drop_first());
        }
    }

    /// Records a freshly started server process: starting, no output yet.
    pub fn begin(&mut self, child: C, port: u16)
        ensures
            final(self).status == ServerStatus::Starting,
            final(self).child == Some(child),
            final(self).lines() == Seq::<Seq<char>>::empty(),
            final(self).port == port,
    {
        self.status = ServerStatus::Starting;
        self.child = Some(child);
        self.output.clear();
        self.port = port;
        assert(self.lines() =~= Seq::<Seq<char>>::empty());
    }

    /// The server's output stream closed: the process has exited, which is
    /// a crash unless it was stopped.
    pub fn on_output_closed(&mut self)
        ensures
            final(self).status == if old(self).status == ServerStatus::Running || old(self).status
                == ServerStatus::Starting {
                ServerStatus::Crashed
            } else {
                old(self).status
            },
            final(self).child == old(self).child,
            final(self).output == old(self).output,
            final(self).port == old(self).port,
    {
        if self.status == ServerStatus::Running || self.status == ServerStatus::Starting {
            self.status = ServerStatus::Crashed;
        }
    }

    /// The health check passed.
    pub fn mark_running(&mut self)
        ensures
            final(self).status == ServerStatus::Running,
            final(self).child == old(self).child,
            final(self).output == old(self).output,
            final(self).port == old(self).port,
    {
        self.status = ServerStatus::Running;
    }

    /// Stops tracking the server: stopped, port 0; returns the process
    /// handle for the caller to kill.
    pub fn stop(&mut self) -> (r: Option<C>)
        ensures
            r == old(self).child,
            final(self).child is None,
            final(self).status == ServerStatus::Stopped,
            final(self).port == 0,
            final(self).output == old(self).output,
    {
        let mut child: Option<C> = None;
        std::mem::swap(&mut child, &mut self.child);
        self.status = ServerStatus::Stopped;
        self.port = 0;
        child
    }

    /// Whether the server has crashed.
    pub fn is_crashed(&self) -> (r: bool)
        ensures
            r == (self.status == ServerStatus::Crashed),
    {
        self.status == ServerStatus::Crashed
    }
}

/// Whatever lines were appended before, the kept output never exceeds the
/// cap and ends with the line appended last.
pub proof fn law_output_bounded(lines: Seq<Seq<char>>, line: Seq<char>)
    requires
        lines.len() <= output_cap(),
    ensures
        appended(lines, line).len() <= output_cap(),
        appended(lines, line).last() == line,
        lines.len() < output_cap() ==> appended(lines, line) == lines.push(line),
{
}


// ── Starting ────────────────────────────────────────────────────────────────

/// The whitespace-separated words of a text (`str::split_whitespace`).
pub open spec fn words(s: Seq<char>) -> Seq<Seq<char>>
    decreases s.len(),
{
    if s.len() == 0 {
        Seq::empty()
    } else {
        let p = words(s.drop_last());
        let c = s.last();
        if is_white(c) {
            p
        } else if s.len() >= 2 && !is_white(s[s.len() - 2]) {
            p.update(p.len() - 1, p.last().push(c))
        } else {
            p.push(seq![c])
        }
    }
}

/// The words of a text (see `words`).
pub fn split_words(s: &str) -> (r: Vec<String>)
    ensures
        r.deep_view() == words(s@),
{
    let cs = chars_of(s);
    let mut ws: Vec<Vec<char>> = Vec::new();
    let ghost mut wv: Seq<Seq<char>> = Seq::empty();
    let mut i: usize = 0;
    assert(cs@.take(0) =~= Seq::<char>::empty());
    while i < cs.len()
        invariant
            cs@ == s@,
            i <= cs.len(),
            ws@.len() == wv.len(),
            forall|k: int| 0 <= k < wv.len() ==> (#[trigger] ws@[k])@ == wv[k],
            wv == words(cs@.take(i as int)),
            i > 0 && !is_white(cs@[i - 1]) ==> wv.len() > 0,
        decreases cs.len() - i,
    {
        let c = cs[i];
        let ghost t = cs@.take(i + 1);
        proof {
            assert(t.drop_last() =~= cs@.take(i as int));
            assert(t.last() == c);
            if i >= 1 {
                assert(t[t.len() - 2] == cs@[i - 1]);
            }
        }
        if white(c) {
        } else if i > 0 && !white(cs[i - 1]) {
            let last = ws.len() - 1;
            let mut cur = ws.pop().unwrap();
            cur.push(c);
            ws.push(cur);
            proof {
                wv = wv.update(last as int, wv.last().push(c));
            }
            assert forall|k: int| 0 <= k < wv.len() implies (#[trigger] ws@[k])@ == wv[k] by {}
        } else {
            ws.push(vec![c]);
            proof {
                wv = wv.push(seq![c]);
            }
            assert forall|k: int| 0 <= k < wv.len() implies (#[trigger] ws@[k])@ == wv[k] by {
                if k == wv.len() - 1 {
                    assert(ws@[k]@ =~= seq![c]);
                }
            }
        }
        i = i + 1;
    }
    assert(cs@.take(i as int) =~= s@);
    let mut r: Vec<String> = Vec::new();
    let mut k: usize = 0;
    while k < ws.len()
        invariant
            k <= ws.len(),
            r.len() == k,
            forall|j: int| 0 <= j < k ==> (#[trigger] r@[j])@ == ws@[j]@,
        decreases ws.len() - k,
    {
        r.push(string_of(ws[k].as_slice()));
        k = k + 1;
    }
    assert(r.deep_view() =~= wv);
    r
}

/// The command line of a server: the template with `{port}` replaced by
/// the port number, split into words.
pub open spec fn command_words(template: Seq<char>, port: u16) -> Seq<Seq<char>> {
    words(replace_all(template, "{port}"@, decimal(port as nat)))
}

/// The program and arguments that start a server on `port`, or the error
/// for a command with no words.
pub fn server_command(template: &str, port: u16) -> (r: Result<(String, Vec<String>), PraxisError>)
    ensures
        ({
            let ws = command_words(template@, port);
            match r {
                Ok((bin, args)) => ws.len() > 0 && bin@ == ws[0] && args.deep_view() == ws.skip(1),
                Err(e) => {
                    &&& ws.len() == 0
                    &&& e matches PraxisError::Other(m) && m@ == "Empty server command"@
                },
            }
        }),
{
    proof {
        reveal_strlit("{port}");
    }
    let port_text = u64_text(port as u64);
    let command = crate::template::replace_text(template, "{port}", port_text.as_str());
    let ws = split_words(command.as_str());
    if ws.len() == 0 {
        return Err(PraxisError::Other(String::from_str("Empty server command")));
    }
    let bin = ws[0].clone();
    let mut args: Vec<String> = Vec::new();
    let mut k: usize = 1;
    while k < ws.len()
        invariant
            1 <= k <= ws.len(),
            args@.len() == k - 1,
            forall|j: int| 0 <= j < k - 1 ==> (#[trigger] args@[j])@ == ws@[j + 1]@,
        decreases ws.len() - k,
    {
        args.push(ws[k].clone());
        k = k + 1;
    }
    assert(args.deep_view() =~= ws.deep_view().skip(1));
    Ok((bin, args))
}

// ── Health checks ───────────────────────────────────────────────────────────

/// The address probed for health.
pub open spec fn health_url_spec(port: u16, endpoint: Seq<char>) -> Seq<char> {
    "http://127.0.0.1:"@ + decimal(port as nat) + endpoint
}

/// The address probed for health: `http://127.0.0.1:<port><endpoint>`.
pub fn health_url(port: u16, endpoint: &str) -> (r: String)
    ensures
        r@ == health_url_spec(port, endpoint@),
{
    let mut r = String::from_str("http://127.0.0.1:");
    r.append(u64_text(port as u64).as_str());
    r.append(endpoint);
    r
}

/// The position of the first `c` in `s`.
pub open spec fn index_of(s: Seq<char>, c: char) -> Option<int> {
    if exists|i: int| 0 <= i < s.len() && s[i] == c {
        Some(choose|i: int| 0 <= i < s.len() && s[i] == c && forall|k: int| 0 <= k < i ==> s[k] != c)
    } else {
        None
    }
}

fn find_char(cs: &Vec<char>, c: char) -> (r: Option<usize>)
    ensures
        match r {
            Some(i) => i < cs@.len() && cs@[i as int] == c && index_of(cs@, c) == Some(i as int),
            None => index_of(cs@, c) is None,
        },
{
    let mut i: usize = 0;
    while i < cs.len()
        invariant
            i <= cs.len(),
            forall|k: int| 0 <= k < i ==> cs@[k] != c,
        decreases cs.len() - i,
    {
        if cs[i] == c {
            proof {
                let w = choose|j: int| 0 <= j < cs@.len() && cs@[j] == c && forall|k: int| 0 <= k < j ==> cs@[k] != c;
                if w < i {
                } else if w > i {
                    assert(cs@[i as int] == c);
                }
            }
            return Some(i);
        }
        i = i + 1;
    }
    None
}

/// Host-and-port and path of a plain-HTTP URL: after `http://`, up to the
/// first `/` (the path is `/` and the rest, or `/` alone); an error for
/// other URLs.
pub open spec fn url_parts_spec(url: Seq<char>) -> Result<(Seq<char>, Seq<char>), Seq<char>> {
    let scheme = "http://"@;
    if url.len() >= scheme.len() && url.take(scheme.len() as int) == scheme {
        let rest = url.skip(scheme.len() as int);
        match index_of(rest, '/') {
            Some(i) => Ok((rest.take(i), seq!['/'] + rest.skip(i + 1))),
            None => Ok((rest, seq!['/'])),
        }
    } else {
        Err("bad url"@)
    }
}

/// Splits a plain-HTTP URL (see `url_parts_spec`).
pub fn url_parts(url: &str) -> (r: Result<(String, String), String>)
    ensures
        match r {
            Ok((h, p)) => url_parts_spec(url@) == Ok::<(Seq<char>, Seq<char>), Seq<char>>((h@, p@)),
            Err(e) => url_parts_spec(url@) == Err::<(Seq<char>, Seq<char>), Seq<char>>(e@),
        },
{
    proof {
        reveal_strlit("http://");
    }
    let cs = chars_of(url);
    let scheme = chars_of("http://");
    if !matches_at(&cs, &scheme, 0) {
        proof {
            if cs@.len() >= 7 {
                assert(cs@.take(7) =~= cs@.subrange(0, 7));
            }
        }
        return Err(String::from_str("bad url"));
    }
    assert(cs@.take(7) =~= cs@.subrange(0, 7));
    let mut rest: Vec<char> = Vec::new();
    let mut k: usize = 7;
    while k < cs.len()
        invariant
            7 <= k <= cs.len(),
            rest@ == cs@.subrange(7, k as int),
        decreases cs.len() - k,
    {
        rest.push(cs[k]);
        k = k + 1;
        assert(rest@ =~= cs@.subrange(7, k as int));
    }
    assert(rest@ =~= cs@.skip(7));
    match find_char(&rest, '/') {
        Some(i) => {
            let host = string_of(rest.as_slice().split_at(i).0);
            let mut path = String::new();
            crate::text::push_char(&mut path, '/');
            let mut j: usize = i + 1;
            let ghost p0 = path@;
            while j < rest.len()
                invariant
                    i + 1 <= j <= rest.len(),
                    path@ == seq!['/'] + rest@.subrange(i + 1, j as int),
                decreases rest.len() - j,
            {
                crate::text::push_char(&mut path, rest[j]);
                j = j + 1;
                assert(path@ =~= seq!['/'] + rest@.subrange(i + 1, j as int));
            }
            assert(rest@.subrange(i + 1, j as int) =~= rest@.skip(i + 1));
            Ok((host, path))
        },
        None => {
            let mut path = String::new();
            crate::text::push_char(&mut path, '/');
            assert(path@ =~= seq!['/']);
            Ok((string_of(rest.as_slice()), path))
        },
    }
}

/// The HTTP/1.0 GET request sent for a health check.
pub open spec fn get_request_spec(path: Seq<char>, host_port: Seq<char>) -> Seq<char> {
    "GET "@ + path + " HTTP/1.0\r\nHost: "@ + host_port + "\r\nConnection: close\r\n\r\n"@
}

/// The HTTP/1.0 GET request for `path` on `host_port`.
pub fn get_request(path: &str, host_port: &str) -> (r: String)
    ensures
        r@ == get_request_spec(path@, host_port@),
{
    let mut r = String::from_str("GET ");
    r.append(path);
    r.append(" HTTP/1.0\r\nHost: ");
    r.append(host_port);
    r.append("\r\nConnection: close\r\n\r\n");
    r
}

/// The first line of a text (`str::lines`): up to the first line feed,
/// without a carriage return just before it; `None` for empty text.
pub open spec fn first_line(s: Seq<char>) -> Option<Seq<char>> {
    if s.len() == 0 {
        None
    } else {
        match index_of(s, '\n') {
            Some(i) => {
                let l = s.take(i);
                if l.len() > 0 && l.last() == '\r' {
                    Some(l.drop_last())
                } else {
                    Some(l)
                }
            },
            None => Some(s),
        }
    }
}

/// The status code of an HTTP response text: the second word of its first
/// line as a `u16`, or the error text.
pub open spec fn response_status_spec(response: Seq<char>) -> Result<u16, Seq<char>> {
    match first_line(response) {
        Some(line) => {
            let ws = words(line);
            if ws.len() >= 2 {
                match parse_unsigned(ws[1], u16::MAX as nat) {
                    Some(code) => Ok(code as u16),
                    None => Err("Could not parse status"@),
                }
            } else {
                Err("Could not parse status"@)
            }
        },
        None => Err("Could not parse status"@),
    }
}

/// Reads the status code of an HTTP response (see `response_status_spec`).
pub fn response_status(response: &str) -> (r: Result<u16, String>)
    ensures
        match r {
            Ok(code) => response_status_spec(response@) == Ok::<u16, Seq<char>>(code),
            Err(e) => response_status_spec(response@) == Err::<u16, Seq<char>>(e@),
        },
{
    let cs = chars_of(response);
    if cs.len() == 0 {
        return Err(String::from_str("Could not parse status"));
    }
    let nl = find_char(&cs, '\n');
    let end: usize = match nl {
        Some(i) => if i > 0 && cs[i - 1] == '\r' {
            i - 1
        } else {
            i
        },
        None => cs.len(),
    };
    proof {
        match nl {
            Some(i) => {
                let i = i as int;
                if i > 0 && cs@[i - 1] == '\r' {
                    assert(cs@.take(i).drop_last() =~= cs@.take(end as int));
                } else {
                    assert(cs@.take(i) =~= cs@.take(end as int));
                }
            },
            None => {
                assert(cs@ =~= cs@.take(end as int));
            },
        }
    }
    let line = string_of(cs.as_slice().split_at(end).0);
    let ws = split_words(line.as_str());
    if ws.len() < 2 {
        return Err(String::from_str("Could not parse status"));
    }
    match parse_unsigned_text(ws[1].as_str(), u16::MAX as u64) {
        Some(code) => Ok(code as u16),
        None => Err(String::from_str("Could not parse status")),
    }
}

/// Whether a health probe's outcome means healthy: status 200.
pub fn health_ok(outcome: &Result<u16, String>) -> (r: bool)
    ensures
        r == (outcome matches Ok(code) && code == 200),
{
    match outcome {
        Ok(code) => *code == 200,
        Err(_) => false,
    }
}

/// The error once waiting for health has taken `elapsed_ms` of at most
/// `timeout_ms`, or `None` while there is time left.
pub fn health_timeout(elapsed_ms: u64, timeout_ms: u64) -> (r: Option<PraxisError>)
    ensures
        match r {
            Some(e) => {
                &&& elapsed_ms >= timeout_ms
                &&& e matches PraxisError::Other(m) && m@ == "Server did not become healthy within "@ + decimal(
                    timeout_ms as nat,
                ) + "ms"@
            },
            None => elapsed_ms < timeout_ms,
        },
{
    if elapsed_ms >= timeout_ms {
        let mut m = String::from_str("Server did not become healthy within ");
        m.append(u64_text(timeout_ms).as_str());
        m.append("ms");
        Some(PraxisError::Other(m))
    } else {
        None
    }
}

// ── Ports ───────────────────────────────────────────────────────────────────

/// The next port to try after `port` when looking for a free one from
/// `start`: one more, as long as it stays within 100 of `start`.
pub fn next_port(start: u16, port: u16) -> (r: Result<u16, PraxisError>)
    requires
        port == u16::MAX || start as int + 100 <= u16::MAX as int,
    ensures
        match r {
            Ok(p) => p == port + 1 && p <= start + 100,
            Err(e) => {
                &&& port as int + 1 > u16::MAX as int || port + 1 > start + 100
                &&& e matches PraxisError::Other(m) && m@ == "No free port found in range"@
            },
        },
{
    if port == u16::MAX {
        return Err(PraxisError::Other(String::from_str("No free port found in range")));
    }
    let p = port + 1;
    if p > start + 100 {
        return Err(PraxisError::Other(String::from_str("No free port found in range")));
    }
    Ok(p)
}


/// What the search for a free port does after probing `port`: use it when
/// it is free, else try the next one (see `next_port`), or give up.
pub enum PortStep {
    Use(u16),
    Try(u16),
}

/// One step of the search for a free port from `start`.
pub fn port_step(start: u16, port: u16, free: bool) -> (r: Result<PortStep, PraxisError>)
    requires
        free || port == u16::MAX || start as int + 100 <= u16::MAX as int,
    ensures
        free ==> (r matches Ok(PortStep::Use(p)) && p == port),
        !free ==> match r {
            Ok(PortStep::Try(p)) => p == port + 1 && p <= start + 100,
            Ok(PortStep::Use(_)) => false,
            Err(e) => {
                &&& port as int + 1 > u16::MAX as int || port + 1 > start + 100
                &&& e matches PraxisError::Other(m) && m@ == "No free port found in range"@
            },
        },
{
    if free {
        Ok(PortStep::Use(port))
    } else {
        match next_port(start, port) {
            Ok(p) => Ok(PortStep::Try(p)),
            Err(e) => Err(e),
        }
    }
}

// ── Waiting for health ──────────────────────────────────────────────────────

/// What waiting for a healthy server does next.
pub enum WaitStep {
    /// Probe the health endpoint, then report whether it answered 200.
    Probe,
    /// The server is healthy: mark it running.
    Healthy,
    /// Sleep half a second, then check again.
    Sleep,
    /// Stop waiting with this error.
    Fail(PraxisError),
}

/// One step of waiting for health: a crashed server fails at once, a
/// healthy probe ends the wait, and otherwise the wait fails once
/// `timeout_ms` have passed. `probe` is `None` before the endpoint was
/// probed in this round and its outcome after.
pub fn wait_step(crashed: bool, probe: Option<bool>, elapsed_ms: u64, timeout_ms: u64) -> (r: WaitStep)
    ensures
        crashed ==> r matches WaitStep::Fail(PraxisError::ServerCrashed),
        !crashed && probe is None ==> r is Probe,
        !crashed && probe == Some(true) ==> r is Healthy,
        !crashed && probe == Some(false) ==> match r {
            WaitStep::Fail(e) => elapsed_ms >= timeout_ms && (e matches PraxisError::Other(m)
                && m@ == "Server did not become healthy within "@ + decimal(timeout_ms as nat) + "ms"@),
            WaitStep::Sleep => elapsed_ms < timeout_ms,
            _ => false,
        },
{
    if crashed {
        return WaitStep::Fail(PraxisError::ServerCrashed);
    }
    match probe {
        None => WaitStep::Probe,
        Some(true) => WaitStep::Healthy,
        Some(false) => match health_timeout(elapsed_ms, timeout_ms) {
            Some(e) => WaitStep::Fail(e),
            None => WaitStep::Sleep,
        },
    }
}

// ── Process details ─────────────────────────────────────────────────────────

/// A line the server printed as it is kept: `[out] ` or `[err] ` before it,
/// by the stream it came from.
pub fn output_line(from_stderr: bool, line: &str) -> (r: String)
    ensures
        r@ == (if from_stderr { "[err] "@ } else { "[out] "@ }) + line@,
{
    let mut r = if from_stderr {
        String::from_str("[err] ")
    } else {
        String::from_str("[out] ")
    };
    r.append(line);
    r
}

/// The search path a server runs with when an interpreter is given: the
/// interpreter's folder first, then the current search path.
pub fn search_path_with(bin_dir: &str, current: &str) -> (r: String)
    ensures
        r@ == bin_dir@ + ":"@ + current@,
{
    let mut r = String::from_str(bin_dir);
    r.append(":");
    r.append(current);
    r
}

} // verus!
