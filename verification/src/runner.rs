//! A chapter's test run: setup steps, then tests, each with an optional
//! HTTP request checked against status and body assertions, optional
//! database assertions, and captures that later requests can use. The run is
//! a state machine; the caller performs each requested action and reports
//! what happened.

use vstd::prelude::*;
use crate::json::{Json, JsonV, json_text, view_entries};
use crate::template::{Vars, interpolated, interpolated_json, interpolate, interpolate_value, captured, apply_captures};
use crate::assertion::{body_failures, evaluate_body_assertion};
use crate::text::{decimal, u64_text, uppercase, to_uppercase, str_equal};

verus! {

// ── Test file schema ────────────────────────────────────────────────────────

/// An HTTP request of a test file; path, headers and body may hold
/// `{{variable}}` placeholders.
pub struct RequestDef {
    pub method: String,
    pub path: String,
    pub headers: Vec<(String, String)>,
    pub body: Option<Json>,
}

/// A request made before the tests, whose captures the tests can use.
pub struct SetupStep {
    pub id: String,
    pub request: RequestDef,
    pub expect_status: Option<u16>,
    pub capture: Vec<(String, String)>,
}

/// The expected status and body of a test's response (null body: no check).
pub struct AssertDef {
    pub status: Option<u16>,
    pub body: Json,
}

/// One test of a chapter.
pub struct Test {
    pub id: String,
    pub name: String,
    pub request: Option<RequestDef>,
    pub assert: AssertDef,
    pub capture: Vec<(String, String)>,
    pub db_assert: Option<Json>,
}

/// A chapter's test file.
pub struct TestFile {
    pub setup: Vec<SetupStep>,
    pub tests: Vec<Test>,
}

/// The outcome of one test.
pub struct TestResult {
    pub id: String,
    pub name: String,
    pub passed: bool,
    /// The test could not run (e.g. the server crashed).
    pub error: bool,
    pub message: String,
    pub failures: Vec<String>,
}

/// The outcome of a whole run.
pub struct RunResult {
    pub results: Vec<TestResult>,
    pub passed: usize,
    pub failed: usize,
    pub total: usize,
    pub server_crashed: bool,
    pub setup_error: Option<String>,
}

/// An HTTP response as the run sees it.
pub struct Response {
    pub status: u16,
    pub body: Json,
}

pub struct TestResultV {
    pub id: Seq<char>,
    pub name: Seq<char>,
    pub passed: bool,
    pub error: bool,
    pub message: Seq<char>,
    pub failures: Seq<Seq<char>>,
}

pub struct RunResultV {
    pub results: Seq<TestResultV>,
    pub passed: nat,
    pub failed: nat,
    pub total: nat,
    pub server_crashed: bool,
    pub setup_error: Option<Seq<char>>,
}

impl View for TestResult {
    type V = TestResultV;

    open spec fn view(&self) -> TestResultV {
        TestResultV {
            id: self.id@,
            name: self.name@,
            passed: self.passed,
            error: self.error,
            message: self.message@,
            failures: self.failures.deep_view(),
        }
    }
}

pub open spec fn results_view(rs: Seq<TestResult>) -> Seq<TestResultV> {
    rs.map_values(|r: TestResult| r@)
}

impl View for RunResult {
    type V = RunResultV;

    open spec fn view(&self) -> RunResultV {
        RunResultV {
            results: results_view(self.results@),
            passed: self.passed as nat,
            failed: self.failed as nat,
            total: self.total as nat,
            server_crashed: self.server_crashed,
            setup_error: match self.setup_error {
                Some(s) => Some(s@),
                None => None,
            },
        }
    }
}

// ── Requests ────────────────────────────────────────────────────────────────

/// The HTTP methods a test may use.
#[derive(PartialEq, Eq, Structural, Clone, Copy, Debug)]
pub enum HttpMethod {
    Get,
    Post,
    Put,
    Patch,
    Delete,
}

/// A request ready to send.
pub struct PreparedRequest {
    pub method: HttpMethod,
    pub url: String,
    pub headers: Vec<(String, String)>,
    pub body: Option<Json>,
}

pub struct PreparedV {
    pub method: HttpMethod,
    pub url: Seq<char>,
    pub headers: Seq<(Seq<char>, Seq<char>)>,
    pub body: Option<JsonV>,
}

impl View for PreparedRequest {
    type V = PreparedV;

    open spec fn view(&self) -> PreparedV {
        PreparedV {
            method: self.method,
            url: self.url@,
            headers: pairs_view(self.headers@),
            body: match self.body {
                Some(b) => Some(b@),
                None => None,
            },
        }
    }
}

pub open spec fn pairs_view(ps: Seq<(String, String)>) -> Seq<(Seq<char>, Seq<char>)> {
    ps.map_values(|p: (String, String)| (p.0@, p.1@))
}

/// The method an uppercased method name stands for.
pub open spec fn method_named(upper: Seq<char>) -> Option<HttpMethod> {
    if upper == "GET"@ {
        Some(HttpMethod::Get)
    } else if upper == "POST"@ {
        Some(HttpMethod::Post)
    } else if upper == "PUT"@ {
        Some(HttpMethod::Put)
    } else if upper == "PATCH"@ {
        Some(HttpMethod::Patch)
    } else if upper == "DELETE"@ {
        Some(HttpMethod::Delete)
    } else {
        None
    }
}

/// The headers of a prepared request: each header with name and value
/// interpolated, then `Content-Type: application/json` when a body is sent.
pub open spec fn prepared_headers(
    hs: Seq<(Seq<char>, Seq<char>)>,
    vars: Seq<(Seq<char>, JsonV)>,
    has_body: bool,
) -> Seq<(Seq<char>, Seq<char>)> {
    let own = hs.map_values(|h: (Seq<char>, Seq<char>)| (interpolated(h.0, vars), interpolated(h.1, vars)));
    if has_body {
        own.push(("Content-Type"@, "application/json"@))
    } else {
        own
    }
}

/// What preparing a request gives: the error for a method other than GET,
/// POST, PUT, PATCH or DELETE (in any case), or the request with URL
/// `base_url + path`, headers and body interpolated.
pub open spec fn prepared(req: RequestDef, vars: Seq<(Seq<char>, JsonV)>, base_url: Seq<char>) -> Result<PreparedV, Seq<char>> {
    match method_named(uppercase(req.method@)) {
        None => Err("Unsupported HTTP method: "@ + uppercase(req.method@)),
        Some(m) => Ok(
            PreparedV {
                method: m,
                url: base_url + interpolated(req.path@, vars),
                headers: prepared_headers(pairs_view(req.headers@), vars, req.body is Some),
                body: match req.body {
                    Some(b) => Some(interpolated_json(b@, vars)),
                    None => None,
                },
            },
        ),
    }
}

/// Prepares a request for sending (see `prepared`).
pub fn prepare_request(req: &RequestDef, vars: &Vars, base_url: &str) -> (r: Result<PreparedRequest, String>)
    ensures
        match r {
            Ok(p) => prepared(*req, vars@, base_url@) == Ok::<PreparedV, Seq<char>>(p@),
            Err(e) => prepared(*req, vars@, base_url@) == Err::<PreparedV, Seq<char>>(e@),
        },
{
    let path = interpolate(req.path.as_str(), vars);
    let mut url = String::from_str(base_url);
    url.append(path.as_str());
    let upper = to_uppercase(req.method.as_str());
    let method = if str_equal(upper.as_str(), "GET") {
        HttpMethod::Get
    } else if str_equal(upper.as_str(), "POST") {
        HttpMethod::Post
    } else if str_equal(upper.as_str(), "PUT") {
        HttpMethod::Put
    } else if str_equal(upper.as_str(), "PATCH") {
        HttpMethod::Patch
    } else if str_equal(upper.as_str(), "DELETE") {
        HttpMethod::Delete
    } else {
        let mut e = String::from_str("Unsupported HTTP method: ");
        e.append(upper.as_str());
        return Err(e);
    };
    let ghost hv = pairs_view(req.headers@);
    let mut headers: Vec<(String, String)> = Vec::new();
    let mut i: usize = 0;
    while i < req.headers.len()
        invariant
            hv == pairs_view(req.headers@),
            i <= req.headers.len(),
            pairs_view(headers@) == hv.take(i as int).map_values(
                |h: (Seq<char>, Seq<char>)| (interpolated(h.0, vars@), interpolated(h.1, vars@)),
            ),
        decreases req.headers.len() - i,
    {
        let k = interpolate(req.headers[i].0.as_str(), vars);
        let v = interpolate(req.headers[i].1.as_str(), vars);
        let ghost kv = (k@, v@);
        let ghost before = headers@;
        assert(hv[i as int] == (req.headers@[i as int].0@, req.headers@[i as int].1@));
        headers.push((k, v));
        assert(pairs_view(headers@) =~= pairs_view(before).push(kv));
        assert(hv.take(i + 1) =~= hv.take(i as int).push(hv[i as int]));
        i = i + 1;
        assert(pairs_view(headers@) =~= hv.take(i as int).map_values(
            |h: (Seq<char>, Seq<char>)| (interpolated(h.0, vars@), interpolated(h.1, vars@)),
        ));
    }
    assert(hv.take(i as int) =~= hv);
    let body = match &req.body {
        Some(b) => {
            let ghost before = headers@;
            headers.push((String::from_str("Content-Type"), String::from_str("application/json")));
            assert(pairs_view(headers@) =~= pairs_view(before).push(("Content-Type"@, "application/json"@)));
            Some(interpolate_value(b, vars))
        },
        None => None,
    };
    let p = PreparedRequest { method, url, headers, body };
    assert(p@ == prepared(*req, vars@, base_url@)->Ok_0);
    Ok(p)
}

// ── Response assertions ─────────────────────────────────────────────────────

/// The messages of a test's failed response checks: the status first (when
/// one is expected), then the body assertion's (unless it is null), under
/// the path `body`.
pub open spec fn assertion_failures(status: Option<u16>, body_assert: JsonV, resp_status: u16, resp_body: JsonV) -> Seq<Seq<char>> {
    let st = match status {
        Some(expected) => if resp_status != expected {
            seq!["status: expected "@ + decimal(expected as nat) + " got "@ + decimal(resp_status as nat)]
        } else {
            Seq::empty()
        },
        None => Seq::empty(),
    };
    if body_assert is Null {
        st
    } else {
        st + body_failures(body_assert, resp_body, "body"@)
    }
}

/// Checks a response against a test's status and body assertions.
pub fn evaluate_assertions(assert_def: &AssertDef, resp: &Response) -> (r: Vec<String>)
    ensures
        r.deep_view() == assertion_failures(assert_def.status, assert_def.body@, resp.status, resp.body@),
{
    let mut failures: Vec<String> = Vec::new();
    match assert_def.status {
        Some(expected) => {
            if resp.status != expected {
                let mut m = String::from_str("status: expected ");
                m.append(u64_text(expected as u64).as_str());
                m.append(" got ");
                m.append(u64_text(resp.status as u64).as_str());
                let ghost mv = m@;
                failures.push(m);
                assert(failures.deep_view() =~= seq![mv]);
            }
        },
        None => {},
    }
    assert(failures.deep_view() =~= assertion_failures(assert_def.status, JsonV::Null, resp.status, resp.body@));
    if !matches!(assert_def.body, Json::Null) {
        let b = evaluate_body_assertion(&assert_def.body, &resp.body, "body");
        crate::text::extend_strings(&mut failures, b);
    }
    failures
}


// ── The run as a state machine ─────────────────────────────────────────────

/// Where a run stands.
pub enum Phase {
    /// Not started.
    Ready,
    /// Waiting for the response to setup step `i`.
    Setup(usize),
    /// A setup step failed with this message; waiting for the server state.
    SetupAbort(String),
    /// About to run test `j` (or to finish, past the last test); waiting for
    /// the server state.
    TestStart(usize),
    /// Waiting for the response to test `j`'s request.
    TestReply(usize),
    /// Test `j`'s request failed with this message; waiting for the server
    /// state.
    TestFailed(usize, String),
    /// Waiting for the database checks of test `j`; its response checks
    /// failed with these messages.
    TestDb(usize, Vec<String>),
    /// Finished.
    Done,
}

/// What the caller must do next.
pub enum Action {
    /// Send this request and report `Event::Reply` or `Event::Failed`.
    Send(PreparedRequest),
    /// Report whether the server has crashed (`Event::ServerStatus`).
    CheckServer,
    /// Evaluate this `db_assert` block with the run's variables and report
    /// the failures (`Event::DbFailures`).
    RunDb(Json),
    /// The run is over with this result.
    Finish(RunResult),
}

/// What happened when the caller did what was asked.
pub enum Event {
    /// Start the run.
    Begin,
    /// The response to the request.
    Reply(Response),
    /// Sending the request failed with this error text.
    Failed(String),
    /// Whether the server has crashed.
    ServerStatus(bool),
    /// The failures of the database checks.
    DbFailures(Vec<String>),
}

pub enum PhaseV {
    Ready,
    Setup(nat),
    SetupAbort(Seq<char>),
    TestStart(nat),
    TestReply(nat),
    TestFailed(nat, Seq<char>),
    TestDb(nat, Seq<Seq<char>>),
    Done,
}

pub enum ActionV {
    Send(PreparedV),
    CheckServer,
    RunDb(JsonV),
    Finish(RunResultV),
}

pub enum EventV {
    Begin,
    Reply(u16, JsonV),
    Failed(Seq<char>),
    ServerStatus(bool),
    DbFailures(Seq<Seq<char>>),
}

impl View for Phase {
    type V = PhaseV;

    open spec fn view(&self) -> PhaseV {
        match self {
            Phase::Ready => PhaseV::Ready,
            Phase::Setup(i) => PhaseV::Setup(*i as nat),
            Phase::SetupAbort(m) => PhaseV::SetupAbort(m@),
            Phase::TestStart(j) => PhaseV::TestStart(*j as nat),
            Phase::TestReply(j) => PhaseV::TestReply(*j as nat),
            Phase::TestFailed(j, m) => PhaseV::TestFailed(*j as nat, m@),
            Phase::TestDb(j, fs) => PhaseV::TestDb(*j as nat, fs.deep_view()),
            Phase::Done => PhaseV::Done,
        }
    }
}

impl View for Action {
    type V = ActionV;

    open spec fn view(&self) -> ActionV {
        match self {
            Action::Send(p) => ActionV::Send(p@),
            Action::CheckServer => ActionV::CheckServer,
            Action::RunDb(j) => ActionV::RunDb(j@),
            Action::Finish(r) => ActionV::Finish(r@),
        }
    }
}

impl View for Event {
    type V = EventV;

    open spec fn view(&self) -> EventV {
        match self {
            Event::Begin => EventV::Begin,
            Event::Reply(r) => EventV::Reply(r.status, r.body@),
            Event::Failed(t) => EventV::Failed(t@),
            Event::ServerStatus(c) => EventV::ServerStatus(*c),
            Event::DbFailures(fs) => EventV::DbFailures(fs.deep_view()),
        }
    }
}

/// The state of a run, apart from its test file and server address.
#[verifier::ext_equal]
pub struct RunV {
    pub vars: Seq<(Seq<char>, JsonV)>,
    pub results: Seq<TestResultV>,
    pub crashed: bool,
    pub phase: PhaseV,
}

/// The message of a test that could not run because the server crashed.
pub open spec fn crash_message() -> Seq<char> {
    "Server crashed during test run. Check your code for errors."@
}

/// The message of a request that could not be sent.
pub open spec fn request_failed_message(err: Seq<char>) -> Seq<char> {
    "Request failed: "@ + err
}

pub open spec fn setup_failed_message(id: Seq<char>, err: Seq<char>) -> Seq<char> {
    "Setup step '"@ + id + "' failed: "@ + err
}

pub open spec fn setup_status_message(id: Seq<char>, expected: u16, got: u16) -> Seq<char> {
    "Setup step '"@ + id + "': expected status "@ + decimal(expected as nat) + " got "@ + decimal(got as nat)
}

/// The result of a test that ran: passed exactly when nothing failed.
pub open spec fn ran_result(t: Test, failures: Seq<Seq<char>>) -> TestResultV {
    TestResultV { id: t.id@, name: t.name@, passed: failures.len() == 0, error: false, message: Seq::empty(), failures }
}

/// The result of a test that could not run.
pub open spec fn error_result(t: Test, message: Seq<char>) -> TestResultV {
    TestResultV { id: t.id@, name: t.name@, passed: false, error: true, message, failures: Seq::empty() }
}

/// How many results passed.
pub open spec fn count_passed(rs: Seq<TestResultV>) -> nat
    decreases rs.len(),
{
    if rs.len() == 0 {
        0
    } else {
        count_passed(rs.drop_last()) + if rs.last().passed { 1nat } else { 0nat }
    }
}

/// How many results did not pass.
pub open spec fn count_failed(rs: Seq<TestResultV>) -> nat
    decreases rs.len(),
{
    if rs.len() == 0 {
        0
    } else {
        count_failed(rs.drop_last()) + if rs.last().passed { 0nat } else { 1nat }
    }
}

/// The result of a run that went through all its tests.
pub open spec fn completed_result(rs: Seq<TestResultV>, server_crashed: bool) -> RunResultV {
    RunResultV {
        results: rs,
        passed: count_passed(rs),
        failed: count_failed(rs),
        total: rs.len(),
        server_crashed,
        setup_error: None,
    }
}

/// The result of a run stopped by a failed setup step.
pub open spec fn aborted_result(rs: Seq<TestResultV>, tests: nat, server_crashed: bool, message: Seq<char>) -> RunResultV {
    RunResultV { results: rs, passed: 0, failed: 0, total: tests, server_crashed, setup_error: Some(message) }
}

/// Entering setup step `i`: send its request, or abort when it cannot be
/// prepared, or go on to the tests after the last step.
pub open spec fn enter_setup(file: TestFile, base: Seq<char>, s: RunV, i: nat) -> (RunV, ActionV) {
    if i < file.setup@.len() {
        let step = file.setup@[i as int];
        match prepared(step.request, s.vars, base) {
            Ok(p) => (RunV { phase: PhaseV::Setup(i), ..s }, ActionV::Send(p)),
            Err(e) => (RunV { phase: PhaseV::SetupAbort(setup_failed_message(step.id@, e)), ..s }, ActionV::CheckServer),
        }
    } else {
        (RunV { phase: PhaseV::TestStart(0), ..s }, ActionV::CheckServer)
    }
}

/// After test `j`'s response checks: run its database checks if it has any,
/// else record its result and go on to the next test.
pub open spec fn enter_db(file: TestFile, s: RunV, j: nat, failures: Seq<Seq<char>>) -> (RunV, ActionV) {
    let t = file.tests@[j as int];
    match t.db_assert {
        Some(block) => (RunV { phase: PhaseV::TestDb(j, failures), ..s }, ActionV::RunDb(block@)),
        None => (
            RunV { results: s.results.push(ran_result(t, failures)), phase: PhaseV::TestStart(j + 1), ..s },
            ActionV::CheckServer,
        ),
    }
}

/// Running test `j` on a live server: send its request, or go straight to
/// its database checks when it has none.
pub open spec fn enter_test(file: TestFile, base: Seq<char>, s: RunV, j: nat) -> (RunV, ActionV) {
    let t = file.tests@[j as int];
    match t.request {
        Some(req) => match prepared(req, s.vars, base) {
            Ok(p) => (RunV { phase: PhaseV::TestReply(j), ..s }, ActionV::Send(p)),
            Err(e) => (RunV { phase: PhaseV::TestFailed(j, e), ..s }, ActionV::CheckServer),
        },
        None => enter_db(file, s, j, Seq::empty()),
    }
}

/// Which events each phase accepts.
pub open spec fn accepts(phase: PhaseV, e: EventV) -> bool {
    match phase {
        PhaseV::Ready => e is Begin,
        PhaseV::Setup(_) => e is Reply || e is Failed,
        PhaseV::SetupAbort(_) => e is ServerStatus,
        PhaseV::TestStart(_) => e is ServerStatus,
        PhaseV::TestReply(_) => e is Reply || e is Failed,
        PhaseV::TestFailed(_, _) => e is ServerStatus,
        PhaseV::TestDb(_, _) => e is DbFailures,
        PhaseV::Done => false,
    }
}

/// Whether the phase's positions fit the test file.
pub open spec fn phase_fits(file: TestFile, phase: PhaseV) -> bool {
    match phase {
        PhaseV::Setup(i) => i < file.setup@.len(),
        PhaseV::TestStart(j) => j <= file.tests@.len(),
        PhaseV::TestReply(j) => j < file.tests@.len(),
        PhaseV::TestFailed(j, _) => j < file.tests@.len(),
        PhaseV::TestDb(j, _) => j < file.tests@.len(),
        _ => true,
    }
}

/// One transition: the next state and the action asked for, given the
/// event reported for the previous action.
pub open spec fn step_spec(file: TestFile, base: Seq<char>, s: RunV, e: EventV) -> (RunV, ActionV) {
    match (s.phase, e) {
        (PhaseV::Ready, _) => enter_setup(file, base, s, 0),
        (PhaseV::Setup(i), EventV::Reply(status, body)) => {
            let step = file.setup@[i as int];
            match step.expect_status {
                Some(x) if status != x => (
                    RunV { phase: PhaseV::SetupAbort(setup_status_message(step.id@, x, status)), ..s },
                    ActionV::CheckServer,
                ),
                _ => enter_setup(
                    file,
                    base,
                    RunV { vars: captured(pairs_view(step.capture@), body, s.vars), ..s },
                    i + 1,
                ),
            }
        },
        (PhaseV::Setup(i), EventV::Failed(t)) => (
            RunV {
                phase: PhaseV::SetupAbort(setup_failed_message(file.setup@[i as int].id@, request_failed_message(t))),
                ..s
            },
            ActionV::CheckServer,
        ),
        (PhaseV::SetupAbort(m), EventV::ServerStatus(c)) => (
            RunV { phase: PhaseV::Done, ..s },
            ActionV::Finish(aborted_result(s.results, file.tests@.len(), c, m)),
        ),
        (PhaseV::TestStart(j), EventV::ServerStatus(c)) => {
            if j >= file.tests@.len() {
                (RunV { phase: PhaseV::Done, ..s }, ActionV::Finish(completed_result(s.results, s.crashed || c)))
            } else if c {
                (
                    RunV {
                        results: s.results.push(error_result(file.tests@[j as int], crash_message())),
                        crashed: true,
                        phase: PhaseV::TestStart(j + 1),
                        ..s
                    },
                    ActionV::CheckServer,
                )
            } else {
                enter_test(file, base, s, j)
            }
        },
        (PhaseV::TestReply(j), EventV::Reply(status, body)) => {
            let t = file.tests@[j as int];
            enter_db(
                file,
                RunV { vars: captured(pairs_view(t.capture@), body, s.vars), ..s },
                j,
                assertion_failures(t.assert.status, t.assert.body@, status, body),
            )
        },
        (PhaseV::TestReply(j), EventV::Failed(t)) => (
            RunV { phase: PhaseV::TestFailed(j, request_failed_message(t)), ..s },
            ActionV::CheckServer,
        ),
        (PhaseV::TestFailed(j, m), EventV::ServerStatus(c)) => (
            RunV {
                results: s.results.push(error_result(file.tests@[j as int], if c { crash_message() } else { m })),
                crashed: c,
                phase: PhaseV::TestStart(j + 1),
                ..s
            },
            ActionV::CheckServer,
        ),
        (PhaseV::TestDb(j, fs), EventV::DbFailures(d)) => (
            RunV {
                results: s.results.push(ran_result(file.tests@[j as int], fs + d)),
                phase: PhaseV::TestStart(j + 1),
                ..s
            },
            ActionV::CheckServer,
        ),
        _ => (s, ActionV::CheckServer),
    }
}


/// A test run in progress.
pub struct TestRun {
    file: TestFile,
    base_url: String,
    vars: Vars,
    results: Vec<TestResult>,
    crashed: bool,
    phase: Phase,
}

impl View for TestRun {
    type V = RunV;

    closed spec fn view(&self) -> RunV {
        RunV { vars: self.vars@, results: results_view(self.results@), crashed: self.crashed, phase: self.phase@ }
    }
}

proof fn lemma_results_push(rs: Seq<TestResult>, r: TestResult)
    ensures
        results_view(rs.push(r)) == results_view(rs).push(r@),
{
    assert(results_view(rs.push(r)) =~= results_view(rs).push(r@));
}

fn copy_strings(v: &Vec<String>) -> (r: Vec<String>)
    ensures
        r.deep_view() == v.deep_view(),
{
    let mut r: Vec<String> = Vec::new();
    let mut i: usize = 0;
    while i < v.len()
        invariant
            i <= v.len(),
            r@.len() == i,
            forall|k: int| 0 <= k < i ==> (#[trigger] r@[k])@ == v@[k]@,
        decreases v.len() - i,
    {
        r.push(v[i].clone());
        i = i + 1;
    }
    assert(r.deep_view() =~= v.deep_view());
    r
}

impl TestRun {
    /// The test file being run.
    pub closed spec fn file(&self) -> TestFile {
        self.file
    }

    /// The address requests go to, such as `http://127.0.0.1:8000`.
    pub closed spec fn base_url(&self) -> Seq<char> {
        self.base_url@
    }

    /// The run's position fits its test file.
    pub closed spec fn well_formed(&self) -> bool {
        phase_fits(self.file, self.phase@)
    }

    /// A run that has not started; report `Event::Begin` first.
    pub fn new(file: TestFile, base_url: String) -> (r: TestRun)
        ensures
            r.file() == file,
            r.base_url() == base_url@,
            r.well_formed(),
            r@ == (RunV { vars: Seq::empty(), results: Seq::empty(), crashed: false, phase: PhaseV::Ready }),
    {
        let r = TestRun { file, base_url, vars: Vars::new(), results: Vec::new(), crashed: false, phase: Phase::Ready };
        assert(results_view(r.results@) =~= Seq::<TestResultV>::empty());
        r
    }

    /// The variables captured so far.
    pub fn vars(&self) -> (r: &Vars)
        ensures
            r@ == self@.vars,
    {
        &self.vars
    }

    /// Whether the run accepts this event now.
    pub fn accepts(&self, event: &Event) -> (r: bool)
        ensures
            r == accepts(self@.phase, event@),
    {
        match (&self.phase, event) {
            (Phase::Ready, Event::Begin) => true,
            (Phase::Setup(_), Event::Reply(_)) => true,
            (Phase::Setup(_), Event::Failed(_)) => true,
            (Phase::SetupAbort(_), Event::ServerStatus(_)) => true,
            (Phase::TestStart(_), Event::ServerStatus(_)) => true,
            (Phase::TestReply(_), Event::Reply(_)) => true,
            (Phase::TestReply(_), Event::Failed(_)) => true,
            (Phase::TestFailed(_, _), Event::ServerStatus(_)) => true,
            (Phase::TestDb(_, _), Event::DbFailures(_)) => true,
            _ => false,
        }
    }

    fn record(&mut self, r: TestResult)
        ensures
            final(self).file == old(self).file,
            final(self).base_url == old(self).base_url,
            final(self)@ == (RunV { results: old(self)@.results.push(r@), ..old(self)@ }),
    {
        let ghost old_rs = self.results@;
        self.results.push(r);
        proof {
            lemma_results_push(old_rs, r);
        }
    }

    fn enter_setup(&mut self, i: usize) -> (a: Action)
        requires
            i <= old(self).file.setup@.len(),
        ensures
            phase_fits(final(self).file, final(self).phase@),
            final(self).file == old(self).file,
            final(self).base_url == old(self).base_url,
            (final(self)@, a@) == enter_setup(old(self).file, old(self).base_url@, old(self)@, i as nat),
    {
        if i < self.file.setup.len() {
            match prepare_request(&self.file.setup[i].request, &self.vars, self.base_url.as_str()) {
                Ok(p) => {
                    self.phase = Phase::Setup(i);
                    Action::Send(p)
                },
                Err(e) => {
                    let mut m = String::from_str("Setup step '");
                    m.append(self.file.setup[i].id.as_str());
                    m.append("' failed: ");
                    m.append(e.as_str());
                    self.phase = Phase::SetupAbort(m);
                    Action::CheckServer
                },
            }
        } else {
            self.phase = Phase::TestStart(0);
            Action::CheckServer
        }
    }

    fn enter_db(&mut self, j: usize, failures: Vec<String>) -> (a: Action)
        requires
            j < old(self).file.tests@.len(),
        ensures
            phase_fits(final(self).file, final(self).phase@),
            final(self).file == old(self).file,
            final(self).base_url == old(self).base_url,
            (final(self)@, a@) == enter_db(old(self).file, old(self)@, j as nat, failures.deep_view()),
    {
        match &self.file.tests[j].db_assert {
            Some(block) => {
                let b = block.duplicate();
                self.phase = Phase::TestDb(j, failures);
                Action::RunDb(b)
            },
            None => {
                let ghost fv = failures.deep_view();
                let passed = failures.len() == 0;
                let r = TestResult {
                    id: self.file.tests[j].id.clone(),
                    name: self.file.tests[j].name.clone(),
                    passed,
                    error: false,
                    message: String::new(),
                    failures,
                };
                assert(r@ == ran_result(self.file.tests@[j as int], fv));
                self.record(r);
                assert(j < self.file.tests.len());
                self.phase = Phase::TestStart(j + 1);
                Action::CheckServer
            },
        }
    }

    fn enter_test(&mut self, j: usize) -> (a: Action)
        requires
            j < old(self).file.tests@.len(),
        ensures
            phase_fits(final(self).file, final(self).phase@),
            final(self).file == old(self).file,
            final(self).base_url == old(self).base_url,
            (final(self)@, a@) == enter_test(old(self).file, old(self).base_url@, old(self)@, j as nat),
    {
        match &self.file.tests[j].request {
            Some(req) => match prepare_request(req, &self.vars, self.base_url.as_str()) {
                Ok(p) => {
                    self.phase = Phase::TestReply(j);
                    Action::Send(p)
                },
                Err(e) => {
                    self.phase = Phase::TestFailed(j, e);
                    Action::CheckServer
                },
            },
            None => {
                let none: Vec<String> = Vec::new();
                assert(none.deep_view() =~= Seq::<Seq<char>>::empty());
                self.enter_db(j, none)
            },
        }
    }

    /// Advances the run by one event, which must be one the current phase
    /// accepts, and returns what the caller must do next.
    pub fn step(&mut self, event: Event) -> (a: Action)
        requires
            old(self).well_formed(),
            accepts(old(self)@.phase, event@),
        ensures
            final(self).well_formed(),
            final(self).file() == old(self).file(),
            final(self).base_url() == old(self).base_url(),
            (final(self)@, a@) == step_spec(old(self).file(), old(self).base_url(), old(self)@, event@),
    {
        let ghost s0 = self@;
        let ghost ev = event@;
        let mut phase = Phase::Done;
        std::mem::swap(&mut phase, &mut self.phase);
        let ghost mid = self@;
        let ghost file = self.file;
        let ghost base = self.base_url@;
        match phase {
            Phase::Ready => {
                assert(enter_setup(file, base, s0, 0) == enter_setup(file, base, mid, 0));
                self.enter_setup(0)
            },
            Phase::Setup(i) => match event {
                Event::Reply(resp) => {
                    let expect = self.file.setup[i].expect_status;
                    match expect {
                        Some(x) => {
                            if resp.status != x {
                                let mut m = String::from_str("Setup step '");
                                m.append(self.file.setup[i].id.as_str());
                                m.append("': expected status ");
                                m.append(u64_text(x as u64).as_str());
                                m.append(" got ");
                                m.append(u64_text(resp.status as u64).as_str());
                                self.phase = Phase::SetupAbort(m);
                                assert((self@, ActionV::CheckServer) == step_spec(file, base, s0, ev)) by { assert(self@ =~~= step_spec(file, base, s0, ev).0); }
                                return Action::CheckServer;
                            }
                        },
                        None => {},
                    }
                    apply_captures(&self.file.setup[i].capture, &resp.body, &mut self.vars);
                    assert(self.file.setup@[i as int].capture@.map_values(|c: (String, String)| (c.0@, c.1@))
                        == pairs_view(self.file.setup@[i as int].capture@));
                    assert(i < self.file.setup.len());
                    let ghost cap = captured(pairs_view(file.setup@[i as int].capture@), resp.body@, s0.vars);
                    assert(enter_setup(file, base, RunV { vars: cap, ..s0 }, (i + 1) as nat)
                        == enter_setup(file, base, self@, (i + 1) as nat));
                    self.enter_setup(i + 1)
                },
                Event::Failed(t) => {
                    let mut m = String::from_str("Setup step '");
                    m.append(self.file.setup[i].id.as_str());
                    m.append("' failed: ");
                    m.append("Request failed: ");
                    m.append(t.as_str());
                    assert(m@ =~= setup_failed_message(file.setup@[i as int].id@, request_failed_message(t@)));
                    self.phase = Phase::SetupAbort(m);
                    assert((self@, ActionV::CheckServer) == step_spec(file, base, s0, ev));
                    Action::CheckServer
                },
                _ => Action::CheckServer,
            },
            Phase::SetupAbort(m) => match event {
                Event::ServerStatus(c) => {
                    let results = copy_results(&self.results);
                    Action::Finish(RunResult {
                        results,
                        passed: 0,
                        failed: 0,
                        total: self.file.tests.len(),
                        server_crashed: c,
                        setup_error: Some(m),
                    })
                },
                _ => Action::CheckServer,
            },
            Phase::TestStart(j) => match event {
                Event::ServerStatus(c) => {
                    if j >= self.file.tests.len() {
                        let results = copy_results(&self.results);
                        let (passed, failed) = count_results(&results);
                        Action::Finish(RunResult {
                            total: results.len(),
                            results,
                            passed,
                            failed,
                            server_crashed: self.crashed || c,
                            setup_error: None,
                        })
                    } else if c {
                        let r = TestResult {
                            id: self.file.tests[j].id.clone(),
                            name: self.file.tests[j].name.clone(),
                            passed: false,
                            error: true,
                            message: String::from_str("Server crashed during test run. Check your code for errors."),
                            failures: Vec::new(),
                        };
                        assert(r.failures.deep_view() =~= Seq::<Seq<char>>::empty());
                        self.record(r);
                        self.crashed = true;
                        self.phase = Phase::TestStart(j + 1);
                        assert((self@, ActionV::CheckServer) == step_spec(file, base, s0, ev));
                        Action::CheckServer
                    } else {
                        assert(enter_test(file, base, s0, j as nat) == enter_test(file, base, mid, j as nat));
                        self.enter_test(j)
                    }
                },
                _ => Action::CheckServer,
            },
            Phase::TestReply(j) => match event {
                Event::Reply(resp) => {
                    apply_captures(&self.file.tests[j].capture, &resp.body, &mut self.vars);
                    assert(self.file.tests@[j as int].capture@.map_values(|c: (String, String)| (c.0@, c.1@))
                        == pairs_view(self.file.tests@[j as int].capture@));
                    let failures = evaluate_assertions(&self.file.tests[j].assert, &resp);
                    let ghost cap = captured(pairs_view(file.tests@[j as int].capture@), resp.body@, s0.vars);
                    assert(enter_db(file, RunV { vars: cap, ..s0 }, j as nat, failures.deep_view())
                        == enter_db(file, self@, j as nat, failures.deep_view()));
                    self.enter_db(j, failures)
                },
                Event::Failed(t) => {
                    let mut m = String::from_str("Request failed: ");
                    m.append(t.as_str());
                    self.phase = Phase::TestFailed(j, m);
                    assert((self@, ActionV::CheckServer) == step_spec(file, base, s0, ev));
                    Action::CheckServer
                },
                _ => Action::CheckServer,
            },
            Phase::TestFailed(j, m) => match event {
                Event::ServerStatus(c) => {
                    let message = if c {
                        String::from_str("Server crashed during test run. Check your code for errors.")
                    } else {
                        m
                    };
                    let r = TestResult {
                        id: self.file.tests[j].id.clone(),
                        name: self.file.tests[j].name.clone(),
                        passed: false,
                        error: true,
                        message,
                        failures: Vec::new(),
                    };
                    assert(r.failures.deep_view() =~= Seq::<Seq<char>>::empty());
                    self.record(r);
                    self.crashed = c;
                    assert(j < self.file.tests.len());
                    self.phase = Phase::TestStart(j + 1);
                    assert((self@, ActionV::CheckServer) == step_spec(file, base, s0, ev));
                    Action::CheckServer
                },
                _ => Action::CheckServer,
            },
            Phase::TestDb(j, fs) => match event {
                Event::DbFailures(d) => {
                    let mut all = fs;
                    crate::text::extend_strings(&mut all, d);
                    let ghost av = all.deep_view();
                    let passed = all.len() == 0;
                    let r = TestResult {
                        id: self.file.tests[j].id.clone(),
                        name: self.file.tests[j].name.clone(),
                        passed,
                        error: false,
                        message: String::new(),
                        failures: all,
                    };
                    assert(r@ == ran_result(self.file.tests@[j as int], av));
                    self.record(r);
                    assert(j < self.file.tests.len());
                    self.phase = Phase::TestStart(j + 1);
                    assert((self@, ActionV::CheckServer) == step_spec(file, base, s0, ev));
                    Action::CheckServer
                },
                _ => Action::CheckServer,
            },
            Phase::Done => Action::CheckServer,
        }
    }
}

fn copy_result(r: &TestResult) -> (c: TestResult)
    ensures
        c@ == r@,
{
    TestResult {
        id: r.id.clone(),
        name: r.name.clone(),
        passed: r.passed,
        error: r.error,
        message: r.message.clone(),
        failures: copy_strings(&r.failures),
    }
}

fn copy_results(rs: &Vec<TestResult>) -> (c: Vec<TestResult>)
    ensures
        results_view(c@) == results_view(rs@),
{
    let mut c: Vec<TestResult> = Vec::new();
    let mut i: usize = 0;
    while i < rs.len()
        invariant
            i <= rs.len(),
            results_view(c@) == results_view(rs@.take(i as int)),
        decreases rs.len() - i,
    {
        let ghost before = c@;
        let x = copy_result(&rs[i]);
        c.push(x);
        proof {
            lemma_results_push(before, x);
            assert(rs@.take(i + 1) =~= rs@.take(i as int).push(rs@[i as int]));
            lemma_results_push(rs@.take(i as int), rs@[i as int]);
        }
        i = i + 1;
    }
    assert(rs@.take(i as int) =~= rs@);
    c
}

fn count_results(rs: &Vec<TestResult>) -> (r: (usize, usize))
    ensures
        r.0 == count_passed(results_view(rs@)),
        r.1 == count_failed(results_view(rs@)),
{
    let ghost rv = results_view(rs@);
    let mut p: usize = 0;
    let mut f: usize = 0;
    let mut i: usize = 0;
    while i < rs.len()
        invariant
            rv == results_view(rs@),
            i <= rs.len(),
            p == count_passed(rv.take(i as int)),
            f == count_failed(rv.take(i as int)),
            p + f == i,
        decreases rs.len() - i,
    {
        proof {
            assert(rv.take(i + 1).drop_last() =~= rv.take(i as int));
        }
        if rs[i].passed {
            p = p + 1;
        } else {
            f = f + 1;
        }
        i = i + 1;
    }
    assert(rv.take(i as int) =~= rv);
    (p, f)
}


// ── Laws of a run ───────────────────────────────────────────────────────────

/// Every result passed or did not: the two counts add up to the total.
pub proof fn law_counts_add_up(rs: Seq<TestResultV>)
    ensures
        count_passed(rs) + count_failed(rs) == rs.len(),
    decreases rs.len(),
{
    if rs.len() > 0 {
        law_counts_add_up(rs.drop_last());
    }
}

/// The results recorded so far belong to the first tests of the file, in
/// file order, and a result passed exactly when the test ran and nothing
/// failed.
pub open spec fn results_follow_tests(file: TestFile, rs: Seq<TestResultV>) -> bool {
    &&& rs.len() <= file.tests@.len()
    &&& forall|k: int|
        0 <= k < rs.len() ==> {
            &&& (#[trigger] rs[k]).id == file.tests@[k].id@
            &&& rs[k].name == file.tests@[k].name@
            &&& (rs[k].passed <==> (!rs[k].error && rs[k].failures.len() == 0))
        }
}

/// A run state that a run can reach: its results follow the tests, one per
/// test already handled.
pub open spec fn reachable_shape(file: TestFile, s: RunV) -> bool {
    &&& results_follow_tests(file, s.results)
    &&& phase_fits(file, s.phase)
    &&& match s.phase {
        PhaseV::Ready => s.results.len() == 0,
        PhaseV::Setup(_) => s.results.len() == 0,
        PhaseV::SetupAbort(_) => s.results.len() == 0,
        PhaseV::TestStart(j) => s.results.len() == j,
        PhaseV::TestReply(j) => s.results.len() == j,
        PhaseV::TestFailed(j, _) => s.results.len() == j,
        PhaseV::TestDb(j, _) => s.results.len() == j,
        PhaseV::Done => true,
    }
}

/// Each step keeps the shape of a reachable run. When a run finishes after
/// its tests, it holds exactly one result per test, in file order, and its
/// passed and failed counts add up to the total; when a setup step stopped
/// it, it holds no result, counts nothing as passed or failed, and reports
/// the number of tests as the total.
pub proof fn law_step_keeps_shape(file: TestFile, base: Seq<char>, s: RunV, e: EventV)
    requires
        reachable_shape(file, s),
        accepts(s.phase, e),
    ensures
        ({
            let (n, a) = step_spec(file, base, s, e);
            &&& reachable_shape(file, n)
            &&& a matches ActionV::Finish(r) ==> {
                &&& n.phase is Done
                &&& r.passed + r.failed == r.results.len() || r.setup_error is Some
                &&& r.setup_error is None ==> r.results.len() == file.tests@.len() && r.total == r.results.len()
                    && results_follow_tests(file, r.results)
                &&& r.setup_error is Some ==> r.results.len() == 0 && r.passed == 0 && r.failed == 0
                    && r.total == file.tests@.len()
            }
        }),
{
    law_counts_add_up(s.results);
    let (n, a) = step_spec(file, base, s, e);
    match (s.phase, e) {
        (PhaseV::TestStart(j), EventV::ServerStatus(c)) => {
            if j < file.tests@.len() {
                if c {
                    let r = error_result(file.tests@[j as int], crash_message());
                    assert(s.results.push(r)[j as int] == r);
                } else {
                    let t = file.tests@[j as int];
                    match t.request {
                        Some(req) => {},
                        None => {
                            let r = ran_result(t, Seq::empty());
                            assert(s.results.push(r)[j as int] == r);
                        },
                    }
                }
            }
        },
        (PhaseV::TestReply(j), EventV::Reply(status, body)) => {
            let t = file.tests@[j as int];
            let fs = assertion_failures(t.assert.status, t.assert.body@, status, body);
            let r = ran_result(t, fs);
            assert(s.results.push(r)[j as int] == r);
        },
        (PhaseV::TestFailed(j, m), EventV::ServerStatus(c)) => {
            let r = error_result(file.tests@[j as int], if c { crash_message() } else { m });
            assert(s.results.push(r)[j as int] == r);
        },
        (PhaseV::TestDb(j, fs), EventV::DbFailures(d)) => {
            let r = ran_result(file.tests@[j as int], fs + d);
            assert(s.results.push(r)[j as int] == r);
        },
        _ => {},
    }
}


/// Once a test's database checks report their failures, the test's result
/// is recorded with the failures of its response checks followed by those
/// of the database checks, and it passed exactly when there were none at
/// all: a database failure always fails the test.
pub proof fn law_db_failures_recorded(
    file: TestFile,
    base: Seq<char>,
    s: RunV,
    j: nat,
    fs: Seq<Seq<char>>,
    d: Seq<Seq<char>>,
)
    requires
        s.phase == PhaseV::TestDb(j, fs),
        j < file.tests@.len(),
    ensures
        step_spec(file, base, s, EventV::DbFailures(d)).0.results.len() == s.results.len() + 1,
        step_spec(file, base, s, EventV::DbFailures(d)).0.results.drop_last() == s.results,
        step_spec(file, base, s, EventV::DbFailures(d)).0.results.last().failures == fs + d,
        step_spec(file, base, s, EventV::DbFailures(d)).0.results.last().passed <==> (fs.len() == 0 && d.len() == 0),
        d.len() > 0 ==> !step_spec(file, base, s, EventV::DbFailures(d)).0.results.last().passed,
        !step_spec(file, base, s, EventV::DbFailures(d)).0.results.last().error,
        step_spec(file, base, s, EventV::DbFailures(d)).0.results.last().id == file.tests@[j as int].id@,
        step_spec(file, base, s, EventV::DbFailures(d)).0.phase == PhaseV::TestStart(j + 1),
{
    let n = step_spec(file, base, s, EventV::DbFailures(d)).0;
    assert(n.results.drop_last() =~= s.results);
    assert((fs + d).len() == fs.len() + d.len());
}

} // verus!
