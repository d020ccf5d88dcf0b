//! The job controller: at most one snapshot job at a time, its live log while
//! it runs, and its frozen result once it has ended.
use vstd::prelude::*;

use crate::log::JobLog;
use crate::pipeline::{
    detail_after, next, outcome_text, outcome_text_of, step_log, Action, Event, JobRun, Outcome,
};
use crate::text::{decimal, decimal_string, text_eq};

verus! {

/// The UTC date and time of `unix_secs`, written `YYYY-MM-DDTHH:MM:SSZ`.
pub uninterp spec fn utc_text(unix_secs: int) -> Seq<char>;

/// The last second of the year 9999, in seconds since the Unix epoch.
pub const LAST_FOUR_DIGIT_SECOND: i64 = 253402300799;

/// Relies on chrono's `DateTime::<Utc>::from_timestamp` and `format`: the
/// UTC time of `unix_secs` written as `%Y-%m-%dT%H:%M:%SZ`. `from_timestamp`
/// gives `None` only outside chrono's date range, which holds every second
/// from the epoch to the end of year 9999.
#[verifier::external_body]
fn format_utc(unix_secs: i64) -> (r: Option<String>)
    ensures
        r matches Some(t) ==> t@ == utc_text(unix_secs as int),
        0 <= unix_secs <= LAST_FOUR_DIGIT_SECOND ==> r is Some,
{
    match chrono::DateTime::from_timestamp(unix_secs, 0) {
        Some(t) => Some(t.format("%Y-%m-%dT%H:%M:%SZ").to_string()),
        None => None,
    }
}

/// The answer to a request for a new job.
#[derive(Clone, Copy, Debug, PartialEq, Eq, Structural)]
pub enum SubmitOutcome {
    /// A job was started.
    Accepted,
    /// A job is running already; nothing was changed.
    AlreadyRunning,
    /// The request's key did not match; nothing was changed.
    Unauthorized,
}

impl SubmitOutcome {
    pub open spec fn code_of(self) -> u16 {
        match self {
            SubmitOutcome::Accepted => 202,
            SubmitOutcome::AlreadyRunning => 409,
            SubmitOutcome::Unauthorized => 401,
        }
    }

    /// The HTTP status that reports this outcome.
    pub fn status_code(&self) -> (r: u16)
        ensures
            r == self.code_of(),
    {
        match self {
            SubmitOutcome::Accepted => 202,
            SubmitOutcome::AlreadyRunning => 409,
            SubmitOutcome::Unauthorized => 401,
        }
    }

    /// Whether a job was started.
    pub fn success(&self) -> (r: bool)
        ensures
            r == (*self == SubmitOutcome::Accepted),
    {
        matches!(self, SubmitOutcome::Accepted)
    }

    /// The text that reports this outcome.
    pub fn message(&self) -> (r: &'static str)
        ensures
            r@ == match *self {
                SubmitOutcome::Accepted => "job started"@,
                SubmitOutcome::AlreadyRunning => "a job is already running"@,
                SubmitOutcome::Unauthorized => "unauthorized"@,
            },
    {
        match self {
            SubmitOutcome::Accepted => "job started",
            SubmitOutcome::AlreadyRunning => "a job is already running",
            SubmitOutcome::Unauthorized => "unauthorized",
        }
    }
}

/// Whether a request that presented `provided` may act, given the configured
/// `expected` key. A request without a key presents the empty text.
pub fn authorized(provided: &str, expected: &str) -> (r: bool)
    ensures
        r == (provided@ == expected@),
{
    text_eq(provided, expected)
}

/// The state of the controller, as values.
pub struct JobView {
    pub running: bool,
    pub started_at: Option<u64>,
    pub last_completed: Option<Seq<char>>,
    pub last_success: Option<bool>,
    pub last_output: Option<Seq<char>>,
    pub live_log: Option<Seq<char>>,
}

impl JobView {
    /// A job runs exactly when it has a start time and a live log.
    pub open spec fn wf(self) -> bool {
        &&& self.running == self.started_at is Some
        &&& self.running == self.live_log is Some
    }
}

/// The first line of every job's log.
pub open spec fn start_line() -> Seq<char> {
    "[make-jam] starting jam creation"@ + seq!['\n']
}

/// Seconds from `started` to `now`; none where the clock reads earlier.
pub open spec fn elapsed_secs(started: u64, now: u64) -> nat {
    if now >= started {
        (now - started) as nat
    } else {
        0
    }
}

/// The last line of a job's log: how long the job took, what its outcome
/// says and, where there is one that does not repeat it, the detail of its
/// failure.
pub open spec fn finish_line(outcome: Outcome, detail: Seq<char>, elapsed: nat) -> Seq<char> {
    (if outcome.succeeded() {
        "[make-jam] completed in "@
    } else {
        "[make-jam] failed in "@
    }) + decimal(elapsed) + "s: "@ + outcome_text_of(outcome) + (if detail.len() > 0 && detail
        != outcome_text_of(outcome) {
        ": "@ + detail
    } else {
        Seq::empty()
    }) + seq!['\n']
}

/// A submission at time `now_secs`: refused while a job runs; otherwise a job
/// starts, with a fresh log.
pub open spec fn submit_model(v: JobView, now_secs: u64) -> (JobView, SubmitOutcome) {
    if v.running {
        (v, SubmitOutcome::AlreadyRunning)
    } else {
        (
            JobView {
                running: true,
                started_at: Some(now_secs),
                live_log: Some(start_line()),
                ..v
            },
            SubmitOutcome::Accepted,
        )
    }
}

/// The answers to submissions made one after another at `times`, with no job
/// ending in between.
pub open spec fn submit_outcomes(v: JobView, times: Seq<u64>) -> Seq<SubmitOutcome>
    decreases times.len(),
{
    if times.len() == 0 {
        Seq::empty()
    } else {
        let (w, o) = submit_model(v, times[0]);
        seq![o] + submit_outcomes(w, times.drop_first())
    }
}

/// Single flight: of submissions made while no job ends, the first is
/// accepted if no job was running and every other is refused as already
/// running.
pub proof fn lemma_single_flight(v: JobView, times: Seq<u64>)
    requires
        v.wf(),
    ensures
        submit_outcomes(v, times).len() == times.len(),
        forall|i: int|
            0 <= i < times.len() ==> #[trigger] submit_outcomes(v, times)[i] == if i == 0
                && !v.running {
                SubmitOutcome::Accepted
            } else {
                SubmitOutcome::AlreadyRunning
            },
    decreases times.len(),
{
    if times.len() > 0 {
        let (w, o) = submit_model(v, times[0]);
        lemma_single_flight(w, times.drop_first());
        let os = submit_outcomes(v, times);
        assert forall|i: int| 0 <= i < times.len() implies #[trigger] os[i] == if i == 0
            && !v.running {
            SubmitOutcome::Accepted
        } else {
            SubmitOutcome::AlreadyRunning
        } by {
            if i > 0 {
                assert(os[i] == submit_outcomes(w, times.drop_first())[i - 1]);
            }
        }
    }
}

/// A submission at time `now_secs` that presented the key `provided`, where
/// `expected` is the configured key.
pub open spec fn keyed_submit_model(
    v: JobView,
    provided: Seq<char>,
    expected: Seq<char>,
    now_secs: u64,
) -> (JobView, SubmitOutcome) {
    if provided != expected {
        (v, SubmitOutcome::Unauthorized)
    } else {
        submit_model(v, now_secs)
    }
}

/// The answers to keyed submissions made one after another, the `i`th with
/// key `keys[i]` at `times[i]`, with no job ending in between.
pub open spec fn keyed_outcomes(
    v: JobView,
    keys: Seq<Seq<char>>,
    expected: Seq<char>,
    times: Seq<u64>,
) -> Seq<SubmitOutcome>
    decreases times.len(),
{
    if times.len() == 0 || keys.len() == 0 {
        Seq::empty()
    } else {
        let (w, o) = keyed_submit_model(v, keys[0], expected, times[0]);
        seq![o] + keyed_outcomes(w, keys.drop_first(), expected, times.drop_first())
    }
}

/// Single flight for requests that all present the right key: the first is
/// accepted if no job was running, every other is refused as already running.
pub proof fn lemma_single_flight_keyed(
    v: JobView,
    keys: Seq<Seq<char>>,
    expected: Seq<char>,
    times: Seq<u64>,
)
    requires
        v.wf(),
        keys.len() == times.len(),
        forall|i: int| 0 <= i < keys.len() ==> #[trigger] keys[i] == expected,
    ensures
        keyed_outcomes(v, keys, expected, times) == submit_outcomes(v, times),
        forall|i: int|
            0 <= i < times.len() ==> #[trigger] keyed_outcomes(v, keys, expected, times)[i] == if i
                == 0 && !v.running {
                SubmitOutcome::Accepted
            } else {
                SubmitOutcome::AlreadyRunning
            },
    decreases times.len(),
{
    if times.len() > 0 {
        let (w, o) = submit_model(v, times[0]);
        assert(keys[0] == expected);
        assert forall|i: int| 0 <= i < keys.drop_first().len() implies #[trigger] keys.drop_first()[i]
            == expected by {
            assert(keys.drop_first()[i] == keys[i + 1]);
        }
        lemma_single_flight_keyed(w, keys.drop_first(), expected, times.drop_first());
    }
    lemma_single_flight(v, times);
}

/// What a status query reports.
pub struct JobStatus {
    pub running: bool,
    /// Seconds since the running job started.
    pub running_for_secs: Option<u64>,
    /// How many snapshot files exist.
    pub snapshot_count: usize,
    pub last_completed: Option<String>,
    pub last_success: Option<bool>,
    /// The live log while a job runs, else the last job's log.
    pub last_output: Option<String>,
}

pub open spec fn text_view(t: Option<String>) -> Option<Seq<char>> {
    match t {
        Some(s) => Some(s@),
        None => None,
    }
}

pub open spec fn log_view(l: Option<JobLog>) -> Option<Seq<char>> {
    match l {
        Some(s) => Some(s@),
        None => None,
    }
}

fn clone_text(t: &Option<String>) -> (r: Option<String>)
    ensures
        text_view(r) == text_view(*t),
{
    match t {
        Some(s) => Some(s.clone()),
        None => None,
    }
}

/// The process-wide state of the snapshot job.
pub struct JobState {
    running: bool,
    started_at: Option<u64>,
    last_completed: Option<String>,
    last_success: Option<bool>,
    last_output: Option<String>,
    live_log: Option<JobLog>,
}

impl View for JobState {
    type V = JobView;

    closed spec fn view(&self) -> JobView {
        JobView {
            running: self.running,
            started_at: self.started_at,
            last_completed: text_view(self.last_completed),
            last_success: self.last_success,
            last_output: text_view(self.last_output),
            live_log: log_view(self.live_log),
        }
    }
}

impl JobState {
    /// No job has run yet.
    pub fn new() -> (r: JobState)
        ensures
            r@ == (JobView {
                running: false,
                started_at: None,
                last_completed: None,
                last_success: None,
                last_output: None,
                live_log: None,
            }),
            r@.wf(),
    {
        JobState {
            running: false,
            started_at: None,
            last_completed: None,
            last_success: None,
            last_output: None,
            live_log: None,
        }
    }

    /// Starts a job at monotonic time `now_secs`, unless one is running.
    pub fn submit(&mut self, now_secs: u64) -> (r: SubmitOutcome)
        requires
            old(self)@.wf(),
        ensures
            (final(self)@, r) == submit_model(old(self)@, now_secs),
            final(self)@.wf(),
    {
        if self.running {
            return SubmitOutcome::AlreadyRunning;
        }
        let mut log = JobLog::new();
        log.append("[make-jam] starting jam creation");
        self.running = true;
        self.started_at = Some(now_secs);
        self.live_log = Some(log);
        assert(self@.live_log == Some(start_line()));
        SubmitOutcome::Accepted
    }

    /// Starts a job as `submit` does, for a request that presented the key
    /// `provided`; a key other than `expected` changes nothing.
    pub fn submit_with_key(&mut self, provided: &str, expected: &str, now_secs: u64) -> (r:
        SubmitOutcome)
        requires
            old(self)@.wf(),
        ensures
            (final(self)@, r) == keyed_submit_model(old(self)@, provided@, expected@, now_secs),
            final(self)@.wf(),
    {
        if !authorized(provided, expected) {
            return SubmitOutcome::Unauthorized;
        }
        self.submit(now_secs)
    }

    /// Appends `line` to the live log of the running job; with no job
    /// running, nothing changes.
    pub fn record(&mut self, line: &str)
        requires
            old(self)@.wf(),
        ensures
            final(self)@ == (JobView {
                live_log: match old(self)@.live_log {
                    Some(l) => Some(l + line@ + seq!['\n']),
                    None => None,
                },
                ..old(self)@
            }),
            final(self)@.wf(),
    {
        match self.live_log.take() {
            Some(mut log) => {
                log.append(line);
                self.live_log = Some(log);
            },
            None => {},
        }
    }

    /// Hands `event` to the running job `run`, which notes its progress in
    /// the live log; returns the job's next action.
    pub fn advance(&mut self, run: &mut JobRun, event: Event) -> (r: Action)
        requires
            old(self)@.wf(),
        ensures
            (final(run).stage, r) == next(
                old(run).stage,
                event,
                old(run).timeout_secs,
                old(run).poll_secs,
            ),
            final(run).timeout_secs == old(run).timeout_secs,
            final(run).poll_secs == old(run).poll_secs,
            final(self)@.running == old(self)@.running,
            final(self)@.started_at == old(self)@.started_at,
            final(self)@.last_completed == old(self)@.last_completed,
            final(self)@.last_success == old(self)@.last_success,
            final(self)@.last_output == old(self)@.last_output,
            final(run).jams_dir@ == old(run).jams_dir@,
            final(run).manifest_path@ == old(run).manifest_path@,
            final(run).detail@ == detail_after(
                old(run).stage,
                event,
                old(run).detail@,
                old(run).jams_dir@,
            ),
            final(self)@.live_log == match old(self)@.live_log {
                Some(l) => Some(
                    l + step_log(
                        old(run).stage,
                        event,
                        old(run).timeout_secs,
                        old(run).jams_dir@,
                        old(run).manifest_path@,
                    ),
                ),
                None => None,
            },
            final(self)@.wf(),
    {
        match self.live_log.take() {
            Some(mut log) => {
                let r = run.step(event, &mut log);
                self.live_log = Some(log);
                r
            },
            None => {
                let mut scratch = JobLog::new();
                run.step(event, &mut scratch)
            },
        }
    }

    /// Ends the running job with `outcome`, whose failure is explained by
    /// `detail` where that is not empty: records whether it succeeded, the
    /// UTC time
    /// `now_unix` at which it ended, and its log, which stops being live.
    /// `now_secs` is the monotonic time, on the clock of `submit`.
    pub fn finish(&mut self, outcome: Outcome, detail: &str, now_secs: u64, now_unix: i64)
        requires
            old(self)@.wf(),
        ensures
            final(self)@.wf(),
            !old(self)@.running ==> final(self)@ == old(self)@,
            old(self)@.running ==> {
                &&& !final(self)@.running
                &&& final(self)@.last_success == Some(outcome.succeeded())
                &&& final(self)@.started_at is None
                &&& final(self)@.live_log is None
                &&& final(self)@.last_output == Some(
                    old(self)@.live_log.unwrap() + finish_line(
                        outcome,
                        detail@,
                        elapsed_secs(old(self)@.started_at.unwrap(), now_secs),
                    ),
                )
                &&& final(self)@.last_completed matches Some(t) ==> t == utc_text(now_unix as int)
                &&& 0 <= now_unix <= LAST_FOUR_DIGIT_SECOND ==> final(self)@.last_completed is Some
            },
    {
        if !self.running {
            return;
        }
        let mut log = match self.live_log.take() {
            Some(l) => l,
            None => JobLog::new(),
        };
        let started = match self.started_at {
            Some(t) => t,
            None => now_secs,
        };
        let elapsed = if now_secs >= started {
            now_secs - started
        } else {
            0
        };
        let success = outcome.is_success();
        let mut line = if success {
            String::from_str("[make-jam] completed in ")
        } else {
            String::from_str("[make-jam] failed in ")
        };
        let secs = decimal_string(elapsed);
        line.append(secs.as_str());
        line.append("s: ");
        let text = outcome_text(&outcome);
        line.append(text.as_str());
        if detail.unicode_len() > 0 && !text_eq(detail, text.as_str()) {
            line.append(": ");
            line.append(detail);
        }
        proof {
            reveal_strlit(": ");
        }
        log.append(line.as_str());
        self.running = false;
        self.started_at = None;
        self.last_completed = format_utc(now_unix);
        self.last_success = Some(success);
        self.last_output = Some(log.take());
    }

    /// What a status query at monotonic time `now_secs` reports, given the
    /// number of snapshot files.
    pub fn status(&self, now_secs: u64, snapshot_count: usize) -> (r: JobStatus)
        requires
            self@.wf(),
        ensures
            r.running == self@.running,
            r.running_for_secs == match self@.started_at {
                Some(t) => Some(if now_secs >= t {
                    (now_secs - t) as u64
                } else {
                    0
                }),
                None => None,
            },
            r.snapshot_count == snapshot_count,
            text_view(r.last_completed) == self@.last_completed,
            r.last_success == self@.last_success,
            text_view(r.last_output) == match self@.live_log {
                Some(l) => Some(l),
                None => self@.last_output,
            },
    {
        let running_for_secs = match self.started_at {
            Some(t) => Some(
                if now_secs >= t {
                    now_secs - t
                } else {
                    0
                },
            ),
            None => None,
        };
        let last_output = match &self.live_log {
            Some(l) => Some(l.snapshot()),
            None => clone_text(&self.last_output),
        };
        JobStatus {
            running: self.running,
            running_for_secs,
            snapshot_count,
            last_completed: clone_text(&self.last_completed),
            last_success: self.last_success,
            last_output,
        }
    }
}

} // verus!
