//! One snapshot job, from the tip query to the manifest, as a state machine:
//! each call of `JobRun::step` takes what the last action produced and says
//! what to do next. The caller performs the actions (queries, service control,
//! the export process, file I/O) and reports back.
use vstd::prelude::*;

use crate::log::JobLog;
use crate::manifest::ManifestError;
use crate::text::{decimal, decimal_string, dir_prefix};

verus! {

/// The extension of snapshot files, with its dot.
pub open spec fn snapshot_ext() -> Seq<char> {
    seq!['.', 'j', 'a', 'm']
}

/// The file name of the snapshot taken at `marker`.
pub open spec fn artifact_name_of(marker: nat) -> Seq<char> {
    decimal(marker) + snapshot_ext()
}

/// Names the snapshot taken at `marker`: `<marker>.jam`.
pub fn artifact_name(marker: u64) -> (r: String)
    ensures
        r@ == artifact_name_of(marker as nat),
{
    let mut s = decimal_string(marker);
    proof {
        reveal_strlit(".jam");
    }
    s.append(".jam");
    assert(".jam"@ =~= snapshot_ext());
    s
}

/// What the tip query answered.
pub enum TipReply {
    /// The node reported its current height.
    Height { height: u64 },
    /// The node answered with an error status.
    Refused { code: i32, message: String },
    /// The node answered with neither a height nor an error.
    Empty,
    /// The node could not be reached, or the call failed in transport.
    Unreachable { reason: String },
}

/// Why a job failed.
#[derive(Clone, Copy, Debug, PartialEq, Eq, Structural)]
pub enum JobError {
    /// The tip query failed; nothing else was done.
    RemoteUnavailable,
    /// The node reported height zero: there is nothing to snapshot.
    ZeroTip,
    /// The export did not produce the snapshot for `marker` (the service did
    /// not stop, the process did not start, or the wait timed out).
    ExportFailed { marker: u64 },
    /// The manifest would have listed no file.
    ManifestEmpty,
    /// The manifest could not be written.
    ManifestIo,
}

/// The marker that a tip reply yields, or why it yields none.
pub open spec fn tip_of(reply: TipReply) -> Result<u64, JobError> {
    match reply {
        TipReply::Height { height } => if height == 0 {
            Err(JobError::ZeroTip)
        } else {
            Ok(height)
        },
        _ => Err(JobError::RemoteUnavailable),
    }
}

/// Interprets a tip reply: a height above zero is the marker to snapshot.
pub fn resolve_tip(reply: &TipReply) -> (r: Result<u64, JobError>)
    ensures
        r == tip_of(*reply),
{
    match reply {
        TipReply::Height { height } => if *height == 0 {
            Err(JobError::ZeroTip)
        } else {
            Ok(*height)
        },
        _ => Err(JobError::RemoteUnavailable),
    }
}

/// How a job ended.
#[derive(Clone, Copy, Debug, PartialEq, Eq, Structural)]
pub enum Outcome {
    /// The snapshot for `marker` was exported and the manifest rebuilt.
    Exported { marker: u64 },
    /// The snapshot for `marker` existed already; only the manifest was rebuilt.
    AlreadyPresent { marker: u64 },
    /// The job failed.
    Failed { error: JobError },
}

impl Outcome {
    pub open spec fn succeeded(self) -> bool {
        !(self is Failed)
    }

    /// Whether the job succeeded.
    pub fn is_success(&self) -> (r: bool)
        ensures
            r == self.succeeded(),
    {
        !matches!(self, Outcome::Failed { .. })
    }
}

/// What a job's outcome says: its result, or why it failed.
pub open spec fn outcome_text_of(o: Outcome) -> Seq<char> {
    match o {
        Outcome::Exported { marker } => "Exported jam for block "@ + decimal(marker as nat),
        Outcome::AlreadyPresent { marker } => "Jam for block "@ + decimal(marker as nat)
            + " already exists"@,
        Outcome::Failed { error } => match error {
            JobError::RemoteUnavailable => "Failed to get tip block"@,
            JobError::ZeroTip => "Tip block is 0"@,
            JobError::ExportFailed { .. } => "Export failed"@,
            JobError::ManifestEmpty => "No files found to hash"@,
            JobError::ManifestIo => "Manifest could not be written"@,
        },
    }
}

/// Writes what `outcome` says.
pub fn outcome_text(outcome: &Outcome) -> (r: String)
    ensures
        r@ == outcome_text_of(*outcome),
{
    match outcome {
        Outcome::Exported { marker } => {
            let mut s = String::from_str("Exported jam for block ");
            let d = decimal_string(*marker);
            s.append(d.as_str());
            s
        },
        Outcome::AlreadyPresent { marker } => {
            let mut s = String::from_str("Jam for block ");
            let d = decimal_string(*marker);
            s.append(d.as_str());
            s.append(" already exists");
            s
        },
        Outcome::Failed { error } => match error {
            JobError::RemoteUnavailable => String::from_str("Failed to get tip block"),
            JobError::ZeroTip => String::from_str("Tip block is 0"),
            JobError::ExportFailed { .. } => String::from_str("Export failed"),
            JobError::ManifestEmpty => String::from_str("No files found to hash"),
            JobError::ManifestIo => String::from_str("Manifest could not be written"),
        },
    }
}

/// Where a job stands.
#[derive(Clone, Copy, Debug, PartialEq, Eq, Structural)]
pub enum Stage {
    /// Waiting for the tip query.
    ResolvingTip,
    /// Waiting to learn whether the snapshot for `marker` exists.
    CheckingArtifact { marker: u64 },
    /// Waiting for the node service to stop.
    StoppingService { marker: u64 },
    /// Waiting for the export process to start.
    Spawning { marker: u64 },
    /// The export process runs; waiting for its snapshot to appear.
    Polling { marker: u64 },
    /// Waiting for the export's process group to be killed and reaped;
    /// `found` tells whether the snapshot appeared.
    Killing { marker: u64, found: bool },
    /// Waiting for the restart of the node service to be issued.
    Restarting { marker: u64, exported: bool },
    /// Waiting for the manifest; `fresh` tells whether this job exported.
    Rebuilding { marker: u64, fresh: bool },
    /// The job is over.
    Done { outcome: Outcome },
}

/// What the caller is to do next.
#[derive(Clone, Copy, Debug, PartialEq, Eq, Structural)]
pub enum Action {
    /// Query the node for its current height.
    ResolveTip,
    /// Tell whether the snapshot for `marker` exists.
    CheckArtifact { marker: u64 },
    /// Stop the node service and wait for the stop command to return.
    StopService,
    /// Start the export process for `marker` in a process group of its own.
    SpawnExport { marker: u64 },
    /// Sleep `secs` seconds, then tell whether the snapshot exists and how
    /// long the export has been running.
    WaitThenPoll { secs: u64 },
    /// Kill the export's whole process group and reap it.
    KillGroup,
    /// Issue a start of the node service, without waiting for readiness.
    RestartService,
    /// Rebuild and publish the manifest.
    RebuildManifest,
    /// The job is over with `outcome`.
    Finish { outcome: Outcome },
    /// Nothing: the event did not answer the pending action.
    Idle,
}

/// What the last action produced.
pub enum Event {
    TipResolved { reply: TipReply },
    ArtifactChecked { exists: bool },
    ServiceStopped { ok: bool },
    ExportSpawned { ok: bool },
    Polled { exists: bool, elapsed_secs: u64 },
    GroupKilled,
    RestartIssued { ok: bool },
    ManifestRebuilt { result: Result<usize, ManifestError> },
}

pub open spec fn finish(outcome: Outcome) -> (Stage, Action) {
    (Stage::Done { outcome }, Action::Finish { outcome })
}

/// The transition of a job: from `stage`, on `event`, to the next stage and
/// the action to take. An event that does not answer the stage's pending
/// action changes nothing.
pub open spec fn next(stage: Stage, event: Event, timeout_secs: u64, poll_secs: u64) -> (
    Stage,
    Action,
) {
    match stage {
        Stage::ResolvingTip => match event {
            Event::TipResolved { reply } => match tip_of(reply) {
                Ok(m) => (Stage::CheckingArtifact { marker: m }, Action::CheckArtifact { marker: m }),
                Err(e) => finish(Outcome::Failed { error: e }),
            },
            _ => (stage, Action::Idle),
        },
        Stage::CheckingArtifact { marker } => match event {
            Event::ArtifactChecked { exists } => if exists {
                (Stage::Rebuilding { marker, fresh: false }, Action::RebuildManifest)
            } else {
                (Stage::StoppingService { marker }, Action::StopService)
            },
            _ => (stage, Action::Idle),
        },
        Stage::StoppingService { marker } => match event {
            Event::ServiceStopped { ok } => if ok {
                (Stage::Spawning { marker }, Action::SpawnExport { marker })
            } else {
                (Stage::Restarting { marker, exported: false }, Action::RestartService)
            },
            _ => (stage, Action::Idle),
        },
        Stage::Spawning { marker } => match event {
            Event::ExportSpawned { ok } => if ok {
                (Stage::Polling { marker }, Action::WaitThenPoll { secs: poll_secs })
            } else {
                (Stage::Restarting { marker, exported: false }, Action::RestartService)
            },
            _ => (stage, Action::Idle),
        },
        Stage::Polling { marker } => match event {
            Event::Polled { exists, elapsed_secs } => if exists {
                (Stage::Killing { marker, found: true }, Action::KillGroup)
            } else if elapsed_secs >= timeout_secs {
                (Stage::Killing { marker, found: false }, Action::KillGroup)
            } else {
                (stage, Action::WaitThenPoll { secs: poll_secs })
            },
            _ => (stage, Action::Idle),
        },
        Stage::Killing { marker, found } => match event {
            Event::GroupKilled => (
                Stage::Restarting { marker, exported: found },
                Action::RestartService,
            ),
            _ => (stage, Action::Idle),
        },
        Stage::Restarting { marker, exported } => match event {
            Event::RestartIssued { ok } => if exported {
                (Stage::Rebuilding { marker, fresh: true }, Action::RebuildManifest)
            } else {
                finish(Outcome::Failed { error: JobError::ExportFailed { marker } })
            },
            _ => (stage, Action::Idle),
        },
        Stage::Rebuilding { marker, fresh } => match event {
            Event::ManifestRebuilt { result } => match result {
                Ok(_) => if fresh {
                    finish(Outcome::Exported { marker })
                } else {
                    finish(Outcome::AlreadyPresent { marker })
                },
                Err(ManifestError::NoFilesFound) => finish(
                    Outcome::Failed { error: JobError::ManifestEmpty },
                ),
                Err(ManifestError::Io) => finish(Outcome::Failed { error: JobError::ManifestIo }),
            },
            _ => (stage, Action::Idle),
        },
        Stage::Done { .. } => (stage, Action::Idle),
    }
}

/// `text` as one log line.
pub open spec fn line(text: Seq<char>) -> Seq<char> {
    text + seq!['\n']
}

/// The path of the snapshot taken at `marker` in the directory `dir`.
pub open spec fn artifact_path_of(dir: Seq<char>, marker: nat) -> Seq<char> {
    dir_prefix(dir) + artifact_name_of(marker)
}

/// `v` in decimal, with a minus sign when negative.
pub open spec fn signed_decimal_of(v: int) -> Seq<char> {
    if v < 0 {
        seq!['-'] + decimal((-v) as nat)
    } else {
        decimal(v as nat)
    }
}

/// Why a tip reply yields no marker, in words.
pub open spec fn tip_detail_of(reply: TipReply) -> Seq<char> {
    match reply {
        TipReply::Height { .. } => "Tip block is 0"@,
        TipReply::Refused { code, message } => "gRPC error (code "@ + signed_decimal_of(code as int)
            + "): "@ + message@,
        TipReply::Empty => "Empty gRPC response"@,
        TipReply::Unreachable { reason } => reason@,
    }
}

/// What explains a job's failure after `event` in `stage`: why the tip query
/// failed, or which snapshot the export did not produce; otherwise `detail`
/// as it was.
pub open spec fn detail_after(stage: Stage, event: Event, detail: Seq<char>, dir: Seq<char>) -> Seq<
    char,
> {
    match (stage, event) {
        (Stage::ResolvingTip, Event::TipResolved { reply }) => if tip_of(reply) is Err {
            tip_detail_of(reply)
        } else {
            detail
        },
        (Stage::Restarting { marker, exported: false }, Event::RestartIssued { .. }) => artifact_path_of(
            dir,
            marker as nat,
        ) + " did not appear"@,
        _ => detail,
    }
}

/// The log lines that a job in `stage` writes on `event`; `dir` is the
/// artifacts directory and `manifest_path` where the manifest is published.
pub open spec fn step_log(
    stage: Stage,
    event: Event,
    timeout_secs: u64,
    dir: Seq<char>,
    manifest_path: Seq<char>,
) -> Seq<char> {
    let restarting = line("[jammer] Restarting node service"@);
    let killing = line("[jammer] Killing export process group"@);
    match stage {
        Stage::ResolvingTip => match event {
            Event::TipResolved { reply } => match tip_of(reply) {
                Ok(m) => line("[jammer] Tip block: "@ + decimal(m as nat)),
                Err(_) => Seq::empty(),
            },
            _ => Seq::empty(),
        },
        Stage::CheckingArtifact { marker } => match event {
            Event::ArtifactChecked { exists } => if exists {
                line(
                    "[jammer] Jam already exists: "@ + artifact_path_of(dir, marker as nat)
                        + " (skipping)"@,
                )
            } else {
                line("[jammer] Stopping node service"@)
            },
            _ => Seq::empty(),
        },
        Stage::StoppingService { marker } => match event {
            Event::ServiceStopped { ok } => if ok {
                line("[jammer] Node service stopped"@) + line(
                    "[jammer] Exporting to: "@ + artifact_path_of(dir, marker as nat),
                )
            } else {
                line("[jammer] Node service did not stop; export skipped"@) + restarting
            },
            _ => Seq::empty(),
        },
        Stage::Spawning { marker } => match event {
            Event::ExportSpawned { ok } => if ok {
                line("[jammer] Export started; waiting for the jam file"@)
            } else {
                line("[jammer] Export process could not be started"@) + restarting
            },
            _ => Seq::empty(),
        },
        Stage::Polling { marker } => match event {
            Event::Polled { exists, elapsed_secs } => if exists {
                line("[jammer] Jam file written: "@ + artifact_path_of(dir, marker as nat))
                    + killing
            } else if elapsed_secs >= timeout_secs {
                line(
                    "[jammer] Timed out after "@ + decimal(elapsed_secs as nat) + "s waiting for "@
                        + artifact_path_of(dir, marker as nat),
                ) + killing
            } else {
                Seq::empty()
            },
            _ => Seq::empty(),
        },
        Stage::Killing { .. } => match event {
            Event::GroupKilled => line("[jammer] Export process group terminated"@) + restarting,
            _ => Seq::empty(),
        },
        Stage::Restarting { exported, .. } => match event {
            Event::RestartIssued { ok } => (if ok {
                line("[jammer] Node service restart issued"@)
            } else {
                line("[jammer] Node service restart failed (continuing)"@)
            }) + (if exported {
                line("[jammer] Rebuilding manifest"@)
            } else {
                Seq::empty()
            }),
            _ => Seq::empty(),
        },
        Stage::Rebuilding { .. } => match event {
            Event::ManifestRebuilt { result } => match result {
                Ok(n) => line(
                    "[jammer] Manifest written: "@ + manifest_path + " ("@ + decimal(n as nat)
                        + " files)"@,
                ),
                Err(_) => Seq::empty(),
            },
            _ => Seq::empty(),
        },
        Stage::Done { .. } => Seq::empty(),
    }
}

fn note(log: &mut JobLog, text: &str)
    ensures
        final(log)@ == old(log)@ + line(text@),
{
    log.append(text);
}

fn note_num(log: &mut JobLog, head: &str, n: u64, tail: &str)
    ensures
        final(log)@ == old(log)@ + line(head@ + decimal(n as nat) + tail@),
{
    let mut text = String::from_str(head);
    let digits = decimal_string(n);
    text.append(digits.as_str());
    text.append(tail);
    log.append(text.as_str());
}

fn note_path(log: &mut JobLog, head: &str, path: &String, tail: &str)
    ensures
        final(log)@ == old(log)@ + line(head@ + path@ + tail@),
{
    let mut text = String::from_str(head);
    text.append(path.as_str());
    text.append(tail);
    log.append(text.as_str());
}

fn signed_decimal(v: i32) -> (r: String)
    ensures
        r@ == signed_decimal_of(v as int),
{
    if v < 0 {
        let mut s = String::from_str("-");
        let digits = decimal_string((-(v as i64)) as u64);
        s.append(digits.as_str());
        proof {
            reveal_strlit("-");
        }
        s
    } else {
        decimal_string(v as u64)
    }
}

/// Says in words why a tip reply yields no marker.
pub fn tip_detail(reply: &TipReply) -> (r: String)
    ensures
        r@ == tip_detail_of(*reply),
{
    match reply {
        TipReply::Height { .. } => String::from_str("Tip block is 0"),
        TipReply::Refused { code, message } => {
            let mut s = String::from_str("gRPC error (code ");
            let c = signed_decimal(*code);
            s.append(c.as_str());
            s.append("): ");
            s.append(message.as_str());
            s
        },
        TipReply::Empty => String::from_str("Empty gRPC response"),
        TipReply::Unreachable { reason } => String::from_str(reason.as_str()),
    }
}

/// Names the snapshot taken at `marker` in the directory `dir`.
pub fn artifact_path(dir: &str, marker: u64) -> (r: String)
    ensures
        r@ == artifact_path_of(dir@, marker as nat),
{
    let mut p = String::from_str(dir);
    let n = dir.unicode_len();
    proof {
        reveal_strlit("/");
    }
    if n == 0 || dir.get_char(n - 1) != '/' {
        p.append("/");
    }
    assert(p@ =~= dir_prefix(dir@));
    let name = artifact_name(marker);
    p.append(name.as_str());
    p
}

/// One snapshot job in progress.
pub struct JobRun {
    pub stage: Stage,
    /// How long the export may run before it is given up.
    pub timeout_secs: u64,
    /// How long to sleep between two checks for the snapshot.
    pub poll_secs: u64,
    /// The directory that snapshot files are written to.
    pub jams_dir: String,
    /// Where the manifest is published.
    pub manifest_path: String,
    /// Why the tip query failed, once it has; empty before.
    pub detail: String,
}

impl JobRun {
    /// A job that has yet to query the tip; its first action is
    /// `Action::ResolveTip`.
    pub fn new(timeout_secs: u64, poll_secs: u64, jams_dir: &str, manifest_path: &str) -> (r:
        JobRun)
        ensures
            r.stage == Stage::ResolvingTip,
            r.timeout_secs == timeout_secs,
            r.poll_secs == poll_secs,
            r.jams_dir@ == jams_dir@,
            r.manifest_path@ == manifest_path@,
            r.detail@ == Seq::<char>::empty(),
    {
        JobRun {
            stage: Stage::ResolvingTip,
            timeout_secs,
            poll_secs,
            jams_dir: String::from_str(jams_dir),
            manifest_path: String::from_str(manifest_path),
            detail: String::new(),
        }
    }

    /// Takes `event` into account: moves to the next stage, writes the
    /// change's lines to `log`, and returns the action to take. A failed tip
    /// query writes nothing; it leaves its reason in `detail`, as a failed
    /// export leaves the path of the snapshot that did not appear.
    pub fn step(&mut self, event: Event, log: &mut JobLog) -> (r: Action)
        ensures
            (final(self).stage, r) == next(old(self).stage, event, old(self).timeout_secs, old(self).poll_secs),
            final(self).timeout_secs == old(self).timeout_secs,
            final(self).poll_secs == old(self).poll_secs,
            final(self).jams_dir@ == old(self).jams_dir@,
            final(self).manifest_path@ == old(self).manifest_path@,
            final(log)@ == old(log)@ + step_log(
                old(self).stage,
                event,
                old(self).timeout_secs,
                old(self).jams_dir@,
                old(self).manifest_path@,
            ),
            final(self).detail@ == detail_after(
                old(self).stage,
                event,
                old(self).detail@,
                old(self).jams_dir@,
            ),
    {
        let ghost log0 = log@;
        let (stage, action) = match self.stage {
            Stage::ResolvingTip => match event {
                Event::TipResolved { reply } => match resolve_tip(&reply) {
                    Ok(m) => {
                        note_num(log, "[jammer] Tip block: ", m, "");
                        proof { reveal_strlit(""); }
                        assert(log@ =~= log0 + line("[jammer] Tip block: "@ + decimal(m as nat)));
                        (Stage::CheckingArtifact { marker: m }, Action::CheckArtifact { marker: m })
                    },
                    Err(e) => {
                        self.detail = tip_detail(&reply);
                        assert(log@ =~= log0 + Seq::<char>::empty());
                        (Stage::Done { outcome: Outcome::Failed { error: e } }, Action::Finish { outcome: Outcome::Failed { error: e } })
                    },
                },
                _ => {
                    assert(log@ =~= log0 + Seq::<char>::empty());
                    (self.stage, Action::Idle)
                },
            },
            Stage::CheckingArtifact { marker } => match event {
                Event::ArtifactChecked { exists } => {
                    let path = artifact_path(self.jams_dir.as_str(), marker);
                    if exists {
                        note_path(log, "[jammer] Jam already exists: ", &path, " (skipping)");
                        (Stage::Rebuilding { marker, fresh: false }, Action::RebuildManifest)
                    } else {
                        note(log, "[jammer] Stopping node service");
                        (Stage::StoppingService { marker }, Action::StopService)
                    }
                },
                _ => {
                    assert(log@ =~= log0 + Seq::<char>::empty());
                    (self.stage, Action::Idle)
                },
            },
            Stage::StoppingService { marker } => match event {
                Event::ServiceStopped { ok } => if ok {
                    note(log, "[jammer] Node service stopped");
                    let path = artifact_path(self.jams_dir.as_str(), marker);
                    note_path(log, "[jammer] Exporting to: ", &path, "");
                    proof { reveal_strlit(""); }
                    assert(log@ =~= log0 + step_log(Stage::StoppingService { marker }, event, self.timeout_secs, self.jams_dir@, self.manifest_path@));
                    (Stage::Spawning { marker }, Action::SpawnExport { marker })
                } else {
                    note(log, "[jammer] Node service did not stop; export skipped");
                    note(log, "[jammer] Restarting node service");
                    assert(log@ =~= log0 + step_log(Stage::StoppingService { marker }, event, self.timeout_secs, self.jams_dir@, self.manifest_path@));
                    (Stage::Restarting { marker, exported: false }, Action::RestartService)
                },
                _ => {
                    assert(log@ =~= log0 + Seq::<char>::empty());
                    (self.stage, Action::Idle)
                },
            },
            Stage::Spawning { marker } => match event {
                Event::ExportSpawned { ok } => if ok {
                    note(log, "[jammer] Export started; waiting for the jam file");
                    (Stage::Polling { marker }, Action::WaitThenPoll { secs: self.poll_secs })
                } else {
                    note(log, "[jammer] Export process could not be started");
                    note(log, "[jammer] Restarting node service");
                    assert(log@ =~= log0 + step_log(Stage::Spawning { marker }, event, self.timeout_secs, self.jams_dir@, self.manifest_path@));
                    (Stage::Restarting { marker, exported: false }, Action::RestartService)
                },
                _ => {
                    assert(log@ =~= log0 + Seq::<char>::empty());
                    (self.stage, Action::Idle)
                },
            },
            Stage::Polling { marker } => match event {
                Event::Polled { exists, elapsed_secs } => if exists {
                    let path = artifact_path(self.jams_dir.as_str(), marker);
                    note_path(log, "[jammer] Jam file written: ", &path, "");
                    note(log, "[jammer] Killing export process group");
                    proof { reveal_strlit(""); }
                    assert(log@ =~= log0 + step_log(Stage::Polling { marker }, event, self.timeout_secs, self.jams_dir@, self.manifest_path@));
                    (Stage::Killing { marker, found: true }, Action::KillGroup)
                } else if elapsed_secs >= self.timeout_secs {
                    let path = artifact_path(self.jams_dir.as_str(), marker);
                    let mut text = String::from_str("[jammer] Timed out after ");
                    let secs = decimal_string(elapsed_secs);
                    text.append(secs.as_str());
                    text.append("s waiting for ");
                    text.append(path.as_str());
                    note(log, text.as_str());
                    note(log, "[jammer] Killing export process group");
                    assert(log@ =~= log0 + step_log(Stage::Polling { marker }, event, self.timeout_secs, self.jams_dir@, self.manifest_path@));
                    (Stage::Killing { marker, found: false }, Action::KillGroup)
                } else {
                    assert(log@ =~= log0 + Seq::<char>::empty());
                    (self.stage, Action::WaitThenPoll { secs: self.poll_secs })
                },
                _ => {
                    assert(log@ =~= log0 + Seq::<char>::empty());
                    (self.stage, Action::Idle)
                },
            },
            Stage::Killing { marker, found } => match event {
                Event::GroupKilled => {
                    note(log, "[jammer] Export process group terminated");
                    note(log, "[jammer] Restarting node service");
                    assert(log@ =~= log0 + step_log(Stage::Killing { marker, found }, event, self.timeout_secs, self.jams_dir@, self.manifest_path@));
                    (Stage::Restarting { marker, exported: found }, Action::RestartService)
                },
                _ => {
                    assert(log@ =~= log0 + Seq::<char>::empty());
                    (self.stage, Action::Idle)
                },
            },
            Stage::Restarting { marker, exported } => match event {
                Event::RestartIssued { ok } => {
                    if ok {
                        note(log, "[jammer] Node service restart issued");
                    } else {
                        note(log, "[jammer] Node service restart failed (continuing)");
                    }
                    let ghost mid = log@;
                    if exported {
                        note(log, "[jammer] Rebuilding manifest");
                        assert(log@ =~= log0 + step_log(Stage::Restarting { marker, exported }, event, self.timeout_secs, self.jams_dir@, self.manifest_path@));
                        (Stage::Rebuilding { marker, fresh: true }, Action::RebuildManifest)
                    } else {
                        assert(log@ =~= log0 + step_log(Stage::Restarting { marker, exported }, event, self.timeout_secs, self.jams_dir@, self.manifest_path@));
                        let mut why = artifact_path(self.jams_dir.as_str(), marker);
                        why.append(" did not appear");
                        self.detail = why;
                        let outcome = Outcome::Failed { error: JobError::ExportFailed { marker } };
                        (Stage::Done { outcome }, Action::Finish { outcome })
                    }
                },
                _ => {
                    assert(log@ =~= log0 + Seq::<char>::empty());
                    (self.stage, Action::Idle)
                },
            },
            Stage::Rebuilding { marker, fresh } => match event {
                Event::ManifestRebuilt { result } => {
                    let outcome = match result {
                        Ok(n) => {
                            let mut text = String::from_str("[jammer] Manifest written: ");
                            text.append(self.manifest_path.as_str());
                            text.append(" (");
                            let count = decimal_string(n as u64);
                            text.append(count.as_str());
                            text.append(" files)");
                            note(log, text.as_str());
                            if fresh {
                                Outcome::Exported { marker }
                            } else {
                                Outcome::AlreadyPresent { marker }
                            }
                        },
                        Err(ManifestError::NoFilesFound) => {
                            assert(log@ =~= log0 + Seq::<char>::empty());
                            Outcome::Failed { error: JobError::ManifestEmpty }
                        },
                        Err(ManifestError::Io) => {
                            assert(log@ =~= log0 + Seq::<char>::empty());
                            Outcome::Failed { error: JobError::ManifestIo }
                        },
                    };
                    (Stage::Done { outcome }, Action::Finish { outcome })
                },
                _ => {
                    assert(log@ =~= log0 + Seq::<char>::empty());
                    (self.stage, Action::Idle)
                },
            },
            Stage::Done { .. } => {
                assert(log@ =~= log0 + Seq::<char>::empty());
                (self.stage, Action::Idle)
            },
        };
        self.stage = stage;
        action
    }
}

/// The actions that a job takes from `stage` on `events`, one for each event.
pub open spec fn run(stage: Stage, events: Seq<Event>, timeout_secs: u64, poll_secs: u64) -> Seq<
    Action,
>
    decreases events.len(),
{
    if events.len() == 0 {
        Seq::empty()
    } else {
        let (s, a) = next(stage, events[0], timeout_secs, poll_secs);
        seq![a] + run(s, events.drop_first(), timeout_secs, poll_secs)
    }
}

/// Whether `a` acts on the node service or the export process.
pub open spec fn touches_node(a: Action) -> bool {
    a is StopService || a is SpawnExport || a is KillGroup || a is RestartService
}

/// How many export processes `acts` start.
pub open spec fn exports_started(acts: Seq<Action>) -> nat
    decreases acts.len(),
{
    if acts.len() == 0 {
        0
    } else {
        (if acts[0] is SpawnExport {
            1nat
        } else {
            0nat
        }) + exports_started(acts.drop_first())
    }
}

/// How far a job has come; it never goes back.
pub open spec fn rank(stage: Stage) -> nat {
    match stage {
        Stage::ResolvingTip => 0,
        Stage::CheckingArtifact { .. } => 1,
        Stage::StoppingService { .. } => 2,
        Stage::Spawning { .. } => 3,
        Stage::Polling { .. } => 4,
        Stage::Killing { .. } => 5,
        Stage::Restarting { .. } => 6,
        Stage::Rebuilding { .. } => 7,
        Stage::Done { .. } => 8,
    }
}

/// The stage that each action belongs to, in the order of `rank`.
pub open spec fn action_rank(a: Action) -> nat {
    match a {
        Action::ResolveTip => 0,
        Action::CheckArtifact { .. } => 1,
        Action::StopService => 2,
        Action::SpawnExport { .. } => 3,
        Action::WaitThenPoll { .. } => 4,
        Action::KillGroup => 5,
        Action::RestartService => 6,
        Action::RebuildManifest => 7,
        Action::Finish { .. } => 8,
        Action::Idle => 0,
    }
}

proof fn lemma_run_unfold(stage: Stage, events: Seq<Event>, timeout_secs: u64, poll_secs: u64)
    requires
        events.len() > 0,
    ensures
        ({
            let (s, a) = next(stage, events[0], timeout_secs, poll_secs);
            let acts = run(stage, events, timeout_secs, poll_secs);
            &&& acts.len() == events.len()
            &&& acts[0] == a
            &&& acts.drop_first() == run(s, events.drop_first(), timeout_secs, poll_secs)
            &&& forall|i: int|
                1 <= i < acts.len() ==> acts[i] == run(
                    s,
                    events.drop_first(),
                    timeout_secs,
                    poll_secs,
                )[i - 1]
        }),
    decreases events.len(),
{
    let (s, a) = next(stage, events[0], timeout_secs, poll_secs);
    lemma_run_len(s, events.drop_first(), timeout_secs, poll_secs);
    assert(run(stage, events, timeout_secs, poll_secs).drop_first() =~= run(
        s,
        events.drop_first(),
        timeout_secs,
        poll_secs,
    ));
}

proof fn lemma_run_len(stage: Stage, events: Seq<Event>, timeout_secs: u64, poll_secs: u64)
    ensures
        run(stage, events, timeout_secs, poll_secs).len() == events.len(),
    decreases events.len(),
{
    if events.len() > 0 {
        let (s, a) = next(stage, events[0], timeout_secs, poll_secs);
        lemma_run_len(s, events.drop_first(), timeout_secs, poll_secs);
    }
}

proof fn lemma_exports_bounded(stage: Stage, events: Seq<Event>, timeout_secs: u64, poll_secs: u64)
    ensures
        exports_started(run(stage, events, timeout_secs, poll_secs)) <= if rank(stage) < 3 {
            1nat
        } else {
            0nat
        },
    decreases events.len(),
{
    if events.len() > 0 {
        let (s, a) = next(stage, events[0], timeout_secs, poll_secs);
        lemma_run_unfold(stage, events, timeout_secs, poll_secs);
        lemma_exports_bounded(s, events.drop_first(), timeout_secs, poll_secs);
        assert(rank(s) >= rank(stage));
        assert(a is SpawnExport ==> rank(stage) < 3 && rank(s) == 3);
    }
}

/// One job starts the export process at most once, whatever the events.
pub proof fn lemma_export_started_at_most_once(
    events: Seq<Event>,
    timeout_secs: u64,
    poll_secs: u64,
)
    ensures
        exports_started(run(Stage::ResolvingTip, events, timeout_secs, poll_secs)) <= 1,
{
    lemma_exports_bounded(Stage::ResolvingTip, events, timeout_secs, poll_secs);
}

proof fn lemma_actions_not_before_stage(
    stage: Stage,
    events: Seq<Event>,
    timeout_secs: u64,
    poll_secs: u64,
)
    ensures
        ({
            let acts = run(stage, events, timeout_secs, poll_secs);
            &&& forall|i: int|
                0 <= i < acts.len() && !(#[trigger] acts[i] is Idle) ==> action_rank(acts[i])
                    >= rank(stage)
            &&& forall|i: int, j: int|
                0 <= i < j < acts.len() && !(#[trigger] acts[i] is Idle) && !(
                #[trigger] acts[j] is Idle) ==> action_rank(acts[i]) <= action_rank(acts[j])
        }),
    decreases events.len(),
{
    if events.len() > 0 {
        let (s, a) = next(stage, events[0], timeout_secs, poll_secs);
        let acts = run(stage, events, timeout_secs, poll_secs);
        let rest = run(s, events.drop_first(), timeout_secs, poll_secs);
        lemma_run_unfold(stage, events, timeout_secs, poll_secs);
        lemma_actions_not_before_stage(s, events.drop_first(), timeout_secs, poll_secs);
        assert(rank(s) >= rank(stage));
        assert(!(a is Idle) ==> action_rank(a) == rank(s));
        assert forall|i: int, j: int|
            0 <= i < j < acts.len() && !(#[trigger] acts[i] is Idle) && !(
            #[trigger] acts[j] is Idle) implies action_rank(acts[i]) <= action_rank(acts[j]) by {
            assert(acts[j] == rest[j - 1]);
            if i > 0 {
                assert(acts[i] == rest[i - 1]);
            }
        }
    }
}

/// Stages run strictly in order: whatever the events, a job's actions never
/// go back to an earlier stage (tip, check, stop, export, poll, kill, restart,
/// manifest, finish).
pub proof fn lemma_stages_in_order(events: Seq<Event>, timeout_secs: u64, poll_secs: u64)
    ensures
        ({
            let acts = run(Stage::ResolvingTip, events, timeout_secs, poll_secs);
            forall|i: int, j: int|
                0 <= i < j < acts.len() && !(#[trigger] acts[i] is Idle) && !(
                #[trigger] acts[j] is Idle) ==> action_rank(acts[i]) <= action_rank(acts[j])
        }),
{
    lemma_actions_not_before_stage(Stage::ResolvingTip, events, timeout_secs, poll_secs);
}

/// Whether `stage` is a job that found its snapshot present and has at most
/// the manifest left to do.
pub open spec fn settled_without_export(stage: Stage, marker: u64) -> bool {
    stage == Stage::Rebuilding { marker, fresh: false } || stage is Done
}

proof fn lemma_settled_stays_quiet(stage: Stage, marker: u64, events: Seq<Event>, timeout_secs: u64, poll_secs: u64)
    requires
        settled_without_export(stage, marker),
    ensures
        ({
            let acts = run(stage, events, timeout_secs, poll_secs);
            forall|i: int|
                0 <= i < acts.len() ==> !touches_node(#[trigger] acts[i]) && (acts[i] is Finish
                    ==> acts[i]->outcome == Outcome::AlreadyPresent { marker }
                    || acts[i]->outcome is Failed)
        }),
    decreases events.len(),
{
    if events.len() > 0 {
        let (s, a) = next(stage, events[0], timeout_secs, poll_secs);
        lemma_run_unfold(stage, events, timeout_secs, poll_secs);
        lemma_settled_stays_quiet(s, marker, events.drop_first(), timeout_secs, poll_secs);
    }
}

/// Idempotence: a job that finds the snapshot for its marker already present
/// neither stops the node, nor starts an export, nor kills or restarts
/// anything; it rebuilds the manifest, and it ends, if at all, reporting that
/// snapshot as present (or the manifest's failure).
pub proof fn lemma_present_snapshot_is_not_exported(
    marker: u64,
    later: Seq<Event>,
    timeout_secs: u64,
    poll_secs: u64,
)
    ensures
        ({
            let acts = run(
                Stage::CheckingArtifact { marker },
                seq![Event::ArtifactChecked { exists: true }] + later,
                timeout_secs,
                poll_secs,
            );
            &&& acts[0] == Action::RebuildManifest
            &&& exports_started(acts) == 0
            &&& forall|i: int| 0 <= i < acts.len() ==> !touches_node(#[trigger] acts[i])
            &&& forall|i: int|
                0 <= i < acts.len() && (#[trigger] acts[i]) is Finish ==> acts[i]->outcome
                    == Outcome::AlreadyPresent { marker } || acts[i]->outcome is Failed
        }),
{
    let events = seq![Event::ArtifactChecked { exists: true }] + later;
    let stage = Stage::CheckingArtifact { marker };
    assert(events.drop_first() =~= later);
    lemma_run_unfold(stage, events, timeout_secs, poll_secs);
    let s = Stage::Rebuilding { marker, fresh: false };
    lemma_settled_stays_quiet(s, marker, later, timeout_secs, poll_secs);
    lemma_exports_bounded(s, later, timeout_secs, poll_secs);
    let acts = run(stage, events, timeout_secs, poll_secs);
    assert(exports_started(acts) == exports_started(acts.drop_first()));
}

/// Timeout: when the snapshot has not appeared and the export has run for
/// the configured timeout, the process group is killed; once it is reaped the
/// node is restarted and the job fails with the snapshot's marker.
pub proof fn lemma_export_timeout(
    marker: u64,
    elapsed_secs: u64,
    restart_ok: bool,
    timeout_secs: u64,
    poll_secs: u64,
)
    requires
        elapsed_secs >= timeout_secs,
    ensures
        run(
            Stage::Polling { marker },
            seq![
                Event::Polled { exists: false, elapsed_secs },
                Event::GroupKilled,
                Event::RestartIssued { ok: restart_ok },
            ],
            timeout_secs,
            poll_secs,
        ) == seq![
            Action::KillGroup,
            Action::RestartService,
            Action::Finish { outcome: Outcome::Failed { error: JobError::ExportFailed { marker } } },
        ],
{
    let e = seq![
        Event::Polled { exists: false, elapsed_secs },
        Event::GroupKilled,
        Event::RestartIssued { ok: restart_ok },
    ];
    let s1 = Stage::Killing { marker, found: false };
    let s2 = Stage::Restarting { marker, exported: false };
    let s3 = Stage::Done { outcome: Outcome::Failed { error: JobError::ExportFailed { marker } } };
    lemma_run_unfold(Stage::Polling { marker }, e, timeout_secs, poll_secs);
    lemma_run_unfold(s1, e.drop_first(), timeout_secs, poll_secs);
    lemma_run_unfold(s2, e.drop_first().drop_first(), timeout_secs, poll_secs);
    lemma_run_len(s3, e.drop_first().drop_first().drop_first(), timeout_secs, poll_secs);
    assert(run(Stage::Polling { marker }, e, timeout_secs, poll_secs) =~= seq![
        Action::KillGroup,
        Action::RestartService,
        Action::Finish { outcome: Outcome::Failed { error: JobError::ExportFailed { marker } } },
    ]);
}

proof fn lemma_reaped_before_finish(stage: Stage, events: Seq<Event>, timeout_secs: u64, poll_secs: u64)
    requires
        stage is Polling || stage is Killing,
    ensures
        ({
            let acts = run(stage, events, timeout_secs, poll_secs);
            forall|i: int|
                0 <= i < acts.len() && (#[trigger] acts[i]) is Finish ==> exists|j: int|
                    0 <= j < i && (#[trigger] events[j]) is GroupKilled
        }),
    decreases events.len(),
{
    if events.len() > 0 {
        let (s, a) = next(stage, events[0], timeout_secs, poll_secs);
        let acts = run(stage, events, timeout_secs, poll_secs);
        let rest = events.drop_first();
        lemma_run_unfold(stage, events, timeout_secs, poll_secs);
        if s is Polling || s is Killing {
            lemma_reaped_before_finish(s, rest, timeout_secs, poll_secs);
            assert forall|i: int|
                0 <= i < acts.len() && (#[trigger] acts[i]) is Finish implies exists|j: int|
                    0 <= j < i && (#[trigger] events[j]) is GroupKilled by {
                let k = choose|k: int| 0 <= k < i - 1 && (#[trigger] rest[k]) is GroupKilled;
                assert(events[k + 1] == rest[k]);
            }
        } else {
            assert(events[0] is GroupKilled);
        }
    }
}

proof fn lemma_killed_before_finish(marker: u64, events: Seq<Event>, timeout_secs: u64, poll_secs: u64)
    ensures
        ({
            let acts = run(Stage::Polling { marker }, events, timeout_secs, poll_secs);
            forall|i: int|
                0 <= i < acts.len() && (#[trigger] acts[i]) is Finish ==> exists|j: int|
                    0 <= j < i && (#[trigger] acts[j]) is KillGroup
        }),
    decreases events.len(),
{
    let stage = Stage::Polling { marker };
    if events.len() > 0 {
        let (s, a) = next(stage, events[0], timeout_secs, poll_secs);
        let acts = run(stage, events, timeout_secs, poll_secs);
        let rest = events.drop_first();
        lemma_run_unfold(stage, events, timeout_secs, poll_secs);
        if s is Polling {
            lemma_killed_before_finish(marker, rest, timeout_secs, poll_secs);
            let racts = run(s, rest, timeout_secs, poll_secs);
            assert forall|i: int|
                0 <= i < acts.len() && (#[trigger] acts[i]) is Finish implies exists|j: int|
                    0 <= j < i && (#[trigger] acts[j]) is KillGroup by {
                let k = choose|k: int| 0 <= k < i - 1 && (#[trigger] racts[k]) is KillGroup;
                assert(acts[k + 1] == racts[k]);
            }
        } else {
            assert(acts[0] is KillGroup);
        }
    }
}

/// No leaked export process: once the export runs, the job ends only after it
/// has asked for the process group to be killed and has been told that the
/// group was reaped.
pub proof fn lemma_export_reaped_before_finish(
    marker: u64,
    events: Seq<Event>,
    timeout_secs: u64,
    poll_secs: u64,
)
    ensures
        ({
            let acts = run(Stage::Polling { marker }, events, timeout_secs, poll_secs);
            forall|i: int|
                0 <= i < acts.len() && (#[trigger] acts[i]) is Finish ==> (exists|j: int|
                    0 <= j < i && (#[trigger] acts[j]) is KillGroup) && (exists|j: int|
                    0 <= j < i && (#[trigger] events[j]) is GroupKilled)
        }),
{
    lemma_killed_before_finish(marker, events, timeout_secs, poll_secs);
    lemma_reaped_before_finish(Stage::Polling { marker }, events, timeout_secs, poll_secs);
}

} // verus!
