use jammer::log::JobLog;
use jammer::manifest::ManifestError;
use jammer::pipeline::{artifact_name, artifact_path, outcome_text, resolve_tip, tip_detail, Action, Event, JobError, JobRun, Outcome, Stage, TipReply};
use jammer::text::decimal_string;

fn drive(run: &mut JobRun, log: &mut JobLog, events: Vec<Event>) -> Vec<Action> {
    events.into_iter().map(|e| run.step(e, log)).collect()
}

fn is_node_action(a: &Action) -> bool {
    matches!(a, Action::StopService | Action::SpawnExport { .. } | Action::KillGroup | Action::RestartService)
}

#[test]
fn fresh_export_runs_every_stage_in_order() {
    let mut run = JobRun::new(900, 5, "/srv/jams", "/srv/jams/SHA256SUMS");
    let mut log = JobLog::new();
    let acts = drive(
        &mut run,
        &mut log,
        vec![
            Event::TipResolved { reply: TipReply::Height { height: 12345 } },
            Event::ArtifactChecked { exists: false },
            Event::ServiceStopped { ok: true },
            Event::ExportSpawned { ok: true },
            Event::Polled { exists: false, elapsed_secs: 5 },
            Event::Polled { exists: true, elapsed_secs: 10 },
            Event::GroupKilled,
            Event::RestartIssued { ok: true },
            Event::ManifestRebuilt { result: Ok(3) },
        ],
    );
    assert_eq!(
        acts,
        vec![
            Action::CheckArtifact { marker: 12345 },
            Action::StopService,
            Action::SpawnExport { marker: 12345 },
            Action::WaitThenPoll { secs: 5 },
            Action::WaitThenPoll { secs: 5 },
            Action::KillGroup,
            Action::RestartService,
            Action::RebuildManifest,
            Action::Finish { outcome: Outcome::Exported { marker: 12345 } },
        ]
    );
    assert_eq!(run.stage, Stage::Done { outcome: Outcome::Exported { marker: 12345 } });
    let text = log.snapshot();
    assert!(text.starts_with("[jammer] Tip block: 12345\n"));
    assert!(text.contains("[jammer] Exporting to: /srv/jams/12345.jam\n"));
    assert!(text.ends_with("[jammer] Manifest written: /srv/jams/SHA256SUMS (3 files)\n"));
}

#[test]
fn existing_artifact_skips_export_and_rebuilds_manifest() {
    for _ in 0..2 {
        let mut run = JobRun::new(900, 5, "/srv/jams", "/srv/jams/SHA256SUMS");
        let mut log = JobLog::new();
        let acts = drive(
            &mut run,
            &mut log,
            vec![
                Event::TipResolved { reply: TipReply::Height { height: 7 } },
                Event::ArtifactChecked { exists: true },
                Event::ManifestRebuilt { result: Ok(2) },
            ],
        );
        assert_eq!(
            acts,
            vec![
                Action::CheckArtifact { marker: 7 },
                Action::RebuildManifest,
                Action::Finish { outcome: Outcome::AlreadyPresent { marker: 7 } },
            ]
        );
        assert!(!acts.iter().any(is_node_action));
        assert_eq!(
            log.snapshot(),
            "[jammer] Tip block: 7\n[jammer] Jam already exists: /srv/jams/7.jam (skipping)\n[jammer] Manifest written: /srv/jams/SHA256SUMS (2 files)\n"
        );
    }
}

#[test]
fn export_times_out_and_kills_group() {
    let mut run = JobRun::new(30, 10, "/srv/jams/", "/srv/jams/SHA256SUMS");
    let mut log = JobLog::new();
    let acts = drive(
        &mut run,
        &mut log,
        vec![
            Event::TipResolved { reply: TipReply::Height { height: 9 } },
            Event::ArtifactChecked { exists: false },
            Event::ServiceStopped { ok: true },
            Event::ExportSpawned { ok: true },
            Event::Polled { exists: false, elapsed_secs: 10 },
            Event::Polled { exists: false, elapsed_secs: 20 },
            Event::Polled { exists: false, elapsed_secs: 30 },
            Event::GroupKilled,
            Event::RestartIssued { ok: false },
        ],
    );
    assert_eq!(acts[4], Action::WaitThenPoll { secs: 10 });
    assert_eq!(acts[5], Action::WaitThenPoll { secs: 10 });
    assert_eq!(acts[6], Action::KillGroup);
    assert_eq!(acts[7], Action::RestartService);
    assert_eq!(
        acts[8],
        Action::Finish { outcome: Outcome::Failed { error: JobError::ExportFailed { marker: 9 } } }
    );
    assert_eq!(run.detail, "/srv/jams/9.jam did not appear");
    assert!(log.snapshot().contains("Timed out after 30s waiting for /srv/jams/9.jam\n"));
    assert!(log.snapshot().contains("restart failed (continuing)"));
}

#[test]
fn finish_waits_for_group_to_be_reaped() {
    let mut run = JobRun::new(30, 10, "/srv/jams/", "/srv/jams/SHA256SUMS");
    let mut log = JobLog::new();
    run.stage = Stage::Polling { marker: 4 };
    assert_eq!(run.step(Event::Polled { exists: true, elapsed_secs: 3 }, &mut log), Action::KillGroup);
    assert_eq!(run.step(Event::RestartIssued { ok: true }, &mut log), Action::Idle);
    assert_eq!(run.step(Event::ManifestRebuilt { result: Ok(1) }, &mut log), Action::Idle);
    assert_eq!(run.stage, Stage::Killing { marker: 4, found: true });
    assert_eq!(run.step(Event::GroupKilled, &mut log), Action::RestartService);
}

#[test]
fn restart_failure_does_not_fail_job() {
    let mut run = JobRun::new(30, 10, "/srv/jams/", "/srv/jams/SHA256SUMS");
    let mut log = JobLog::new();
    run.stage = Stage::Restarting { marker: 4, exported: true };
    assert_eq!(run.step(Event::RestartIssued { ok: false }, &mut log), Action::RebuildManifest);
    assert_eq!(
        run.step(Event::ManifestRebuilt { result: Ok(2) }, &mut log),
        Action::Finish { outcome: Outcome::Exported { marker: 4 } }
    );
}

#[test]
fn stop_or_spawn_failure_restarts_and_fails() {
    let mut run = JobRun::new(30, 10, "/srv/jams/", "/srv/jams/SHA256SUMS");
    let mut log = JobLog::new();
    run.stage = Stage::StoppingService { marker: 3 };
    assert_eq!(run.step(Event::ServiceStopped { ok: false }, &mut log), Action::RestartService);
    assert_eq!(
        run.step(Event::RestartIssued { ok: true }, &mut log),
        Action::Finish { outcome: Outcome::Failed { error: JobError::ExportFailed { marker: 3 } } }
    );
    let mut run = JobRun::new(30, 10, "/srv/jams/", "/srv/jams/SHA256SUMS");
    run.stage = Stage::Spawning { marker: 3 };
    assert_eq!(run.step(Event::ExportSpawned { ok: false }, &mut log), Action::RestartService);
}

#[test]
fn tip_failures_end_the_job_before_any_side_effect() {
    let cases = vec![
        (TipReply::Height { height: 0 }, JobError::ZeroTip, "Tip block is 0"),
        (TipReply::Refused { code: -3, message: "bad".to_string() }, JobError::RemoteUnavailable, "gRPC error (code -3): bad"),
        (TipReply::Empty, JobError::RemoteUnavailable, "Empty gRPC response"),
        (TipReply::Unreachable { reason: "refused".to_string() }, JobError::RemoteUnavailable, "refused"),
    ];
    for (reply, err, text) in cases {
        let reply_copy = match &reply {
            TipReply::Height { height } => TipReply::Height { height: *height },
            TipReply::Refused { code, message } => TipReply::Refused { code: *code, message: message.clone() },
            TipReply::Empty => TipReply::Empty,
            TipReply::Unreachable { reason } => TipReply::Unreachable { reason: reason.clone() },
        };
        assert_eq!(resolve_tip(&reply), Err(err));
        let mut run = JobRun::new(30, 10, "/srv/jams/", "/srv/jams/SHA256SUMS");
        let mut log = JobLog::new();
        let a = run.step(Event::TipResolved { reply }, &mut log);
        assert_eq!(a, Action::Finish { outcome: Outcome::Failed { error: err } });
        assert!(!a_is_success(&a));
        assert_eq!(log.snapshot(), "");
        assert_eq!(run.detail, text);
        assert_eq!(tip_detail(&reply_copy), text);
    }
    assert_eq!(resolve_tip(&TipReply::Height { height: 5 }), Ok(5));
}

fn a_is_success(a: &Action) -> bool {
    match a {
        Action::Finish { outcome } => outcome.is_success(),
        _ => false,
    }
}

#[test]
fn manifest_failures_fail_the_job() {
    let mut log = JobLog::new();
    let mut run = JobRun::new(30, 10, "/srv/jams/", "/srv/jams/SHA256SUMS");
    run.stage = Stage::Rebuilding { marker: 1, fresh: true };
    assert_eq!(
        run.step(Event::ManifestRebuilt { result: Err(ManifestError::NoFilesFound) }, &mut log),
        Action::Finish { outcome: Outcome::Failed { error: JobError::ManifestEmpty } }
    );
    let mut run = JobRun::new(30, 10, "/srv/jams/", "/srv/jams/SHA256SUMS");
    run.stage = Stage::Rebuilding { marker: 1, fresh: false };
    assert_eq!(
        run.step(Event::ManifestRebuilt { result: Err(ManifestError::Io) }, &mut log),
        Action::Finish { outcome: Outcome::Failed { error: JobError::ManifestIo } }
    );
    assert_eq!(run.step(Event::GroupKilled, &mut log), Action::Idle);
}

#[test]
fn stray_event_changes_nothing() {
    let mut run = JobRun::new(30, 10, "/srv/jams/", "/srv/jams/SHA256SUMS");
    let mut log = JobLog::new();
    assert_eq!(run.step(Event::GroupKilled, &mut log), Action::Idle);
    assert_eq!(run.stage, Stage::ResolvingTip);
    assert_eq!(log.snapshot(), "");
}

#[test]
fn artifact_names_are_decimal() {
    assert_eq!(artifact_name(12345), "12345.jam");
    assert_eq!(artifact_name(0), "0.jam");
    assert_eq!(decimal_string(u64::MAX), "18446744073709551615");
    assert_eq!(decimal_string(10), "10");
}

#[test]
fn restart_failure_is_logged() {
    let mut run = JobRun::new(30, 10, "/j", "/srv/jams/SHA256SUMS");
    let mut log = JobLog::new();
    run.stage = Stage::Restarting { marker: 4, exported: true };
    run.step(Event::RestartIssued { ok: false }, &mut log);
    assert_eq!(
        log.snapshot(),
        "[jammer] Node service restart failed (continuing)\n[jammer] Rebuilding manifest\n"
    );
}

#[test]
fn outcome_texts_and_paths() {
    assert_eq!(outcome_text(&Outcome::Exported { marker: 5 }), "Exported jam for block 5");
    assert_eq!(outcome_text(&Outcome::AlreadyPresent { marker: 5 }), "Jam for block 5 already exists");
    assert_eq!(
        outcome_text(&Outcome::Failed { error: JobError::ExportFailed { marker: 5 } }),
        "Export failed"
    );
    assert_eq!(outcome_text(&Outcome::Failed { error: JobError::ZeroTip }), "Tip block is 0");
    assert_eq!(outcome_text(&Outcome::Failed { error: JobError::ManifestEmpty }), "No files found to hash");
    assert_eq!(artifact_path("/a/b", 12), "/a/b/12.jam");
    assert_eq!(artifact_path("/a/b/", 12), "/a/b/12.jam");
}
