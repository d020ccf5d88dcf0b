use jammer::job::{authorized, JobState, SubmitOutcome};
use jammer::log::JobLog;
use jammer::pipeline::{Action, Event, JobError, Outcome, TipReply};
use jammer::config::JammerConfig;

fn config() -> JammerConfig {
    JammerConfig {
        html_root: "/srv/html".to_string(),
        jams_dir: "/srv/html/jams".to_string(),
        manifest_path: "/srv/html/jams/SHA256SUMS".to_string(),
        nockchain_rpc: "localhost:5556".to_string(),
        nockchain_bin: "/usr/bin/nockchain".to_string(),
        nockchain_dir: "/var/nockchain".to_string(),
        checkpoints_dir: "/var/nockchain/.data.nockchain/checkpoints".to_string(),
        export_flag: "--export-state-jam".to_string(),
        nockchain_user: None,
        nockchain_service: "nockchain".to_string(),
        export_timeout_secs: 900,
        poll_secs: 5,
    }
}

#[test]
fn second_submit_in_running_window_is_rejected() {
    let mut state = JobState::new();
    let first = state.submit(100);
    let second = state.submit(101);
    assert_eq!(first, SubmitOutcome::Accepted);
    assert_eq!(first.status_code(), 202);
    assert!(first.success());
    assert_eq!(first.message(), "job started");
    assert_eq!(second, SubmitOutcome::AlreadyRunning);
    assert_eq!(second.status_code(), 409);
    assert!(!second.success());
    assert_eq!(second.message(), "a job is already running");
}

#[test]
fn only_first_of_many_submits_is_accepted() {
    let mut state = JobState::new();
    let outcomes: Vec<SubmitOutcome> = (0..10u64).map(|t| state.submit(t)).collect();
    assert_eq!(outcomes[0], SubmitOutcome::Accepted);
    assert!(outcomes[1..].iter().all(|o| *o == SubmitOutcome::AlreadyRunning));
    state.finish(Outcome::Exported { marker: 1 }, "", 20, 0);
    assert_eq!(state.submit(30), SubmitOutcome::Accepted);
    assert_eq!(state.submit(31), SubmitOutcome::AlreadyRunning);
}

#[test]
fn wrong_key_is_unauthorized_and_changes_nothing() {
    let mut state = JobState::new();
    let r = state.submit_with_key("nope", "SECRET-REDACTED", 5);
    assert_eq!(r, SubmitOutcome::Unauthorized);
    assert_eq!(r.status_code(), 401);
    assert_eq!(r.message(), "unauthorized");
    assert!(!state.status(6, 0).running);
    assert_eq!(state.submit_with_key("", "key", 5), SubmitOutcome::Unauthorized);
    assert_eq!(state.submit_with_key("key", "key", 5), SubmitOutcome::Accepted);
    assert!(authorized("k", "k"));
    assert!(!authorized("k", "K"));
    assert!(!authorized("k", "kk"));
}

#[test]
fn status_reports_live_log_then_frozen_output() {
    let mut state = JobState::new();
    let idle = state.status(0, 3);
    assert!(!idle.running);
    assert_eq!(idle.running_for_secs, None);
    assert_eq!(idle.snapshot_count, 3);
    assert_eq!(idle.last_output, None);
    assert_eq!(idle.last_success, None);
    assert_eq!(idle.last_completed, None);

    state.submit(100);
    let mut run = config().new_run();
    let action = state.advance(&mut run, Event::TipResolved { reply: TipReply::Height { height: 42 } });
    assert_eq!(action, Action::CheckArtifact { marker: 42 });
    let live = state.status(107, 0);
    assert!(live.running);
    assert_eq!(live.running_for_secs, Some(7));
    assert_eq!(
        live.last_output.as_deref(),
        Some("[make-jam] starting jam creation\n[jammer] Tip block: 42\n")
    );

    state.finish(Outcome::Failed { error: JobError::RemoteUnavailable }, "Empty gRPC response", 112, 1704067200);
    let done = state.status(200, 1);
    assert!(!done.running);
    assert_eq!(done.running_for_secs, None);
    assert_eq!(done.last_success, Some(false));
    assert_eq!(done.last_completed.as_deref(), Some("2024-01-01T00:00:00Z"));
    assert_eq!(
        done.last_output.as_deref(),
        Some("[make-jam] starting jam creation\n[jammer] Tip block: 42\n[make-jam] failed in 12s: Failed to get tip block: Empty gRPC response\n")
    );
}

#[test]
fn finish_stamps_utc_time() {
    let mut state = JobState::new();
    state.submit(0);
    state.finish(Outcome::AlreadyPresent { marker: 8 }, "", 0, 1_000_000_000);
    let s = state.status(0, 0);
    assert_eq!(s.last_completed.as_deref(), Some("2001-09-09T01:46:40Z"));
    assert_eq!(s.last_success, Some(true));
    assert_eq!(s.last_output.as_deref(), Some("[make-jam] starting jam creation\n[make-jam] completed in 0s: Jam for block 8 already exists\n"));
}

#[test]
fn finish_without_running_job_changes_nothing() {
    let mut state = JobState::new();
    state.finish(Outcome::Exported { marker: 1 }, "", 10, 10);
    let s = state.status(10, 0);
    assert_eq!(s.last_success, None);
    assert_eq!(s.last_completed, None);
}

#[test]
fn running_time_never_negative() {
    let mut state = JobState::new();
    state.submit(50);
    assert_eq!(state.status(40, 0).running_for_secs, Some(0));
}

#[test]
fn job_log_append_snapshot_take() {
    let mut log = JobLog::new();
    assert_eq!(log.snapshot(), "");
    log.append("one");
    log.append("two");
    assert_eq!(log.snapshot(), "one\ntwo\n");
    assert_eq!(log.take(), "one\ntwo\n");
    assert_eq!(log.snapshot(), "");
    assert_eq!(log.take(), "");
}

#[test]
fn record_appends_only_while_running() {
    let mut state = JobState::new();
    state.record("ignored");
    assert_eq!(state.status(0, 0).last_output, None);
    state.submit(0);
    state.record("[jammer] detail");
    assert_eq!(
        state.status(0, 0).last_output.as_deref(),
        Some("[make-jam] starting jam creation\n[jammer] detail\n")
    );
}

#[test]
fn finish_line_names_failure_once() {
    let mut state = JobState::new();
    state.submit(0);
    state.finish(Outcome::Failed { error: JobError::ZeroTip }, "Tip block is 0", 3, 0);
    assert_eq!(
        state.status(5, 0).last_output.as_deref(),
        Some("[make-jam] starting jam creation\n[make-jam] failed in 3s: Tip block is 0\n")
    );
    state.submit(10);
    state.finish(
        Outcome::Failed { error: JobError::ExportFailed { marker: 9 } },
        "/srv/jams/9.jam did not appear",
        20,
        0,
    );
    assert_eq!(
        state.status(25, 0).last_output.as_deref(),
        Some("[make-jam] starting jam creation\n[make-jam] failed in 10s: Export failed: /srv/jams/9.jam did not appear\n")
    );
}

#[test]
fn every_keyed_submit_after_the_first_is_rejected() {
    let mut state = JobState::new();
    let outcomes: Vec<SubmitOutcome> =
        (0..5u64).map(|t| state.submit_with_key("k", "k", t)).collect();
    assert_eq!(outcomes[0], SubmitOutcome::Accepted);
    assert!(outcomes[1..].iter().all(|o| *o == SubmitOutcome::AlreadyRunning));
}
