//! Where the job finds the node and publishes its files.
use vstd::prelude::*;

use crate::pipeline::{artifact_path, artifact_path_of, JobRun, Stage};

verus! {

/// How long an export may run before it is given up: fifteen minutes.
pub const DEFAULT_EXPORT_TIMEOUT_SECS: u64 = 900;

/// How long to sleep between two checks for the snapshot file.
pub const DEFAULT_POLL_SECS: u64 = 5;

/// The settings of the snapshot job. Paths are absolute.
pub struct JammerConfig {
    /// The web root; manifest lines name files relative to it.
    pub html_root: String,
    /// Where snapshot files are published.
    pub jams_dir: String,
    pub manifest_path: String,
    /// The node's RPC endpoint, `host:port`.
    pub nockchain_rpc: String,
    /// The node executable, which also performs the export.
    pub nockchain_bin: String,
    /// The node's data directory, where the export runs.
    pub nockchain_dir: String,
    pub checkpoints_dir: String,
    /// The option that precedes the target path when the node executable is
    /// run to export its state.
    pub export_flag: String,
    /// The user that the export runs as, if not the current one.
    pub nockchain_user: Option<String>,
    /// The name of the node's service.
    pub nockchain_service: String,
    pub export_timeout_secs: u64,
    pub poll_secs: u64,
}

impl JammerConfig {
    /// The path of the snapshot taken at `marker`, in the artifacts directory.
    pub fn artifact_path(&self, marker: u64) -> (r: String)
        ensures
            r@ == artifact_path_of(self.jams_dir@, marker as nat),
    {
        artifact_path(self.jams_dir.as_str(), marker)
    }

    /// The sibling path that a new manifest is written to before it is
    /// renamed over the manifest.
    pub fn manifest_temp_path(&self) -> (r: String)
        ensures
            r@ == self.manifest_path@ + seq!['.', 't', 'm', 'p'],
    {
        let mut p = String::from_str(self.manifest_path.as_str());
        proof {
            reveal_strlit(".tmp");
        }
        p.append(".tmp");
        assert(p@ =~= self.manifest_path@ + seq!['.', 't', 'm', 'p']);
        p
    }

    /// A new job under these settings.
    pub fn new_run(&self) -> (r: JobRun)
        ensures
            r.stage == Stage::ResolvingTip,
            r.timeout_secs == self.export_timeout_secs,
            r.poll_secs == self.poll_secs,
            r.jams_dir@ == self.jams_dir@,
            r.manifest_path@ == self.manifest_path@,
            r.detail@ == Seq::<char>::empty(),
    {
        JobRun::new(
            self.export_timeout_secs,
            self.poll_secs,
            self.jams_dir.as_str(),
            self.manifest_path.as_str(),
        )
    }
}

} // verus!
