//! Well-known file locations inside the per-user data directory.
use vstd::prelude::*;
use vstd::string::StringExecFns;

verus! {

/// The agent's file layout, rooted at a resolved per-user data directory.
/// Resolving the directory itself (and creating it) is left to the caller.
#[derive(Clone)]
pub struct Paths {
    pub data_dir: String,
}

impl Paths {
    /// Builds the path table for an already-resolved data directory.
    pub fn new(data_dir: String) -> (r: Paths)
        ensures
            r.data_dir@ == data_dir@,
    {
        Paths { data_dir }
    }

    /// The single-file event queue database.
    pub fn queue_db(&self) -> (r: String)
        ensures
            r@ == self.data_dir@ + "/queue.sqlite"@,
    {
        let mut s = self.data_dir.clone();
        s.append("/queue.sqlite");
        s
    }

    /// The persisted device state.
    pub fn state_file(&self) -> (r: String)
        ensures
            r@ == self.data_dir@ + "/agent_state.json"@,
    {
        let mut s = self.data_dir.clone();
        s.append("/agent_state.json");
        s
    }

    /// The 32-byte symmetric key blob.
    pub fn key_file(&self) -> (r: String)
        ensures
            r@ == self.data_dir@ + "/key.bin"@,
    {
        let mut s = self.data_dir.clone();
        s.append("/key.bin");
        s
    }

    /// The directory that receives the rotating log files.
    pub fn logs_dir(&self) -> (r: String)
        ensures
            r@ == self.data_dir@ + "/logs"@,
    {
        let mut s = self.data_dir.clone();
        s.append("/logs");
        s
    }

    /// The bearer token and HMAC salt, stored with owner-only permissions.
    pub fn secrets_file(&self) -> (r: String)
        ensures
            r@ == self.data_dir@ + "/agent_secrets.json"@,
    {
        let mut s = self.data_dir.clone();
        s.append("/agent_secrets.json");
        s
    }

    /// The last applied policy object.
    pub fn policy_file(&self) -> (r: String)
        ensures
            r@ == self.data_dir@ + "/policy.json"@,
    {
        let mut s = self.data_dir.clone();
        s.append("/policy.json");
        s
    }

    /// The ETag that validated the stored policy.
    pub fn policy_meta_file(&self) -> (r: String)
        ensures
            r@ == self.data_dir@ + "/policy_meta.json"@,
    {
        let mut s = self.data_dir.clone();
        s.append("/policy_meta.json");
        s
    }
}

} // verus!
