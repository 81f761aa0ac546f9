//! Configuration of the isolated mount namespace.
use vstd::prelude::*;

verus! {

/// Configuration for isolated mount namespaces.
#[derive(Debug, Clone)]
pub struct MountConfig {
    /// Ephemeral tmpfs root directory path.
    pub tmpfs_path: String,
    /// Whether to mount a sterile /proc inside the isolated PID namespace.
    pub mount_sterile_proc: bool,
}

impl Default for MountConfig {
    /// The ephemeral tmpfs at `/tmp/dry_exec_ephemeral`, with a sterile `/proc`.
    fn default() -> (r: Self)
        ensures
            r.tmpfs_path@ == "/tmp/dry_exec_ephemeral"@,
            r.mount_sterile_proc,
    {
        MountConfig { tmpfs_path: String::from_str("/tmp/dry_exec_ephemeral"), mount_sterile_proc: true }
    }
}

} // verus!
