//! Snapshot export settings.
//!
//! Snapshot writing itself is an external sink; the library only resolves
//! the raw optional settings into concrete ones, defaulting each interval to
//! the full phase length so that at most one snapshot per phase is taken.

use vstd::prelude::*;

verus! {

/// Raw snapshot settings as a configuration file gives them.
#[derive(Clone, Debug)]
pub struct Snapshots {
    pub snapshot_equil_interval: Option<usize>,
    pub snapshot_steps_interval: Option<usize>,
    pub snapshot_compression: Option<usize>,
    pub snapshot_dir: Option<String>,
}

/// Resolved snapshot settings.
#[derive(Clone, Debug)]
pub struct ParsedSnapshots {
    pub snapshot_equil_interval: usize,
    pub snapshot_steps_interval: usize,
    pub snapshot_compression: usize,
    pub snapshot_dir: String,
}

impl Snapshots {
    /// Resolves the optional settings: missing intervals default to the
    /// phase lengths, the compression level to zero, and the directory to
    /// `snapshots`.
    pub fn parse(&self, n_equil: usize, n_steps: usize) -> (p: ParsedSnapshots)
        ensures
            p.snapshot_equil_interval == (match self.snapshot_equil_interval {
                Some(v) => v,
                None => n_equil,
            }),
            p.snapshot_steps_interval == (match self.snapshot_steps_interval {
                Some(v) => v,
                None => n_steps,
            }),
            p.snapshot_compression == (match self.snapshot_compression {
                Some(v) => v,
                None => 0usize,
            }),
            p.snapshot_dir@ == (match self.snapshot_dir {
                Some(d) => d@,
                None => "snapshots"@,
            }),
    {
        let equil_interval = match self.snapshot_equil_interval {
            Some(v) => v,
            None => n_equil,
        };
        let steps_interval = match self.snapshot_steps_interval {
            Some(v) => v,
            None => n_steps,
        };
        let compression = match self.snapshot_compression {
            Some(v) => v,
            None => 0,
        };
        let dir = match &self.snapshot_dir {
            Some(d) => d.as_str().to_owned(),
            None => "snapshots".to_owned(),
        };
        ParsedSnapshots {
            snapshot_equil_interval: equil_interval,
            snapshot_steps_interval: steps_interval,
            snapshot_compression: compression,
            snapshot_dir: dir,
        }
    }
}

} // verus!
