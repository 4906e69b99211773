//! The parser's view of the machine: running a back-tick sub-command and
//! testing whether a file exists. Both answers depend on the outside world,
//! so the trait promises nothing about them; the parser's contracts state
//! what holds whatever the answers are. A deterministic table-driven
//! implementation is provided for tests and replays.

use vstd::prelude::*;
use crate::text::{chars_of_str, eq_chars};

verus! {

/// What the parser needs from its surroundings while replaying a trace.
pub trait BuildEnv {
    /// Run a back-tick sub-command and yield its captured standard output,
    /// or nothing when it cannot be run or fails.
    fn run_capture(&mut self, cmd: &str) -> Option<String>;

    /// Whether `path` names an existing file on disk.
    fn path_exists(&mut self, path: &str) -> bool;
}

/// A deterministic environment built from fixed tables: sub-command outputs
/// looked up by command text, and an explicit list of existing paths.
pub struct FixedEnv {
    /// Pairs of (sub-command, its captured output).
    pub outputs: Vec<(String, String)>,
    /// The paths that exist.
    pub existing: Vec<String>,
}

impl FixedEnv {
    /// An environment in which no sub-command runs and no path exists.
    pub fn empty() -> (r: FixedEnv)
        ensures
            r.outputs@.len() == 0,
            r.existing@.len() == 0,
    {
        FixedEnv { outputs: Vec::new(), existing: Vec::new() }
    }
}

impl BuildEnv for FixedEnv {
    fn run_capture(&mut self, cmd: &str) -> Option<String> {
        let c = chars_of_str(cmd);
        let n = self.outputs.len();
        let mut i: usize = 0;
        while i < n
            invariant
                0 <= i <= n,
                n == self.outputs@.len(),
            decreases n - i,
        {
            let k = chars_of_str(self.outputs[i].0.as_str());
            if eq_chars(&k, &c) {
                return Some(self.outputs[i].1.clone());
            }
            i = i + 1;
        }
        None
    }

    fn path_exists(&mut self, path: &str) -> bool {
        let c = chars_of_str(path);
        let n = self.existing.len();
        let mut i: usize = 0;
        while i < n
            invariant
                0 <= i <= n,
                n == self.existing@.len(),
            decreases n - i,
        {
            let k = chars_of_str(self.existing[i].as_str());
            if eq_chars(&k, &c) {
                return true;
            }
            i = i + 1;
        }
        false
    }
}

/// Relies on which::which: resolves an executable name against the runtime's
/// search path. The answer depends on the machine, so nothing is claimed of
/// it.
#[verifier::external_body]
pub fn which_lookup(name: &str) -> (r: Option<String>) {
    match which::which(name) {
        Ok(p) => Some(p.to_string_lossy().into_owned()),
        Err(_) => None,
    }
}

} // verus!
