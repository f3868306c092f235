use vstd::prelude::*;
use crate::version::{Triple, all_versions, is_max_of, detect_version};

verus! {

/// The version last installed and activated, so that an unchanged version is not
/// installed again on the next compile.
pub struct ToolchainMemo {
    pub last: Option<Triple>,
}

impl ToolchainMemo {
    /// A memo that has seen no alignment yet.
    pub fn new() -> (r: ToolchainMemo)
        ensures
            r.last is None,
    {
        ToolchainMemo { last: None }
    }

    /// Whether `wanted` must be installed and activated: it differs from the last
    /// version that was.
    pub fn needs_alignment(&self, wanted: Triple) -> (r: bool)
        ensures
            r == (self.last != Some(wanted)),
    {
        match self.last {
            Some(v) => !(v.0 == wanted.0 && v.1 == wanted.1 && v.2 == wanted.2),
            None => true,
        }
    }

    /// The version to install and activate before compiling `sources` (the texts of
    /// the source files): the one they ask for, unless none is asked for or it is
    /// the one aligned last.
    pub fn plan(&self, sources: &Vec<String>) -> (r: Option<Triple>)
        ensures
            ({
                let declared = all_versions(sources@.map_values(|s: String| s@));
                match r {
                    Some(v) => is_max_of(v, declared) && self.last != Some(v),
                    None => declared.len() == 0 || (self.last matches Some(w) && is_max_of(w, declared)),
                }
            }),
    {
        match detect_version(sources) {
            Some(v) => {
                if self.needs_alignment(v) {
                    Some(v)
                } else {
                    None
                }
            },
            None => None,
        }
    }

    /// Records the outcome of installing `version`: the memo moves to it only when
    /// the install succeeded.
    pub fn record(&mut self, version: Triple, installed: bool)
        ensures
            final(self).last == (if installed { Some(version) } else { old(self).last }),
    {
        if installed {
            self.last = Some(version);
        }
    }
}

} // verus!
