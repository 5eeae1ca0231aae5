//! The walker's configuration: where its file lives and what layout
//! its one setting yields. Reading and deserialising the file is the
//! caller's part.

use vstd::prelude::*;
use vstd::string::StringExecFns;

verus! {

/// The walker's configuration: the percentage of the screen given to
/// the assembly pane, if set.
#[derive(Debug, Clone)]
pub struct WalkConfig {
    pub asm_precent: Option<u32>,
}

impl Default for WalkConfig {
    /// The default configuration leaves the percentage unset.
    fn default() -> (r: WalkConfig)
        ensures
            r.asm_precent is None,
    {
        WalkConfig { asm_precent: None }
    }
}

/// A pane split as two ratios of one hundred.
#[derive(Clone, Copy, Debug, PartialEq, Eq, Structural)]
pub struct LayoutSplit {
    pub left: u32,
    pub right: u32,
}

impl WalkConfig {
    /// The two pane ratios: the set percentage (53 when unset) for the
    /// assembly pane and the rest for the source pane. A percentage
    /// over one hundred is an error.
    pub fn get_layout(&self) -> (r: Result<LayoutSplit, String>)
        ensures
            match self.asm_precent {
                Some(p) => {
                    &&& (p <= 100 <==> r is Ok)
                    &&& (r matches Ok(l) ==> l.left == 100 - p && l.right == p)
                },
                None => r matches Ok(l) && l.left == 47 && l.right == 53,
            },
    {
        let p: u32 = match self.asm_precent {
            Some(p) => p,
            None => 53,
        };
        if p > 100 {
            return Err(String::from_str("asm_percent must be at most 100"));
        }
        Ok(LayoutSplit { left: 100 - p, right: p })
    }
}

/// Relies on directories::ProjectDirs: the preference directory of
/// this tool on the running machine, if the platform yields one. The
/// result depends on the environment.
#[verifier::external_body]
fn preference_dir() -> Option<String> {
    directories::ProjectDirs::from("", "", "source-viewer").map(
        |proj| proj.preference_dir().to_string_lossy().into_owned(),
    )
}

/// Where the walker's configuration file lives: the preference
/// directory, when the platform yields one, with the fixed file name
/// appended.
pub fn get_walk_config_path() -> (r: Option<String>)
    ensures
        r matches Some(p) ==> exists|d: Seq<char>| p@ == d + "/walk-config.toml"@,
{
    match preference_dir() {
        Some(dir) => {
            let ghost d = dir@;
            let mut full = dir;
            full.append("/walk-config.toml");
            proof {
                assert(full@ == d + "/walk-config.toml"@);
            }
            Some(full)
        },
        None => None,
    }
}

} // verus!
