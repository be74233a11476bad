//! An action execution engine for linting and formatting tools.
//!
//! Given a set of input files and a collection of configured actions
//! (invocations of external formatter/linter/checker commands), this library
//! resolves named input sets on demand, expands command templates against
//! those inputs, schedules the resulting subprocess invocations in a
//! parallel phase followed by a sequential phase, classifies each action's
//! outcome and streams progress updates to a reporter.
//!
//! The library holds the data structures and decision logic; the actual
//! subprocess spawning, channel plumbing and terminal output live in the
//! surrounding application, which drives the state machines defined here.

use vstd::prelude::*;

pub mod actions;
pub mod args;
pub mod builtins;
pub mod cache;
pub mod config;
pub mod filters;
pub mod ids;
pub mod reporter;
pub mod runner;
pub mod scheduler;
pub mod strutil;
pub mod vcs;

verus! {

/// How the files to process are selected for a run.
#[derive(Clone, Debug)]
pub struct VcsInput {
    /// The version control tool to use (or `None` for auto-detect).
    pub tool: Option<String>,
    /// The revision to start the comparison from (or `None` for the default).
    pub from_revision: Option<String>,
    /// The revision to stop the comparison at (or `None` for the default).
    pub to_revision: Option<String>,
}

impl Default for VcsInput {
    fn default() -> (r: Self)
        ensures
            r.tool is None,
            r.from_revision is None,
            r.to_revision is None,
    {
        VcsInput { tool: None, from_revision: None, to_revision: None }
    }
}

/// Where the files to process come from.
#[derive(Clone, Debug)]
pub enum InputFiles {
    /// Files changed according to a version control system.
    Vcs(VcsInput),
    /// An explicit list of files.
    FileList(Vec<String>),
    /// All files below a directory.
    AllFiles(String),
}

impl Default for InputFiles {
    fn default() -> (r: Self)
        ensures
            r matches InputFiles::Vcs(v) && v.tool is None && v.from_revision is None
                && v.to_revision is None,
    {
        InputFiles::Vcs(VcsInput { tool: None, from_revision: None, to_revision: None })
    }
}

/// The resolved inputs of one run: where it happens and what it works on.
#[derive(Clone, Debug)]
pub struct ExecutionContext {
    /// The root directory of the run; subprocesses run with it as their
    /// working directory and filter patterns match relative to it.
    pub root_directory: String,
    /// Extra environment entries injected into every subprocess.
    pub extra_environment: Vec<(String, String)>,
    /// The files the run works on.
    pub files_to_process: Vec<String>,
}

/// A sink for the progress of one run: for each action a `report_start`,
/// then exactly one `report_done`; `finish` once, after the stream closes.
/// Implemented by terminal renderers, stream writers and test spies.
pub trait Reporter {
    fn report_start(&mut self, action_id: String);

    fn report_done(&mut self, action_id: String, result: actions::ActionResult);

    fn finish(&mut self);
}

/// Turn the command line's input selection into the run's file source: a
/// version control query, an explicit file list, or a directory walk, in
/// that order of precedence. With none given, the selection is rejected.
pub fn generate_input_files(
    vcs: &Option<Option<String>>,
    from_revision: &Option<String>,
    to_revision: &Option<String>,
    files: &Option<Vec<String>>,
    directory: &Option<String>,
) -> (r: Result<InputFiles, String>)
    ensures
        match vcs {
            Some(tool) => r matches Ok(InputFiles::Vcs(v)) && {
                &&& match (tool, &v.tool) {
                    (Some(t), Some(vt)) => vt@ == t@,
                    (None, None) => true,
                    _ => false,
                }
                &&& match (from_revision, &v.from_revision) {
                    (Some(t), Some(vt)) => vt@ == t@,
                    (None, None) => true,
                    _ => false,
                }
                &&& match (to_revision, &v.to_revision) {
                    (Some(t), Some(vt)) => vt@ == t@,
                    (None, None) => true,
                    _ => false,
                }
            },
            None => match files {
                Some(fs) => r matches Ok(InputFiles::FileList(l)) && l.deep_view()
                    == fs.deep_view(),
                None => match directory {
                    Some(d) => r matches Ok(InputFiles::AllFiles(a)) && a@ == d@,
                    None => r is Err,
                },
            },
        },
{
    match vcs {
        Some(tool) => {
            let t = match tool {
                Some(name) => Some(name.clone()),
                None => None,
            };
            let f = match from_revision {
                Some(fr) => Some(fr.clone()),
                None => None,
            };
            let to = match to_revision {
                Some(tr) => Some(tr.clone()),
                None => None,
            };
            Ok(InputFiles::Vcs(VcsInput { tool: t, from_revision: f, to_revision: to }))
        },
        None => match files {
            Some(fs) => {
                let copy = fs.clone();
                proof {
                    assert(copy.deep_view() =~~= fs.deep_view());
                }
                Ok(InputFiles::FileList(copy))
            },
            None => match directory {
                Some(d) => Ok(InputFiles::AllFiles(d.clone())),
                None => Err(
                    "Unknown input file list generation found on command line".to_owned(),
                ),
            },
        },
    }
}

} // verus!
