//! The data the engine works on: declared packages, per-manager status,
//! diffs, and the plain observations the surrounding application hands in
//! for everything it reads from disk or from a subprocess.

use vstd::prelude::*;

verus! {

/// One declared package, with where it stands for one manager.
#[derive(Debug, Clone)]
pub struct Package {
    pub name: String,
    pub manager: String,
    pub installed: bool,
    pub version: Option<String>,
    /// Whether the name appears in the manager's local-override manifest.
    pub is_local: bool,
}

/// Declared-versus-installed counts for one manager.
#[derive(Debug, Clone)]
pub struct PackageManager {
    pub name: String,
    pub total: usize,
    pub installed: usize,
    /// Update detection is an explicit non-goal; this stays 0.
    pub updates_available: usize,
}

/// The install/remove diff for one manager.
#[derive(Debug, Clone)]
pub struct DiffResult {
    pub name: String,
    pub display_name: String,
    pub to_install: Vec<String>,
    pub to_remove: Vec<String>,
}

/// What reading one file yielded: the file may be absent, readable, or
/// present but unreadable (the message describes the failure).
#[derive(Debug, Clone)]
pub enum FileRead {
    Missing,
    Content(String),
    Unreadable(String),
}

/// What one finished subprocess produced.
#[derive(Debug, Clone)]
pub struct CmdResult {
    pub success: bool,
    pub stdout: String,
    pub stderr: String,
}

/// How running one command went: it ran to completion, or could not be
/// started at all (the message describes the failure).
#[derive(Debug, Clone)]
pub enum RunOutcome {
    Ran(CmdResult),
    SpawnFailed(String),
}

/// What a probe of one manager observed: the listing command's outcome,
/// or, for managers probed by listing a directory, the directory's file
/// names (`None` when the directory does not exist).
#[derive(Debug, Clone)]
pub enum ProbeInput {
    Command(RunOutcome),
    BinDir(Option<Vec<String>>),
}

/// A filesystem path together with whether it exists on disk.
#[derive(Debug, Clone)]
pub struct PathCandidate {
    pub path: String,
    pub exists: bool,
}

} // verus!
