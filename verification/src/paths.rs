//! Per-client directory tree: `./data/<index>/` with the `runs`, `events`
//! and `metadata` subdirectories.

use vstd::prelude::*;
use vstd::string::*;

use crate::util::{decimal_digits, u64_to_string};

verus! {

/// Role of a subdirectory in a session's output tree.
#[derive(Clone, Copy, Debug, PartialEq, Eq, Hash, Structural)]
pub enum Directory {
    Runs,
    Events,
    Metadata,
}

/// The root directory path of a client's session: `./data/<index>`.
pub open spec fn root_path_text(client_index: nat) -> Seq<char> {
    "./data/"@ + decimal_digits(client_index)
}

/// The subdirectory name of a directory role.
pub open spec fn dir_name_text(dir: Directory) -> Seq<char> {
    match dir {
        Directory::Runs => "runs"@,
        Directory::Events => "events"@,
        Directory::Metadata => "metadata"@,
    }
}

/// The path of a role's subdirectory under a client's root.
pub open spec fn dir_path_text(client_index: nat, dir: Directory) -> Seq<char> {
    root_path_text(client_index) + "/"@ + dir_name_text(dir)
}

/// The directory paths of one client's session.
pub struct Paths {
    dir: String,
    runs_dir: String,
    events_dir: String,
    metadata_dir: String,
    client_index: u64,
}

impl Paths {
    /// The client index whose tree this is.
    pub closed spec fn index(&self) -> nat {
        self.client_index as nat
    }

    /// The paths are exactly the tree of `./data/<index>`.
    pub closed spec fn wf(&self) -> bool {
        &&& self.dir@ == root_path_text(self.index())
        &&& self.runs_dir@ == dir_path_text(self.index(), Directory::Runs)
        &&& self.events_dir@ == dir_path_text(self.index(), Directory::Events)
        &&& self.metadata_dir@ == dir_path_text(self.index(), Directory::Metadata)
    }

    /// Builds the path set for one client index. Creating the directories
    /// on disk is the caller's task.
    pub fn new(client_index: u64) -> (r: Paths)
        ensures
            r.wf(),
            r.index() == client_index as nat,
    {
        let mut dir = String::from_str("./data/");
        let idx = u64_to_string(client_index);
        dir.append(idx.as_str());
        let mut runs_dir = dir.clone();
        runs_dir.append("/");
        runs_dir.append("runs");
        let mut events_dir = dir.clone();
        events_dir.append("/");
        events_dir.append("events");
        let mut metadata_dir = dir.clone();
        metadata_dir.append("/");
        metadata_dir.append("metadata");
        Paths { dir, runs_dir, events_dir, metadata_dir, client_index }
    }

    /// The session's root directory path.
    pub fn get_root(&self) -> (r: &str)
        requires
            self.wf(),
        ensures
            r@ == root_path_text(self.index()),
    {
        self.dir.as_str()
    }

    /// The subdirectory path for a role.
    pub fn get(&self, dir: Directory) -> (r: &str)
        requires
            self.wf(),
        ensures
            r@ == dir_path_text(self.index(), dir),
    {
        match dir {
            Directory::Runs => self.runs_dir.as_str(),
            Directory::Events => self.events_dir.as_str(),
            Directory::Metadata => self.metadata_dir.as_str(),
        }
    }
}

} // verus!
