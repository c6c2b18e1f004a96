//! Where Ryuuji keeps its files and what a look at them found: the data
//! directory and how it was chosen, and the snapshot the Diagnostics page
//! shows. Paths are text, joined with `/`.

use vstd::prelude::*;

use crate::store::SchemaVersion;
use crate::text::{push_str, same_text};

verus! {

/// How the data directory was chosen.
#[derive(Clone, Copy, Debug, PartialEq, Eq, Structural)]
pub enum DataDirSource {
    PlatformDefault,
    /// `RYUUJI_DATA_DIR` was set.
    EnvOverride,
    /// Handed in directly.
    Explicit,
}

/// Why no data directory could be had.
#[derive(Clone, Debug, PartialEq, Eq)]
pub enum DataDirError {
    /// No platform data directory is available and no override is set.
    NoPlatformDir,
    /// The directory could not be created; `detail` says why.
    Create { path: String, detail: String },
}

/// `path` with `name` under it.
pub open spec fn joined(path: Seq<char>, name: Seq<char>) -> Seq<char> {
    if path.len() == 0 || path.last() == '/' {
        path + name
    } else {
        path + "/"@ + name
    }
}

/// `name` under `path`, as a path pushes a relative one.
pub fn join(path: &str, name: &str) -> (joined_path: String)
    ensures
        joined_path@ == joined(path@, name@),
{
    let mut out = path.to_owned();
    let chars = crate::text::chars_of(path);
    if chars.len() != 0 && chars[chars.len() - 1] != '/' {
        push_str(&mut out, "/");
    }
    push_str(&mut out, name);
    out
}

/// The directory Ryuuji keeps its files in.
#[derive(Clone, Debug, PartialEq, Eq)]
pub struct DataDir {
    root: String,
    source: DataDirSource,
}

impl DataDir {
    pub closed spec fn spec_root(&self) -> Seq<char> {
        self.root@
    }

    pub closed spec fn spec_source(&self) -> DataDirSource {
        self.source
    }

    /// A data directory at `root`, chosen as `source`.
    pub fn new(root: String, source: DataDirSource) -> (dir: DataDir)
        ensures
            dir.spec_root() == root@,
            dir.spec_source() == source,
    {
        DataDir { root, source }
    }

    /// `root`, handed in directly.
    pub fn at(root: String) -> (dir: DataDir)
        ensures
            dir.spec_root() == root@,
            dir.spec_source() == DataDirSource::Explicit,
    {
        DataDir { root, source: DataDirSource::Explicit }
    }

    /// The override when it is set and not empty, else the platform
    /// default; an empty override counts as unset.
    pub fn from_parts(env_override: Option<String>, platform_default: Option<String>) -> (dir: Result<DataDir, DataDirError>)
        ensures
            match env_override {
                Some(value) if value@.len() != 0 => dir matches Ok(dir) && dir.spec_root() == value@
                    && dir.spec_source() == DataDirSource::EnvOverride,
                _ => match platform_default {
                    Some(path) => dir matches Ok(dir) && dir.spec_root() == path@ && dir.spec_source()
                        == DataDirSource::PlatformDefault,
                    None => dir == Err::<DataDir, DataDirError>(DataDirError::NoPlatformDir),
                },
            },
    {
        if let Some(value) = env_override {
            if !value.as_str().is_empty() {
                return Ok(DataDir { root: value, source: DataDirSource::EnvOverride });
            }
        }
        match platform_default {
            Some(path) => Ok(DataDir { root: path, source: DataDirSource::PlatformDefault }),
            None => Err(DataDirError::NoPlatformDir),
        }
    }

    pub fn root(&self) -> (root: &str)
        ensures
            root@ == self.spec_root(),
    {
        self.root.as_str()
    }

    pub fn source(&self) -> (source: DataDirSource)
        ensures
            source == self.spec_source(),
    {
        self.source
    }

    pub fn logs(&self) -> (logs: String)
        ensures
            logs@ == joined(self.spec_root(), "logs"@),
    {
        join(self.root.as_str(), "logs")
    }

    pub fn library_db(&self) -> (path: String)
        ensures
            path@ == joined(self.spec_root(), "library.sqlite"@),
    {
        join(self.root.as_str(), "library.sqlite")
    }

    pub fn settings_file(&self) -> (path: String)
        ensures
            path@ == joined(self.spec_root(), "settings.toml"@),
    {
        join(self.root.as_str(), "settings.toml")
    }
}

/// A byte count, printed in binary units by the shell.
#[derive(Clone, Copy, Debug, PartialEq, Eq, Structural)]
pub struct ByteSize(pub u64);

/// What a look at one of Ryuuji's files said.
#[derive(Clone, Debug, PartialEq, Eq)]
pub enum FileStat {
    Present {
        len: ByteSize,
        /// Nanoseconds since the Unix epoch, when the platform says.
        modified: Option<u64>,
    },
    Missing,
    /// The kind of error the look ran into.
    Unreadable(String),
}

/// A file Ryuuji expects and what was found there.
#[derive(Clone, Debug, PartialEq, Eq)]
pub struct FileFacts {
    pub path: String,
    pub stat: FileStat,
}

/// The schema probe failed; `detail` is the error chain.
#[derive(Clone, Debug, PartialEq, Eq)]
pub struct ProbeFailed {
    pub detail: String,
}

/// A snapshot of where Ryuuji's files are and what state they are in.
#[derive(Debug, PartialEq, Eq)]
pub struct Diagnostics {
    pub data_dir: String,
    pub data_dir_source: DataDirSource,
    pub library: FileFacts,
    pub schema: Result<SchemaVersion, ProbeFailed>,
    pub settings: FileFacts,
    pub logs: String,
    /// The newest file in `logs`, when there is one.
    pub current_log: Option<FileFacts>,
}

/// Whether a file modified at `a` is no older than one modified at `b`; a
/// time the platform could not say is older than any it could.
pub open spec fn not_older(a: Option<u64>, b: Option<u64>) -> bool {
    match (a, b) {
        (_, None) => true,
        (None, Some(_)) => false,
        (Some(a), Some(b)) => a >= b,
    }
}

/// The newest of some files by modification time, the last of them when
/// several are equally new.
pub fn newest(modified: &[Option<u64>]) -> (newest: Option<usize>)
    ensures
        match newest {
            Some(i) => {
                &&& i < modified@.len()
                &&& forall|j: int| 0 <= j < modified@.len() ==> not_older(modified@[i as int], #[trigger] modified@[j])
                &&& forall|j: int| i < j < modified@.len() ==> !not_older(#[trigger] modified@[j], modified@[i as int])
                    || modified@[j] != modified@[i as int]
            },
            None => modified@.len() == 0,
        },
{
    if modified.len() == 0 {
        return None;
    }
    let mut best: usize = 0;
    let mut i: usize = 1;
    while i < modified.len()
        invariant
            1 <= i <= modified@.len(),
            best < i,
            forall|j: int| 0 <= j < i ==> not_older(modified@[best as int], #[trigger] modified@[j]),
            forall|j: int| best < j < i ==> modified@[j] != modified@[best as int],
        decreases modified@.len() - i,
    {
        let newer = match (modified[i], modified[best]) {
            (_, None) => true,
            (None, Some(_)) => false,
            (Some(a), Some(b)) => a >= b,
        };
        if newer {
            best = i;
        }
        i = i + 1;
    }
    Some(best)
}

} // verus!
