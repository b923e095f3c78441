//! What `build` and `check` work on: a whole project, or one file compiled
//! with the configuration of the project that holds it. The command line
//! asks the file system and hands the answers in.

use vstd::prelude::*;

use crate::compiler::CompilerError;
use crate::text::concat3;

verus! {

/// What the command line works on.
#[derive(Debug)]
pub enum InvocationTarget {
    /// Every source of the project rooted here.
    ProjectRoot(String),
    /// One file, compiled with the configuration found at `compiler_root`.
    SingleFile { compiler_root: String, file_path: String },
}

/// What the file system says of the path given on the command line.
#[derive(Debug)]
pub struct PathFacts {
    /// The path, made absolute against the working directory.
    pub absolute: String,
    /// Whether it is a directory.
    pub is_dir: bool,
    /// Whether its file name is that of the configuration file, in any
    /// case.
    pub names_config: bool,
    /// Its parent directory, if it has one.
    pub parent: Option<String>,
    /// The nearest directory, from its parent (or else the working
    /// directory) upwards, that holds a configuration file.
    pub nearest_root: Option<String>,
}

/// The message for a configuration file path without a parent directory.
pub open spec fn no_parent_message(path: Seq<char>) -> Seq<char> {
    "config path "@ + path + " has no parent directory"@
}

/// Where `build` or `check` applies: the working directory when no path is
/// given; a given directory as a project root; a configuration file's
/// directory as a project root (an error when it has none); any other path
/// as a single file, compiled with the configuration of the nearest
/// project above it, or else of the working directory.
pub fn resolve_invocation_target(cwd: &str, given: Option<PathFacts>) -> (r: Result<
    InvocationTarget,
    CompilerError,
>)
    ensures
        given is None ==> (r matches Ok(InvocationTarget::ProjectRoot(root)) && root@ == cwd@),
        given matches Some(f) ==> (f.is_dir ==> (r matches Ok(InvocationTarget::ProjectRoot(root))
            && root@ == f.absolute@)),
        given matches Some(f) ==> ((!f.is_dir && f.names_config) ==> match f.parent {
            Some(p) => r matches Ok(InvocationTarget::ProjectRoot(root)) && root@ == p@,
            None => r matches Err(CompilerError::Other(m)) && m@ == no_parent_message(
                f.absolute@,
            ),
        }),
        given matches Some(f) ==> ((!f.is_dir && !f.names_config) ==> (r matches Ok(
            InvocationTarget::SingleFile { compiler_root, file_path },
        ) && file_path@ == f.absolute@ && compiler_root@ == match f.nearest_root {
            Some(n) => n@,
            None => cwd@,
        })),
{
    let facts = match given {
        None => {
            return Ok(InvocationTarget::ProjectRoot(cwd.to_string()));
        },
        Some(f) => f,
    };
    if facts.is_dir {
        return Ok(InvocationTarget::ProjectRoot(facts.absolute));
    }
    if facts.names_config {
        return match facts.parent {
            Some(p) => Ok(InvocationTarget::ProjectRoot(p)),
            None => Err(
                CompilerError::Other(
                    concat3("config path ", facts.absolute.as_str(), " has no parent directory"),
                ),
            ),
        };
    }
    let compiler_root = match facts.nearest_root {
        Some(n) => n,
        None => cwd.to_string(),
    };
    Ok(InvocationTarget::SingleFile { compiler_root, file_path: facts.absolute })
}

} // verus!
