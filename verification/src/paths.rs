//! Project paths: the configuration file, the log file and the
//! transcript directory, rooted in the platform directories that the
//! directories crate reports.  Which base directories the platform has
//! depends on the environment, so nothing is assumed about them; the
//! verified part is how the file paths are built on top.

use vstd::prelude::*;
use crate::MicError;

verus! {

/// The platform directory handle of the directories crate, opaque here.
#[verifier::external_type_specification]
#[verifier::external_body]
pub struct ExProjectDirs(directories::ProjectDirs);

/// Relies on directories::ProjectDirs::from with this application's
/// qualifier, organization and name.  The outcome depends on the
/// platform and environment (it is None where no home directory is
/// known), so nothing more is promised of it.
#[verifier::external_body]
pub fn get_project_dirs() -> (r: Option<directories::ProjectDirs>) {
    directories::ProjectDirs::from("ca", "teamdman", "mic")
}

/// Relies on directories::ProjectDirs::config_dir; the path is converted
/// to a string.  Which path comes back depends on the platform, so
/// nothing more is promised of it.
#[verifier::external_body]
fn config_dir_string(dirs: &directories::ProjectDirs) -> (r: String) {
    dirs.config_dir().to_string_lossy().into_owned()
}

/// Relies on directories::ProjectDirs::data_dir; the path is converted
/// to a string.  Which path comes back depends on the platform, so
/// nothing more is promised of it.
#[verifier::external_body]
fn data_dir_string(dirs: &directories::ProjectDirs) -> (r: String) {
    dirs.data_dir().to_string_lossy().into_owned()
}

/// The configuration file path: "config.json" under the platform config
/// directory.  None where the platform reports no directories.
pub fn get_config_path() -> (r: Option<String>)
    ensures
        r matches Some(p) ==> p@.len() >= 12 && p@.subrange(
            p@.len() - 12,
            p@.len() as int,
        ) == "/config.json"@,
{
    match get_project_dirs() {
        Some(dirs) => {
            let mut p = config_dir_string(&dirs);
            p.append("/config.json");
            proof {
                reveal_strlit("/config.json");
                assert(p@.subrange(p@.len() - 12, p@.len() as int) =~= "/config.json"@);
            }
            Some(p)
        },
        None => None,
    }
}

/// The log file path: "mic.log" under the platform data directory.  None
/// where the platform reports no directories; the caller creates the
/// directory before writing.
pub fn get_logs_path() -> (r: Option<String>)
    ensures
        r matches Some(p) ==> p@.len() >= 8 && p@.subrange(
            p@.len() - 8,
            p@.len() as int,
        ) == "/mic.log"@,
{
    match get_project_dirs() {
        Some(dirs) => {
            let mut p = data_dir_string(&dirs);
            p.append("/mic.log");
            proof {
                reveal_strlit("/mic.log");
                assert(p@.subrange(p@.len() - 8, p@.len() as int) =~= "/mic.log"@);
            }
            Some(p)
        },
        None => None,
    }
}

/// The default transcript directory: "transcripts" under the platform
/// data directory.  None where the platform reports no directories; the
/// caller falls back to "./transcripts".
pub fn default_transcripts_dir() -> (r: Option<String>)
    ensures
        r matches Some(p) ==> p@.len() >= 12 && p@.subrange(
            p@.len() - 12,
            p@.len() as int,
        ) == "/transcripts"@,
{
    match get_project_dirs() {
        Some(dirs) => {
            let mut p = data_dir_string(&dirs);
            p.append("/transcripts");
            proof {
                reveal_strlit("/transcripts");
                assert(p@.subrange(p@.len() - 12, p@.len() as int) =~= "/transcripts"@);
            }
            Some(p)
        },
        None => None,
    }
}

} // verus!
