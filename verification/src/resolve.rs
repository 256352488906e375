//! Path resolution and request validation: given a base directory, a save
//! mode and the request's date and entry id, computes the Markdown file
//! path(s) to touch, or rejects the request before any file is touched.

use vstd::prelude::*;
use vstd::string::StringExecFns;
use crate::text::str_eq;

verus! {

/// The two recognized save modes.
#[derive(Clone, Copy, Debug, PartialEq, Eq, Structural)]
pub enum SaveMode {
    Daily,
    Standalone,
}

/// A request rejected before any I/O.
#[derive(Clone, Copy, Debug, PartialEq, Eq, Structural)]
pub enum ValidationError {
    /// The base path is empty.
    EmptyBasePath,
    /// The mode string is neither `daily` nor `standalone`.
    InvalidMode,
    /// Standalone mode without a (non-empty) daily base path.
    MissingDailyPath,
}

impl ValidationError {
    /// The user-visible message for this rejection.
    pub fn message(&self) -> (r: String)
        ensures
            *self is EmptyBasePath ==> r@ == "Error: Path cannot be empty"@,
            *self is InvalidMode ==> r@ == "Error: Invalid save mode"@,
            *self is MissingDailyPath ==> r@
                == "Error: Daily path is required for standalone notes"@,
    {
        match self {
            ValidationError::EmptyBasePath => "Error: Path cannot be empty".to_owned(),
            ValidationError::InvalidMode => "Error: Invalid save mode".to_owned(),
            ValidationError::MissingDailyPath => {
                "Error: Daily path is required for standalone notes".to_owned()
            },
        }
    }
}

/// The Markdown file `{dir}/{name}.md`.
pub open spec fn md_file_path(dir: Seq<char>, name: Seq<char>) -> Seq<char> {
    dir + "/"@ + name + ".md"@
}

/// A daily base path is missing if it was not supplied or is empty.
pub open spec fn daily_base_missing(daily_base_path: Option<&str>) -> bool {
    match daily_base_path {
        None => true,
        Some(s) => s@.len() == 0,
    }
}

/// The file(s) a save will touch: the target note, and — for a standalone
/// save — the daily note that receives the backlink.
#[derive(Debug)]
pub struct ResolvedPaths {
    pub mode: SaveMode,
    pub target_path: String,
    pub daily_path: Option<String>,
}

impl ResolvedPaths {
    /// A daily path accompanies exactly the standalone mode.
    pub open spec fn wf(self) -> bool {
        (self.mode is Standalone) <==> (self.daily_path is Some)
    }
}

/// Parses a mode string; exactly `daily` and `standalone` are recognized.
pub fn parse_mode(mode: &str) -> (r: Option<SaveMode>)
    ensures
        (r == Some(SaveMode::Daily)) <==> mode@ == "daily"@,
        (r == Some(SaveMode::Standalone)) <==> mode@ == "standalone"@,
        (r is None) <==> (mode@ != "daily"@ && mode@ != "standalone"@),
{
    proof {
        reveal_strlit("daily");
        reveal_strlit("standalone");
        assert("daily"@.len() == 5);
        assert("standalone"@.len() == 10);
    }
    if str_eq(mode, "daily") {
        Some(SaveMode::Daily)
    } else if str_eq(mode, "standalone") {
        Some(SaveMode::Standalone)
    } else {
        None
    }
}

/// Builds the path `{dir}/{name}.md`.
fn join_md(dir: &str, name: &str) -> (r: String)
    ensures
        r@ == md_file_path(dir@, name@),
{
    let mut p = dir.to_owned();
    p.append("/");
    p.append(name);
    p.append(".md");
    proof {
        assert(p@ =~= md_file_path(dir@, name@));
    }
    p
}

/// Resolves the target file path(s) for a save, validating the request
/// first: an empty base path, an unrecognized mode, or a missing daily base
/// path for a standalone save are each rejected, in that order of checks.
pub fn resolve(
    base_path: &str,
    mode: &str,
    date: &str,
    entry_id: &str,
    daily_base_path: Option<&str>,
) -> (r: Result<ResolvedPaths, ValidationError>)
    ensures
        base_path@.len() == 0 ==> r == Err::<ResolvedPaths, ValidationError>(
            ValidationError::EmptyBasePath,
        ),
        base_path@.len() > 0 && mode@ != "daily"@ && mode@ != "standalone"@ ==> r
            == Err::<ResolvedPaths, ValidationError>(ValidationError::InvalidMode),
        base_path@.len() > 0 && mode@ == "daily"@ ==> (r matches Ok(p) && p.mode
            == SaveMode::Daily && p.target_path@ == md_file_path(base_path@, date@)
            && p.daily_path is None),
        base_path@.len() > 0 && mode@ == "standalone"@ && daily_base_missing(daily_base_path)
            ==> r == Err::<ResolvedPaths, ValidationError>(ValidationError::MissingDailyPath),
        base_path@.len() > 0 && mode@ == "standalone"@ && !daily_base_missing(daily_base_path)
            ==> (r matches Ok(p) && p.mode == SaveMode::Standalone && p.target_path@
            == md_file_path(base_path@, entry_id@) && (daily_base_path matches Some(db) && (
            p.daily_path matches Some(dp) && dp@ == md_file_path(db@, date@)))),
        r matches Ok(p) ==> p.wf(),
{
    if base_path.is_empty() {
        return Err(ValidationError::EmptyBasePath);
    }
    match parse_mode(mode) {
        None => Err(ValidationError::InvalidMode),
        Some(SaveMode::Daily) => Ok(
            ResolvedPaths {
                mode: SaveMode::Daily,
                target_path: join_md(base_path, date),
                daily_path: None,
            },
        ),
        Some(SaveMode::Standalone) => {
            match daily_base_path {
                None => Err(ValidationError::MissingDailyPath),
                Some(db) => {
                    if db.is_empty() {
                        Err(ValidationError::MissingDailyPath)
                    } else {
                        Ok(
                            ResolvedPaths {
                                mode: SaveMode::Standalone,
                                target_path: join_md(base_path, entry_id),
                                daily_path: Some(join_md(db, date)),
                            },
                        )
                    }
                },
            }
        },
    }
}

} // verus!
