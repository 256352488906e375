//! The write plan of one capture: which files are written, with what full
//! content, and in what order. The standalone note comes first, so that a
//! failed standalone write aborts the request before the daily backlink is
//! attempted.

use vstd::prelude::*;
use crate::merge::{
    merge_backlink, merge_backlink_spec, merge_daily, merge_daily_spec, merge_standalone,
    merge_standalone_spec, opt_content,
};
use crate::resolve::{ResolvedPaths, SaveMode};

verus! {

/// One file write: the path and the full content that replaces the file.
#[derive(Debug)]
pub struct PlannedWrite {
    pub path: String,
    pub content: String,
}

/// Computes the writes of one save, in the order they are to be attempted.
///
/// A daily save writes its one merged daily file. A standalone save writes
/// the standalone note first and the backlinked daily note second; each of
/// the two is an independent write, and a failure of the first is to abort
/// the request before the second.
pub fn planned_writes(
    resolved: &ResolvedPaths,
    date: &str,
    entry_id: &str,
    thought: &str,
    existing_target: Option<&str>,
    existing_daily: Option<&str>,
) -> (r: Vec<PlannedWrite>)
    requires
        resolved.wf(),
    ensures
        resolved.mode is Daily ==> r@.len() == 1 && r@[0].path@ == resolved.target_path@
            && r@[0].content@ == merge_daily_spec(
            opt_content(existing_target),
            date@,
            entry_id@,
            thought@,
        ),
        resolved.mode is Standalone ==> r@.len() == 2 && r@[0].path@ == resolved.target_path@
            && r@[0].content@ == merge_standalone_spec(entry_id@, thought@) && (
        resolved.daily_path matches Some(dp) && r@[1].path@ == dp@) && r@[1].content@
            == merge_backlink_spec(opt_content(existing_daily), date@, entry_id@, thought@),
{
    let mut writes: Vec<PlannedWrite> = Vec::new();
    match resolved.mode {
        SaveMode::Daily => {
            writes.push(
                PlannedWrite {
                    path: resolved.target_path.clone(),
                    content: merge_daily(existing_target, date, entry_id, thought),
                },
            );
        },
        SaveMode::Standalone => {
            writes.push(
                PlannedWrite {
                    path: resolved.target_path.clone(),
                    content: merge_standalone(thought, entry_id),
                },
            );
            match &resolved.daily_path {
                Some(daily_path) => {
                    writes.push(
                        PlannedWrite {
                            path: daily_path.clone(),
                            content: merge_backlink(existing_daily, date, entry_id, thought),
                        },
                    );
                },
                None => {
                    proof {
                        assert(false);
                    }
                },
            }
        },
    }
    writes
}

} // verus!
