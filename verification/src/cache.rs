//! The scan cache and temporary files: what `prep clean` and `prep history`
//! do.

use vstd::prelude::*;
use crate::bridge::{format_utc_timestamp, string_of, utc_timestamp_text};
use crate::text::{chars_of, push_decimal, push_str, spec_decimal};

verus! {

/// The directory of the scan cache.
pub open spec fn cache_dir() -> Seq<char> {
    ".prep-cache"@
}

/// The name of the cache directory.
pub fn cache_dir_name() -> (res: &'static str)
    ensures
        res@ == cache_dir(),
{
    ".prep-cache"
}

/// One thing to do for `prep clean`, in order.
pub enum CleanStep {
    /// Print `Would remove: <entry>` for each entry of the cache directory,
    /// if it exists.
    ListCache,
    /// Remove the cache directory (see [`clear_cache`]).
    ClearCache,
    /// Deal with each file matching one of the glob patterns in the current
    /// directory (see [`temp_file_action`]).
    CleanTempFiles { patterns: Vec<String>, dry_run: bool },
}

/// A clean step as a mathematical value.
pub enum CleanStepView {
    ListCache,
    ClearCache,
    CleanTempFiles(Seq<Seq<char>>, bool),
}

impl View for CleanStep {
    type V = CleanStepView;

    open spec fn view(&self) -> CleanStepView {
        match self {
            CleanStep::ListCache => CleanStepView::ListCache,
            CleanStep::ClearCache => CleanStepView::ClearCache,
            CleanStep::CleanTempFiles { patterns, dry_run } => CleanStepView::CleanTempFiles(
                pattern_views(patterns@),
                *dry_run,
            ),
        }
    }
}

/// The views of a list of clean steps.
pub open spec fn clean_views(v: Seq<CleanStep>) -> Seq<CleanStepView> {
    v.map_values(|s: CleanStep| s@)
}

/// The views of a list of strings.
pub open spec fn pattern_views(v: Seq<String>) -> Seq<Seq<char>> {
    v.map_values(|p: String| p@)
}

/// The glob patterns of temporary files.
pub open spec fn temp_patterns() -> Seq<Seq<char>> {
    seq!["*.tmp"@, "*.log"@, "*.cache"@]
}

/// The steps of `prep clean`: with `all`, the cache directory too (only
/// listed on a dry run, when the temporary files are left alone); without,
/// only the temporary files.
pub open spec fn spec_clean_cache(all: bool, dry_run: bool) -> Seq<CleanStepView> {
    if all {
        if dry_run {
            seq![CleanStepView::ListCache]
        } else {
            seq![CleanStepView::ClearCache, CleanStepView::CleanTempFiles(temp_patterns(), false)]
        }
    } else {
        seq![CleanStepView::CleanTempFiles(temp_patterns(), dry_run)]
    }
}

fn temp_pattern_list() -> (res: Vec<String>)
    ensures
        pattern_views(res@) == temp_patterns(),
{
    let mut v: Vec<String> = Vec::new();
    v.push("*.tmp".to_owned());
    v.push("*.log".to_owned());
    v.push("*.cache".to_owned());
    assert(pattern_views(v@) =~= temp_patterns());
    v
}

/// The steps of `prep clean`.
pub fn clean_cache(all: bool, dry_run: bool) -> (res: Vec<CleanStep>)
    ensures
        clean_views(res@) == spec_clean_cache(all, dry_run),
{
    let mut steps: Vec<CleanStep> = Vec::new();
    if all {
        if dry_run {
            steps.push(CleanStep::ListCache);
        } else {
            steps.push(CleanStep::ClearCache);
            steps.push(CleanStep::CleanTempFiles { patterns: temp_pattern_list(), dry_run: false });
        }
    } else {
        steps.push(CleanStep::CleanTempFiles { patterns: temp_pattern_list(), dry_run });
    }
    assert(clean_views(steps@) =~= spec_clean_cache(all, dry_run));
    steps
}

/// Clearing the cache: whether to remove the directory, and the message.
pub fn clear_cache(present: bool) -> (res: (bool, String))
    ensures
        res.0 == present,
        res.1@ == if present {
            "Cache cleared."@
        } else {
            "No cache to clear."@
        },
{
    if present {
        (true, "Cache cleared.".to_owned())
    } else {
        (false, "No cache to clear.".to_owned())
    }
}

/// What happens to one file matching a temporary-file pattern: on a dry run
/// it is only named; otherwise a regular file is removed and named.
pub fn temp_file_action(dry_run: bool, is_file: bool, path: &str) -> (res: (bool, Option<String>))
    ensures
        res.0 == (!dry_run && is_file),
        match res.1 {
            Some(m) => m@ == if dry_run {
                "Would remove: "@ + path@
            } else {
                "Removed: "@ + path@
            } && (dry_run || is_file),
            None => !dry_run && !is_file,
        },
{
    if dry_run {
        let mut m = chars_of("Would remove: ");
        push_str(&mut m, path);
        (false, Some(string_of(m.as_slice())))
    } else if is_file {
        let mut m = chars_of("Removed: ");
        push_str(&mut m, path);
        (true, Some(string_of(m.as_slice())))
    } else {
        (false, None)
    }
}

/// How `prep history --verbose` shows a time.
pub open spec fn history_time_format() -> Seq<char> {
    "%Y-%m-%d %H:%M:%S"@
}

/// A line of `prep history --verbose`: a cache entry's name and the UTC time
/// it was last modified, or `unknown` when that time cannot be shown.
pub open spec fn spec_history_entry(name: Seq<char>, secs: int) -> Seq<char> {
    name + " - "@ + match utc_timestamp_text(secs, history_time_format()) {
        Some(t) => t,
        None => "unknown"@,
    }
}

/// A line of `prep history --verbose`, for an entry modified `secs` seconds
/// after the Unix epoch.
pub fn history_entry(name: &str, secs: i64) -> (res: String)
    ensures
        res@ == spec_history_entry(name@, secs as int),
{
    let mut m = chars_of(name);
    push_str(&mut m, " - ");
    let format = "%Y-%m-%d %H:%M:%S";
    assert(format@ == history_time_format());
    match format_utc_timestamp(secs, format) {
        Some(t) => push_str(&mut m, t.as_str()),
        None => push_str(&mut m, "unknown"),
    }
    string_of(m.as_slice())
}

/// The last line of `prep history`: how many cache entries there are.
pub fn history_count(count: usize) -> (res: String)
    ensures
        res@ == spec_decimal(count as nat) + " cache entries found."@,
{
    let mut m: Vec<char> = Vec::new();
    push_decimal(&mut m, count);
    push_str(&mut m, " cache entries found.");
    string_of(m.as_slice())
}


/// A dry run of `prep clean` removes nothing: it never clears the cache and
/// deals with temporary files only as a dry run.
pub proof fn lemma_clean_dry_run_removes_nothing(all: bool)
    ensures
        forall|i: int|
            0 <= i < spec_clean_cache(all, true).len() ==> match #[trigger] spec_clean_cache(
                all,
                true,
            )[i] {
                CleanStepView::ClearCache => false,
                CleanStepView::CleanTempFiles(_, dry) => dry,
                CleanStepView::ListCache => true,
            },
{
}

} // verus!
