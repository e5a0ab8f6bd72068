//! Which log records are mirrored into the Output panel: warnings and
//! errors from the editor's own crates; third-party noise stays on disk.
use vstd::prelude::*;
use crate::text::{str_eq, str_starts_with, has_prefix, owned, push_str};

verus! {

/// Severity of a log record.
#[derive(Debug, Clone, Copy, PartialEq, Eq, Structural)]
pub enum LogLevel {
    Error,
    Warn,
    Info,
    Debug,
    Trace,
}

/// Severity of an Output-panel entry.
#[derive(Debug, Clone, Copy, PartialEq, Eq, Structural)]
pub enum LogSeverity {
    Info,
    Warn,
    Error,
}

/// Crates whose warnings and errors are mirrored into the Output panel.
pub open spec fn editor_crate_prefixes() -> Seq<Seq<char>> {
    seq!["wzmapeditor"@, "wz_maplib"@, "wz_pie"@, "wz_stats"@]
}

/// `target` is the crate `prefix` itself or one of its modules.
pub open spec fn under_crate(target: Seq<char>, prefix: Seq<char>) -> bool {
    target == prefix || has_prefix(target, prefix + "::"@)
}

/// The record comes from one of the editor's crates.
pub open spec fn is_internal(target: Seq<char>) -> bool {
    exists|i: int| 0 <= i < editor_crate_prefixes().len() && under_crate(target, #[trigger] editor_crate_prefixes()[i])
}

pub open spec fn spec_classify_for_panel(target: Seq<char>, level: LogLevel) -> Option<LogSeverity> {
    if !is_internal(target) {
        None
    } else {
        match level {
            LogLevel::Error => Some(LogSeverity::Error),
            LogLevel::Warn => Some(LogSeverity::Warn),
            _ => None,
        }
    }
}

fn under_crate_exec(target: &str, prefix: &str) -> (r: bool)
    ensures
        r == under_crate(target@, prefix@),
{
    if str_eq(target, prefix) {
        return true;
    }
    let mut p = owned(prefix);
    push_str(&mut p, "::");
    str_starts_with(target, p.as_str())
}

/// Panel severity of a record with this target and level: errors and
/// warnings of the editor's crates; `None` for everything else (info from
/// the editor reaches the panel by other means).
pub fn classify_for_panel(target: &str, level: LogLevel) -> (r: Option<LogSeverity>)
    ensures
        r == spec_classify_for_panel(target@, level),
{
    let prefixes: Vec<&str> = vec!["wzmapeditor", "wz_maplib", "wz_pie", "wz_stats"];
    let mut internal = false;
    let mut i: usize = 0;
    while i < prefixes.len()
        invariant
            prefixes@.len() == 4,
            forall|k: int| 0 <= k < 4 ==> (#[trigger] prefixes@[k])@ == editor_crate_prefixes()[k],
            i <= 4,
            internal == exists|k: int| 0 <= k < i && under_crate(target@, #[trigger] editor_crate_prefixes()[k]),
        decreases 4 - i,
    {
        assert(prefixes@[i as int]@ == editor_crate_prefixes()[i as int]);
        if under_crate_exec(target, prefixes[i]) {
            internal = true;
        }
        i = i + 1;
    }
    if !internal {
        return None;
    }
    match level {
        LogLevel::Error => Some(LogSeverity::Error),
        LogLevel::Warn => Some(LogSeverity::Warn),
        _ => None,
    }
}

} // verus!
