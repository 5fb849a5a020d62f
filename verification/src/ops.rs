//! The decisions a workspace makes around its storage calls: what a write
//! does once the stored document is known, how appended content is joined,
//! when a version is saved, and when a profile counts as recent.
use vstd::prelude::*;

use crate::document::{content_sha256, hex_spec, sha256_utf8};
use crate::normalize::{
    engine_runtime_path_spec, is_engine_runtime_path, is_system_prompt_file,
    system_prompt_file_spec,
};
use crate::config::strings_view;
use crate::error::WorkspaceError;
use crate::prompt::{join_spec, join_strings};
use crate::text::{CharClass, cat_str, chars_eq, chars_of, trim_chars, trim_spec};

verus! {

/// What a write of new content does once the document is loaded.
#[derive(Debug, Clone, Copy, PartialEq, Eq, Structural)]
pub enum WriteStep {
    /// Engine runtime blob whose content is unchanged: clear its chunks and
    /// return it as it is.
    RuntimeUnchanged,
    /// Engine runtime blob: clear its chunks and store the content, without
    /// versioning or indexing.
    RuntimeStore,
    /// Content unchanged: only refresh the index.
    Reindex,
    /// Version the old content, store the new one and reindex.
    Store,
}

/// The step of a write of `content` at the normalized `path` over `current`.
pub open spec fn write_step_spec(path: Seq<char>, current: Seq<char>, content: Seq<char>) -> WriteStep {
    if engine_runtime_path_spec(path) {
        if current == content {
            WriteStep::RuntimeUnchanged
        } else {
            WriteStep::RuntimeStore
        }
    } else if current == content {
        WriteStep::Reindex
    } else {
        WriteStep::Store
    }
}

/// Decide what writing `content` at the normalized `path` does, given the
/// stored `current` content.
pub fn plan_write(path: &str, current: &str, content: &str) -> (r: WriteStep)
    ensures
        r == write_step_spec(path@, current@, content@),
{
    let a = chars_of(current);
    let b = chars_of(content);
    let same = chars_eq(a.as_slice(), b.as_slice());
    if is_engine_runtime_path(path) {
        if same {
            WriteStep::RuntimeUnchanged
        } else {
            WriteStep::RuntimeStore
        }
    } else if same {
        WriteStep::Reindex
    } else {
        WriteStep::Store
    }
}

/// A write stores its content exactly when the content differs from what is
/// stored (a new, empty document included): only identical content is left
/// as it is; engine runtime paths take the runtime steps, all others the
/// versioned ones.
pub proof fn law_write_stores_changed_content(path: Seq<char>, current: Seq<char>, content: Seq<char>)
    ensures
        (write_step_spec(path, current, content) == WriteStep::Store || write_step_spec(
            path,
            current,
            content,
        ) == WriteStep::RuntimeStore) <==> current != content,
        (write_step_spec(path, current, content) == WriteStep::RuntimeStore || write_step_spec(
            path,
            current,
            content,
        ) == WriteStep::RuntimeUnchanged) <==> engine_runtime_path_spec(path),
{
}

/// Content written to a system-prompt file is scanned for prompt
/// injection, unless it is empty.
pub fn needs_injection_scan(path: &str, content: &str) -> (r: bool)
    ensures
        r == (system_prompt_file_spec(path@) && content@.len() > 0),
{
    let c = chars_of(content);
    is_system_prompt_file(path) && c.len() > 0
}

/// `entry` appended to `existing` after `separator`; an empty document
/// becomes the entry alone.
pub open spec fn appended_spec(existing: Seq<char>, entry: Seq<char>, separator: Seq<char>) -> Seq<
    char,
> {
    if existing.len() == 0 {
        entry
    } else {
        existing + separator + entry
    }
}

/// The content after appending `entry` to `existing` (a log append uses a
/// newline, a memory or layer append a blank line).
pub fn appended_content(existing: &str, entry: &str, separator: &str) -> (r: String)
    ensures
        r@ == appended_spec(existing@, entry@, separator@),
{
    let e = chars_of(existing);
    if e.len() == 0 {
        String::from_str(entry)
    } else {
        let a = cat_str(existing, separator);
        cat_str(a.as_str(), entry)
    }
}

/// The hash a version of `content` is saved under, or `None` when no
/// version is saved: empty content, or versioning disabled by metadata.
pub fn version_hash(content: &str, skip_versioning: Option<bool>) -> (r: Option<String>)
    ensures
        match r {
            Some(h) => content@.len() > 0 && skip_versioning != Some(true) && h@ == "sha256:"@
                + hex_spec(sha256_utf8(content@)),
            None => content@.len() == 0 || skip_versioning == Some(true),
        },
{
    let c = chars_of(content);
    if c.len() == 0 {
        return None;
    }
    match skip_versioning {
        Some(true) => None,
        _ => Some(content_sha256(content)),
    }
}

/// A version is saved unless the newest saved version has the same hash.
pub fn is_new_version(hash: &str, latest: Option<&str>) -> (r: bool)
    ensures
        r == match latest {
            Some(l) => l@ != hash@,
            None => true,
        },
{
    match latest {
        Some(l) => {
            let a = chars_of(l);
            let b = chars_of(hash);
            !chars_eq(a.as_slice(), b.as_slice())
        },
        None => true,
    }
}

/// Path of the daily log of a date written `YYYY-MM-DD`.
pub fn daily_log_path(date: &str) -> (r: String)
    ensures
        r@ == "daily/"@ + date@ + ".md"@,
{
    let a = cat_str("daily/", date);
    cat_str(a.as_str(), ".md")
}

/// A log entry stamped with a time written `HH:MM:SS`.
pub fn timestamped_entry(time: &str, entry: &str) -> (r: String)
    ensures
        r@ == "["@ + time@ + "] "@ + entry@,
{
    let a = cat_str("[", time);
    let b = cat_str(a.as_str(), "] ");
    cat_str(b.as_str(), entry)
}

/// Nanoseconds from instant `then` to instant `now`, each given as Unix
/// seconds and the nanoseconds within that second.
pub open spec fn age_nanos(then: (i64, u32), now: (i64, u32)) -> int {
    (now.0 - then.0) * 1_000_000_000 + (now.1 - then.1)
}

/// Whole seconds of a span, rounded toward zero.
pub open spec fn whole_seconds(nanos: int) -> int {
    if nanos >= 0 {
        nanos / 1_000_000_000
    } else {
        -((-nanos) / 1_000_000_000)
    }
}

/// A profile updated at `then` is recent at `now`: not in the future by a
/// whole second or more, and at most `max_days` whole days old.
pub open spec fn profile_recent_spec(then: Option<(i64, u32)>, now: (i64, u32), max_days: i64) -> bool {
    match then {
        None => false,
        Some(t) => {
            let secs = whole_seconds(age_nanos(t, now));
            secs >= 0 && secs / 86400 <= max_days
        },
    }
}

/// Whether a profile updated at `then` (`None` when its timestamp did not
/// parse) is within `max_days` of `now`.
pub fn profile_recent_at(then: Option<(i64, u32)>, now: (i64, u32), max_days: i64) -> (r: bool)
    requires
        then matches Some(t) ==> t.1 < 2_000_000_000,
        now.1 < 2_000_000_000,
    ensures
        r == profile_recent_spec(then, now, max_days),
{
    match then {
        None => false,
        Some(t) => {
            let ds: i128 = now.0 as i128 - t.0 as i128;
            assert(-0x1_0000_0000_0000_0000i128 <= ds <= 0x1_0000_0000_0000_0000i128);
            let age: i128 = ds * 1_000_000_000 + (now.1 as i128 - t.1 as i128);
            assert(age == age_nanos(t, now));
            let secs: i128 = if age >= 0 {
                age / 1_000_000_000
            } else {
                -((-age) / 1_000_000_000)
            };
            if secs < 0 {
                return false;
            }
            secs / 86400 <= max_days as i128
        },
    }
}

/// The instant an RFC 3339 timestamp denotes, as Unix seconds and the
/// nanoseconds within the second, or `None` when it does not parse.
pub uninterp spec fn rfc3339_instant(s: Seq<char>) -> Option<(i64, u32)>;

/// `chrono::DateTime::parse_from_rfc3339`, read back as Unix seconds and
/// sub-second nanoseconds. The contract claims the result depends on the
/// text alone and that the nanoseconds stay below two billion, the range
/// chrono documents (leap seconds included).
#[verifier::external_body]
fn parse_rfc3339(s: &str) -> (r: Option<(i64, u32)>)
    ensures
        r == rfc3339_instant(s@),
        r matches Some(t) ==> t.1 < 2_000_000_000,
{
    match chrono::DateTime::parse_from_rfc3339(s) {
        Ok(d) => Some((d.timestamp(), d.timestamp_subsec_nanos())),
        Err(_) => None,
    }
}

/// The system clock as time since the Unix epoch: whole seconds and the
/// nanoseconds within the second (`SystemTime::now().duration_since(UNIX_EPOCH)`,
/// zero when the clock reads before the epoch). The time of the call is not
/// stated; only that the nanoseconds of a `Duration` stay below one billion.
#[verifier::external_body]
pub(crate) fn unix_now() -> (r: (u64, u32))
    ensures
        r.1 < 1_000_000_000,
{
    let d = std::time::SystemTime::now().duration_since(std::time::UNIX_EPOCH).unwrap_or_default();
    (d.as_secs(), d.subsec_nanos())
}

/// The current instant as signed Unix seconds and nanoseconds; seconds
/// beyond the range of `i64` are held at its maximum.
pub(crate) fn now_instant() -> (r: (i64, u32))
    ensures
        r.0 >= 0,
        r.1 < 1_000_000_000,
{
    let (secs, nanos) = unix_now();
    let s: i64 = if secs <= 0x7fff_ffff_ffff_ffff {
        secs as i64
    } else {
        0x7fff_ffff_ffff_ffff
    };
    (s, nanos)
}

/// Check whether a profile's `updated_at` timestamp is within `max_days` of
/// now. Unparseable and future timestamps are not recent.
pub fn is_profile_recent(updated_at: &str, max_days: i64) -> (r: bool)
    ensures
        rfc3339_instant(updated_at@) is None ==> !r,
        exists|now: (i64, u32)| r == profile_recent_spec(rfc3339_instant(updated_at@), now, max_days),
{
    let then = parse_rfc3339(updated_at);
    let now = now_instant();
    profile_recent_at(then, now, max_days)
}

/// One finding of the prompt-injection scanner.
pub struct InjectionWarning {
    /// The finding is of high severity or above.
    pub high: bool,
    /// What was found.
    pub description: String,
}

/// The descriptions of the high-severity findings, in order.
pub open spec fn high_descriptions(ws: Seq<InjectionWarning>) -> Seq<Seq<char>>
    decreases ws.len(),
{
    if ws.len() == 0 {
        Seq::empty()
    } else if ws.last().high {
        high_descriptions(ws.drop_last()).push(ws.last().description@)
    } else {
        high_descriptions(ws.drop_last())
    }
}

/// The verdict on content written to `path` given the scanner's findings:
/// rejected when any finding is of high severity, with the descriptions of
/// those findings joined by `; ` as the reason.
pub fn injection_verdict(path: &str, warnings: &[InjectionWarning]) -> (r: Result<(), WorkspaceError>)
    ensures
        match r {
            Ok(()) => high_descriptions(warnings@).len() == 0,
            Err(WorkspaceError::InjectionRejected { path: p, reason }) => high_descriptions(
                warnings@,
            ).len() > 0 && p@ == path@ && reason@ == join_spec(high_descriptions(warnings@), "; "@),
            Err(_) => false,
        },
{
    let mut high: Vec<String> = Vec::new();
    let mut i: usize = 0;
    assert(warnings@.take(0) =~= Seq::<InjectionWarning>::empty());
    while i < warnings.len()
        invariant
            0 <= i <= warnings@.len(),
            strings_view(high@) == high_descriptions(warnings@.take(i as int)),
        decreases warnings.len() - i,
    {
        assert(warnings@.take(i + 1).drop_last() =~= warnings@.take(i as int));
        assert(warnings@.take(i + 1).last() == warnings@[i as int]);
        if warnings[i].high {
            let ghost before = strings_view(high@);
            high.push(warnings[i].description.clone());
            assert(strings_view(high@) =~= before.push(warnings@[i as int].description@));
        }
        i = i + 1;
    }
    assert(warnings@.take(warnings@.len() as int) =~= warnings@);
    if high.len() > 0 {
        let reason = join_strings(high.as_slice(), "; ");
        Err(WorkspaceError::InjectionRejected { path: String::from_str(path), reason })
    } else {
        Ok(())
    }
}

/// The file name has the extension `md` in the sense of
/// `Path::extension`: the part after its last `.`, when that dot is not
/// the first character and the name is not `..`.
pub open spec fn md_extension_spec(name: Seq<char>) -> bool {
    match crate::document::last_index_of(name, '.') {
        Some(i) => i > 0 && name != ".."@ && name.skip(i + 1) == "md"@,
        None => false,
    }
}

/// A file found in an import directory is imported when it is a Markdown
/// file (extension `md`) with content that is not only whitespace.
pub fn import_candidate(file_name: &str, content: &str) -> (r: bool)
    ensures
        r == (md_extension_spec(file_name@) && trim_spec(content@, CharClass::Whitespace).len() > 0),
{
    let n = chars_of(file_name);
    let c = chars_of(content);
    let t = trim_chars(c.as_slice(), CharClass::Whitespace);
    let len = n.len();
    let md = match crate::document::rfind_char(n.as_slice(), '.') {
        Some(i) => {
            let ext = crate::text::slice_chars(n.as_slice(), i + 1, len);
            let md_lit = chars_of("md");
            let dots = chars_of("..");
            assert(ext@ =~= n@.skip(i + 1));
            i > 0 && !chars_eq(n.as_slice(), dots.as_slice()) && chars_eq(ext.as_slice(), md_lit.as_slice())
        },
        None => false,
    };
    md && t.len() > 0
}

} // verus!
