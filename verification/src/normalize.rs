//! Workspace path normalization and path classification.
use vstd::prelude::*;

use crate::document::chars_eq_ignore_ascii_case;
use crate::paths;
use crate::text::{
    CharClass, chars_eq, chars_of, contains_chars, contains_sub, eq_ignore_ascii_case_spec,
    in_class, lead_count, starts_with, string_of, trail_count, trim_chars, trim_end_chars,
    trim_end_spec, trim_spec, trim_start_spec,
};

verus! {

/// `s` with every run of consecutive `/` collapsed into a single `/`.
pub open spec fn collapse_slashes(s: Seq<char>) -> Seq<char>
    decreases s.len(),
{
    if s.len() == 0 {
        s
    } else {
        let prev = collapse_slashes(s.drop_last());
        if s.last() == '/' && s.len() >= 2 && s[s.len() - 2] == '/' {
            prev
        } else {
            prev.push(s.last())
        }
    }
}

/// A normalized file path: surrounding whitespace trimmed, then leading and
/// trailing slashes trimmed, then runs of slashes collapsed.
pub open spec fn normalize_path_spec(path: Seq<char>) -> Seq<char> {
    collapse_slashes(trim_spec(trim_spec(path, CharClass::Whitespace), CharClass::One('/')))
}

/// A normalized directory path: the normalized path without trailing slashes.
pub open spec fn normalize_directory_spec(path: Seq<char>) -> Seq<char> {
    trim_end_spec(normalize_path_spec(path), CharClass::One('/'))
}

/// Collapse runs of slashes in a character sequence.
pub fn collapse_slash_runs(s: &[char]) -> (r: Vec<char>)
    ensures
        r@ == collapse_slashes(s@),
{
    let mut out: Vec<char> = Vec::new();
    let mut last_was_slash = false;
    let mut i: usize = 0;
    assert(s@.take(0) =~= Seq::<char>::empty());
    while i < s.len()
        invariant
            0 <= i <= s@.len(),
            out@ == collapse_slashes(s@.take(i as int)),
            last_was_slash == (i > 0 && s@[i - 1] == '/'),
        decreases s.len() - i,
    {
        let c = s[i];
        assert(s@.take(i + 1).drop_last() =~= s@.take(i as int));
        if c == '/' {
            if !last_was_slash {
                out.push(c);
            }
            last_was_slash = true;
        } else {
            out.push(c);
            last_was_slash = false;
        }
        i = i + 1;
    }
    assert(s@.take(s@.len() as int) =~= s@);
    out
}

/// Normalize a path as characters.
pub fn normalize_path_chars(path: &[char]) -> (r: Vec<char>)
    ensures
        r@ == normalize_path_spec(path@),
{
    let t = trim_chars(path, CharClass::Whitespace);
    let u = trim_chars(t.as_slice(), CharClass::One('/'));
    collapse_slash_runs(u.as_slice())
}

/// Normalize a file path (remove leading/trailing slashes, collapse //).
pub fn normalize_path(path: &str) -> (r: String)
    ensures
        r@ == normalize_path_spec(path@),
{
    let s = chars_of(path);
    let r = normalize_path_chars(s.as_slice());
    string_of(r.as_slice())
}

/// Normalize a directory path (ensure no trailing slash for consistency).
pub fn normalize_directory(path: &str) -> (r: String)
    ensures
        r@ == normalize_directory_spec(path@),
{
    let s = chars_of(path);
    let n = normalize_path_chars(s.as_slice());
    let r = trim_end_chars(n.as_slice(), CharClass::One('/'));
    string_of(r.as_slice())
}

/// No two adjacent characters of `s` are both `/`.
pub open spec fn no_double_slash(s: Seq<char>) -> bool {
    forall|i: int| 0 <= i < s.len() - 1 ==> !(#[trigger] s[i] == '/' && s[i + 1] == '/')
}

proof fn lemma_collapse_shape(s: Seq<char>)
    ensures
        no_double_slash(collapse_slashes(s)),
        collapse_slashes(s).len() == 0 <==> s.len() == 0,
        s.len() > 0 ==> collapse_slashes(s)[0] == s[0] && collapse_slashes(s).last() == s.last(),
    decreases s.len(),
{
    if s.len() > 0 {
        let p = s.drop_last();
        lemma_collapse_shape(p);
        let prev = collapse_slashes(p);
        if !(s.last() == '/' && s.len() >= 2 && s[s.len() - 2] == '/') {
            let r = prev.push(s.last());
            assert forall|i: int| 0 <= i < r.len() - 1 implies !(#[trigger] r[i] == '/' && r[i + 1]
                == '/') by {
                if i < prev.len() - 1 {
                    assert(r[i] == prev[i] && r[i + 1] == prev[i + 1]);
                } else {
                    assert(prev.last() == p.last());
                    assert(p.last() == s[s.len() - 2]);
                }
            }
            if p.len() > 0 {
                assert(r[0] == prev[0]);
            }
        }
    }
}

proof fn lemma_collapse_identity(s: Seq<char>)
    requires
        no_double_slash(s),
    ensures
        collapse_slashes(s) == s,
    decreases s.len(),
{
    if s.len() > 0 {
        let p = s.drop_last();
        assert forall|i: int| 0 <= i < p.len() - 1 implies !(#[trigger] p[i] == '/' && p[i + 1]
            == '/') by {
            assert(p[i] == s[i] && p[i + 1] == s[i + 1]);
        }
        lemma_collapse_identity(p);
        if s.len() >= 2 {
            assert(!(s[s.len() - 2] == '/' && s[s.len() - 1] == '/'));
        }
        assert(p.push(s.last()) =~= s);
    }
}

proof fn lemma_lead_count_stop(s: Seq<char>, cls: CharClass)
    ensures
        lead_count(s, cls) <= s.len(),
        lead_count(s, cls) < s.len() ==> !in_class(cls, s[lead_count(s, cls) as int]),
    decreases s.len(),
{
    if s.len() > 0 && in_class(cls, s[0]) {
        lemma_lead_count_stop(s.drop_first(), cls);
    }
}

proof fn lemma_trail_count_stop(s: Seq<char>, cls: CharClass)
    ensures
        trail_count(s, cls) <= s.len(),
        trail_count(s, cls) < s.len() ==> !in_class(
            cls,
            s[s.len() - trail_count(s, cls) - 1],
        ),
    decreases s.len(),
{
    if s.len() > 0 && in_class(cls, s.last()) {
        lemma_trail_count_stop(s.drop_last(), cls);
    }
}

/// What `trim_spec` leaves neither starts nor ends with a character of the class.
proof fn lemma_trim_edges(s: Seq<char>, cls: CharClass)
    ensures
        trim_spec(s, cls).len() > 0 ==> !in_class(cls, trim_spec(s, cls)[0]) && !in_class(
            cls,
            trim_spec(s, cls).last(),
        ),
{
    lemma_lead_count_stop(s, cls);
    let v = trim_start_spec(s, cls);
    lemma_trail_count_stop(v, cls);
    let u = trim_spec(s, cls);
    if u.len() > 0 {
        assert(v[0] == s[lead_count(s, cls) as int]);
        assert(u[0] == v[0]);
        assert(u.last() == v[v.len() - trail_count(v, cls) - 1]);
    }
}

/// Trimming a sequence whose ends are outside the class changes nothing.
proof fn lemma_trim_identity(s: Seq<char>, cls: CharClass)
    requires
        s.len() > 0 ==> !in_class(cls, s[0]) && !in_class(cls, s.last()),
    ensures
        trim_spec(s, cls) == s,
{
    assert(lead_count(s, cls) == 0);
    assert(s.skip(0) =~= s);
    assert(trail_count(s, cls) == 0);
    assert(s.take(s.len() as int) =~= s);
}

/// A normalized path neither starts nor ends with `/` and holds no `//`;
/// so normalizing it as a directory gives the same path.
pub proof fn law_normalized_path_shape(path: Seq<char>)
    ensures
        normalize_path_spec(path).len() > 0 ==> normalize_path_spec(path)[0] != '/'
            && normalize_path_spec(path).last() != '/',
        no_double_slash(normalize_path_spec(path)),
        normalize_directory_spec(path) == normalize_path_spec(path),
{
    let u = trim_spec(trim_spec(path, CharClass::Whitespace), CharClass::One('/'));
    lemma_trim_edges(trim_spec(path, CharClass::Whitespace), CharClass::One('/'));
    lemma_collapse_shape(u);
    let r = normalize_path_spec(path);
    assert(trail_count(r, CharClass::One('/')) == 0);
    assert(r.take(r.len() as int) =~= r);
}

/// Normalizing a normalized path changes nothing, unless the normalized path
/// still starts or ends with whitespace (as `"/ a/"` gives `" a"`), which a
/// second pass trims.
pub proof fn law_normalize_path_idempotent(path: Seq<char>)
    requires
        trim_spec(normalize_path_spec(path), CharClass::Whitespace) == normalize_path_spec(path),
    ensures
        normalize_path_spec(normalize_path_spec(path)) == normalize_path_spec(path),
{
    let r = normalize_path_spec(path);
    law_normalized_path_shape(path);
    lemma_trim_identity(r, CharClass::One('/'));
    lemma_collapse_identity(r);
}

/// Files injected into the system prompt. Writes to these are scanned for
/// prompt injection patterns.
pub open spec fn system_prompt_files() -> Seq<Seq<char>> {
    seq![
        paths::SOUL@,
        paths::AGENTS@,
        paths::USER@,
        paths::IDENTITY@,
        paths::SYSTEM@,
        paths::MEMORY@,
        paths::TOOLS@,
        paths::HEARTBEAT@,
        paths::BOOTSTRAP@,
        paths::ASSISTANT_DIRECTIVES@,
        paths::PROFILE@,
    ]
}

/// The path equals one of the system-prompt files, ignoring ASCII case.
pub open spec fn system_prompt_file_spec(path: Seq<char>) -> bool {
    exists|i: int|
        0 <= i < system_prompt_files().len() && eq_ignore_ascii_case_spec(
            path,
            #[trigger] system_prompt_files()[i],
        )
}

fn eq_ic_str(p: &[char], s: &str) -> (r: bool)
    ensures
        r == eq_ignore_ascii_case_spec(p@, s@),
{
    let v = chars_of(s);
    chars_eq_ignore_ascii_case(p, v.as_slice())
}

/// Returns true if `path` (already normalized) is a system-prompt-injected file.
pub fn is_system_prompt_file(path: &str) -> (r: bool)
    ensures
        r == system_prompt_file_spec(path@),
{
    let p = chars_of(path);
    let names = [
        paths::SOUL,
        paths::AGENTS,
        paths::USER,
        paths::IDENTITY,
        paths::SYSTEM,
        paths::MEMORY,
        paths::TOOLS,
        paths::HEARTBEAT,
        paths::BOOTSTRAP,
        paths::ASSISTANT_DIRECTIVES,
        paths::PROFILE,
    ];
    let mut i: usize = 0;
    while i < 11
        invariant
            0 <= i <= 11,
            p@ == path@,
            names@.len() == 11,
            forall|k: int| 0 <= k < 11 ==> (#[trigger] names@[k])@ == system_prompt_files()[k],
            forall|k: int| 0 <= k < i ==> !eq_ignore_ascii_case_spec(p@, #[trigger] system_prompt_files()[k]),
        decreases 11 - i,
    {
        let name = names[i];
        assert(name@ == system_prompt_files()[i as int]);
        if eq_ic_str(p.as_slice(), name) {
            assert(eq_ignore_ascii_case_spec(path@, system_prompt_files()[i as int]));
            return true;
        }
        i = i + 1;
    }
    false
}

/// Engine runtime state path: never indexed or versioned. The path holds no
/// `..` and is under `engine/.runtime/` or `engine/projects/`, or is exactly
/// `engine/orchestrator/failures.json` or `engine/README.md`.
pub open spec fn engine_runtime_path_spec(path: Seq<char>) -> bool {
    !contains_sub(path, ".."@) && ("engine/.runtime/"@.is_prefix_of(path)
        || "engine/projects/"@.is_prefix_of(path) || path == "engine/orchestrator/failures.json"@
        || path == "engine/README.md"@)
}

/// Returns `true` for engine runtime state paths that should never be chunked
/// or indexed for FTS/vector search.
pub fn is_engine_runtime_path(path: &str) -> (r: bool)
    ensures
        r == engine_runtime_path_spec(path@),
{
    let p = chars_of(path);
    let dots = chars_of("..");
    if contains_chars(p.as_slice(), dots.as_slice()) {
        return false;
    }
    let a = chars_of("engine/.runtime/");
    let b = chars_of("engine/projects/");
    let c = chars_of("engine/orchestrator/failures.json");
    let d = chars_of("engine/README.md");
    starts_with(p.as_slice(), a.as_slice()) || starts_with(p.as_slice(), b.as_slice()) || chars_eq(
        p.as_slice(),
        c.as_slice(),
    ) || chars_eq(p.as_slice(), d.as_slice())
}

} // verus!
