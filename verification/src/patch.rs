//! Search-and-replace on document content.
use vstd::prelude::*;

use crate::error::WorkspaceError;
use crate::text::{
    chars_of, contains_sub, find_from_pos, find_from_spec, lemma_find_from, occurs_at,
    slice_chars, string_of,
};

verus! {

/// `s` from `from` on with each non-overlapping occurrence of `pat`, found
/// left to right, replaced by `rep` (what `str::replace` does).
pub open spec fn replace_from(s: Seq<char>, pat: Seq<char>, rep: Seq<char>, from: int) -> Seq<char>
    decreases s.len() - from,
    when 0 <= from && pat.len() > 0
{
    match find_from_spec(s, pat, from) {
        Some(i) => {
            proof {
                lemma_find_from(s, pat, from);
            }
            s.subrange(from, i) + rep + replace_from(s, pat, rep, i + pat.len())
        },
        None => s.skip(from),
    }
}

/// Number of non-overlapping occurrences of `pat` in `s` from `from` on,
/// found left to right (what `str::matches(..).count()` gives).
pub open spec fn count_from(s: Seq<char>, pat: Seq<char>, from: int) -> nat
    decreases s.len() - from,
    when 0 <= from && pat.len() > 0
{
    match find_from_spec(s, pat, from) {
        Some(i) => {
            proof {
                lemma_find_from(s, pat, from);
            }
            1 + count_from(s, pat, i + pat.len())
        },
        None => 0,
    }
}

/// `s` with its first occurrence of `pat` replaced by `rep` (what
/// `str::replacen(pat, rep, 1)` does).
pub open spec fn replace_first_spec(s: Seq<char>, pat: Seq<char>, rep: Seq<char>) -> Seq<char> {
    match find_from_spec(s, pat, 0) {
        Some(i) => s.take(i) + rep + s.skip(i + pat.len()),
        None => s,
    }
}

/// At most one occurrence per remaining character.
proof fn lemma_count_bound(s: Seq<char>, pat: Seq<char>, from: int)
    requires
        0 <= from <= s.len(),
        pat.len() > 0,
    ensures
        count_from(s, pat, from) <= s.len() - from,
    decreases s.len() - from,
{
    lemma_find_from(s, pat, from);
    match find_from_spec(s, pat, from) {
        Some(i) => {
            lemma_count_bound(s, pat, i + pat.len());
        },
        None => {},
    }
}

/// Append `src` to `out`.
fn extend_chars(out: &mut Vec<char>, src: &[char])
    ensures
        final(out)@ == old(out)@ + src@,
{
    let mut i: usize = 0;
    while i < src.len()
        invariant
            0 <= i <= src@.len(),
            out@ == old(out)@ + src@.take(i as int),
        decreases src.len() - i,
    {
        out.push(src[i]);
        assert(src@.take(i + 1) =~= src@.take(i as int).push(src@[i as int]));
        assert(out@ =~= old(out)@ + src@.take(i + 1));
        i = i + 1;
    }
    assert(src@.take(src@.len() as int) =~= src@);
}

/// Replace every non-overlapping occurrence of `pat`; also count them.
pub fn replace_all_chars(s: &[char], pat: &[char], rep: &[char]) -> (r: (Vec<char>, usize))
    requires
        pat@.len() > 0,
    ensures
        r.0@ == replace_from(s@, pat@, rep@, 0),
        r.1 == count_from(s@, pat@, 0),
{
    let mut out: Vec<char> = Vec::new();
    let mut from: usize = 0;
    let mut count: usize = 0;
    proof {
        lemma_count_bound(s@, pat@, 0);
    }
    loop
        invariant_except_break
            out@ + replace_from(s@, pat@, rep@, from as int) == replace_from(s@, pat@, rep@, 0),
            count + count_from(s@, pat@, from as int) == count_from(s@, pat@, 0),
        invariant
            pat@.len() > 0,
            0 <= from <= s@.len(),
            count_from(s@, pat@, 0) <= s@.len(),
        ensures
            out@ == replace_from(s@, pat@, rep@, 0),
            count == count_from(s@, pat@, 0),
        decreases s@.len() - from,
    {
        proof {
            lemma_find_from(s@, pat@, from as int);
        }
        let n = s.len();
        match find_from_pos(s, pat, from) {
            Some(i) => {
                assert(i + pat@.len() <= n);
                let mid = slice_chars(s, from, i);
                let ghost before = out@;
                extend_chars(&mut out, mid.as_slice());
                extend_chars(&mut out, rep);
                proof {
                    assert(replace_from(s@, pat@, rep@, from as int) == s@.subrange(from as int, i as int)
                        + rep@ + replace_from(s@, pat@, rep@, i + pat@.len()));
                    assert(out@ + replace_from(s@, pat@, rep@, i + pat@.len()) =~= before
                        + replace_from(s@, pat@, rep@, from as int));
                    lemma_count_bound(s@, pat@, i + pat@.len());
                    assert(count_from(s@, pat@, from as int) == 1 + count_from(s@, pat@, i + pat@.len()));
                }
                assert(count < n);
                count = count + 1;
                from = i + pat.len();
            },
            None => {
                let rest = slice_chars(s, from, s.len());
                let ghost before = out@;
                extend_chars(&mut out, rest.as_slice());
                proof {
                    assert(replace_from(s@, pat@, rep@, from as int) == s@.skip(from as int));
                    assert(s@.skip(from as int) =~= s@.subrange(from as int, s@.len() as int));
                    assert(out@ =~= before + replace_from(s@, pat@, rep@, from as int));
                }
                break ;
            },
        }
    }
    (out, count)
}

/// Replace the first occurrence of `pat`, if any.
pub fn replace_first_chars(s: &[char], pat: &[char], rep: &[char]) -> (r: Vec<char>)
    ensures
        r@ == replace_first_spec(s@, pat@, rep@),
{
    match find_from_pos(s, pat, 0) {
        Some(i) => {
            let n = s.len();
            assert(i + pat@.len() <= n);
            let mut out = slice_chars(s, 0, i);
            extend_chars(&mut out, rep);
            let rest = slice_chars(s, i + pat.len(), s.len());
            extend_chars(&mut out, rest.as_slice());
            assert(s@.take(i as int) =~= s@.subrange(0, i as int));
            assert(s@.skip(i + pat@.len()) =~= s@.subrange(i + pat@.len(), s@.len() as int));
            out
        },
        None => {
            let out = slice_chars(s, 0, s.len());
            assert(s@ =~= s@.subrange(0, s@.len() as int));
            out
        },
    }
}

/// The content a patch produces: every occurrence replaced when
/// `replace_all`, else the first.
pub open spec fn patched_spec(content: Seq<char>, old: Seq<char>, new: Seq<char>, replace_all: bool) -> Seq<char> {
    if replace_all {
        replace_from(content, old, new, 0)
    } else {
        replace_first_spec(content, old, new)
    }
}

/// The content that replacing `old_str` with `new_str` produces, as a
/// preview before a write.
pub fn patch_preview(content: &str, old_str: &str, new_str: &str, replace_all: bool) -> (r: String)
    requires
        old_str@.len() > 0,
    ensures
        r@ == patched_spec(content@, old_str@, new_str@, replace_all),
{
    let c = chars_of(content);
    let o = chars_of(old_str);
    let n = chars_of(new_str);
    if replace_all {
        let (out, _) = replace_all_chars(c.as_slice(), o.as_slice(), n.as_slice());
        string_of(out.as_slice())
    } else {
        let out = replace_first_chars(c.as_slice(), o.as_slice(), n.as_slice());
        string_of(out.as_slice())
    }
}

/// A search-and-replace patch of a document's content: `old_string` must be
/// non-empty and occur in `content`. Every occurrence is replaced when
/// `replace_all` (and counted), otherwise the first (a count of one).
pub fn apply_patch(
    path: &str,
    content: &str,
    old_string: &str,
    new_string: &str,
    replace_all: bool,
) -> (r: Result<(String, usize), WorkspaceError>)
    ensures
        match r {
            Err(WorkspaceError::PatchFailed { path: p, reason }) => p@ == path@ && if old_string@.len()
                == 0 {
                reason@ == "old_string cannot be empty"@
            } else {
                !contains_sub(content@, old_string@) && reason@ == "old_string not found in document"@
            },
            Err(_) => false,
            Ok((new_content, count)) => old_string@.len() > 0 && contains_sub(content@, old_string@)
                && new_content@ == patched_spec(content@, old_string@, new_string@, replace_all)
                && count == (if replace_all {
                count_from(content@, old_string@, 0)
            } else {
                1
            }),
        },
{
    let c = chars_of(content);
    let o = chars_of(old_string);
    let n = chars_of(new_string);
    if o.len() == 0 {
        return Err(
            WorkspaceError::PatchFailed {
                path: String::from_str(path),
                reason: String::from_str("old_string cannot be empty"),
            },
        );
    }
    proof {
        lemma_find_from(c@, o@, 0);
        if contains_sub(content@, old_string@) {
            let k = choose|k: int| occurs_at(content@, old_string@, k);
            assert(occurs_at(c@, o@, k));
        }
    }
    match find_from_pos(c.as_slice(), o.as_slice(), 0) {
        None => Err(
            WorkspaceError::PatchFailed {
                path: String::from_str(path),
                reason: String::from_str("old_string not found in document"),
            },
        ),
        Some(_) => {
            if replace_all {
                let (out, count) = replace_all_chars(c.as_slice(), o.as_slice(), n.as_slice());
                Ok((string_of(out.as_slice()), count))
            } else {
                let out = replace_first_chars(c.as_slice(), o.as_slice(), n.as_slice());
                Ok((string_of(out.as_slice()), 1))
            }
        },
    }
}

} // verus!
