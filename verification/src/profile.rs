//! Merging profile-derived content into the user's `USER.md`.
use vstd::prelude::*;

use crate::text::{
    CharClass, chars_of, contains_chars, contains_sub, find_from_pos, find_from_spec,
    lemma_find_first, lemma_find_from, lemma_occurs_char, lemma_trail_count_le, occurs_at,
    slice_chars, starts_with, string_of, trim_chars, trim_end_chars, trim_end_spec, trim_spec,
};

verus! {

/// Marker that opens the profile-synced section.
pub const PROFILE_SECTION_BEGIN: &'static str = "<!-- BEGIN:profile-sync -->";

/// Marker that closes the profile-synced section.
pub const PROFILE_SECTION_END: &'static str = "<!-- END:profile-sync -->";

/// Header of the profile section's earlier, whole-file format.
pub const OLD_PROFILE_HEADER: &'static str = "<!-- Auto-generated from context/profile.json";

/// `content` between the section markers, each on its own line.
pub open spec fn wrap_spec(content: Seq<char>) -> Seq<char> {
    PROFILE_SECTION_BEGIN@ + seq!['\n'] + content + seq!['\n'] + PROFILE_SECTION_END@
}

/// The content is the seed template of `USER.md`: after trimming it starts
/// with `# User Context` and mentions `- **Name:**`.
pub open spec fn seed_template_spec(content: Seq<char>) -> bool {
    let t = trim_spec(content, CharClass::Whitespace);
    "# User Context"@.is_prefix_of(t) && contains_sub(t, "- **Name:**"@)
}

/// Where the delimited section of `existing` lies: the first begin marker
/// and the first end marker at or after it.
pub open spec fn section_bounds(existing: Seq<char>) -> Option<(int, int)> {
    match find_from_spec(existing, PROFILE_SECTION_BEGIN@, 0) {
        Some(b) => match find_from_spec(existing, PROFILE_SECTION_END@, b) {
            Some(e) => Some((b, e + PROFILE_SECTION_END@.len())),
            None => None,
        },
        None => None,
    }
}

/// `USER.md` after merging new profile content into `existing`:
/// - a delimited section is replaced in place;
/// - a file in the earlier auto-generated format, or the seed template, is
///   replaced by the delimited section;
/// - otherwise the section is appended after the trimmed user content.
pub open spec fn merge_profile_spec(existing: Seq<char>, new_content: Seq<char>) -> Seq<char> {
    let d = wrap_spec(new_content);
    match section_bounds(existing) {
        Some((b, e)) => existing.take(b) + d + existing.skip(e),
        None => if OLD_PROFILE_HEADER@.is_prefix_of(existing) || seed_template_spec(existing) {
            d
        } else {
            let t = trim_end_spec(existing, CharClass::Whitespace);
            if t.len() == 0 {
                d
            } else {
                t + seq!['\n', '\n'] + d
            }
        },
    }
}

/// Wrap profile content in section delimiters.
pub fn wrap_profile_section(content: &str) -> (r: String)
    ensures
        r@ == wrap_spec(content@),
{
    let mut r = String::from_str(PROFILE_SECTION_BEGIN);
    r.append("\n");
    r.append(content);
    r.append("\n");
    r.append(PROFILE_SECTION_END);
    proof {
        reveal_strlit("\n");
        assert(r@ =~= wrap_spec(content@));
    }
    r
}

/// Check if content matches the seed template for USER.md.
pub fn is_seed_template(content: &str) -> (r: bool)
    ensures
        r == seed_template_spec(content@),
{
    let c = chars_of(content);
    let t = trim_chars(c.as_slice(), CharClass::Whitespace);
    let head = chars_of("# User Context");
    let name = chars_of("- **Name:**");
    starts_with(t.as_slice(), head.as_slice()) && contains_chars(t.as_slice(), name.as_slice())
}

/// Locate the delimited section of `existing`, as [`section_bounds`].
fn find_section(ex: &[char]) -> (r: Option<(usize, usize)>)
    ensures
        match r {
            Some((b, e)) => section_bounds(ex@) == Some((b as int, e as int)) && b <= e
                <= ex@.len(),
            None => section_bounds(ex@) is None,
        },
{
    let begin_m = chars_of(PROFILE_SECTION_BEGIN);
    let end_m = chars_of(PROFILE_SECTION_END);
    match find_from_pos(ex, begin_m.as_slice(), 0) {
        Some(b) => match find_from_pos(ex, end_m.as_slice(), b) {
            Some(e_start) => {
                assert(crate::text::occurs_at(ex@, end_m@, e_start as int));
                let n = ex.len();
                assert(e_start + end_m@.len() <= n);
                Some((b, e_start + end_m.len()))
            },
            None => None,
        },
        None => None,
    }
}

/// `ex[..b] + delimited + ex[e..]`.
fn splice(ex: &[char], b: usize, e: usize, delimited: &str) -> (r: String)
    requires
        b <= e <= ex@.len(),
    ensures
        r@ == ex@.take(b as int) + delimited@ + ex@.skip(e as int),
{
    let pre = slice_chars(ex, 0, b);
    let post = slice_chars(ex, e, ex.len());
    let mut result = string_of(pre.as_slice());
    result.append(delimited);
    let post_s = string_of(post.as_slice());
    result.append(post_s.as_str());
    assert(ex@.skip(e as int) =~= ex@.subrange(e as int, ex@.len() as int));
    result
}

/// The merge when `existing` holds no delimited section.
fn merge_without_section(existing: &str, ex: &[char], delimited: String) -> (r: String)
    requires
        ex@ == existing@,
    ensures
        r@ == if OLD_PROFILE_HEADER@.is_prefix_of(existing@) || seed_template_spec(existing@) {
            delimited@
        } else {
            let t = trim_end_spec(existing@, CharClass::Whitespace);
            if t.len() == 0 {
                delimited@
            } else {
                t + seq!['\n', '\n'] + delimited@
            }
        },
{
    let old_header = chars_of(OLD_PROFILE_HEADER);
    if starts_with(ex, old_header.as_slice()) {
        return delimited;
    }
    if is_seed_template(existing) {
        return delimited;
    }
    let trimmed = trim_end_chars(ex, CharClass::Whitespace);
    if trimmed.len() == 0 {
        return delimited;
    }
    let mut result = string_of(trimmed.as_slice());
    result.append("\n\n");
    result.append(delimited.as_str());
    proof {
        reveal_strlit("\n\n");
    }
    result
}

/// Merge auto-generated profile content into an existing USER.md.
///
/// - If delimiters are found, replaces only the delimited block.
/// - If the old-format auto-generated header is present, does a full replace.
/// - If the content matches the seed template, does a full replace.
/// - Otherwise appends the delimited block (preserves user-authored content).
pub fn merge_profile_section(existing: &str, new_content: &str) -> (r: String)
    ensures
        r@ == merge_profile_spec(existing@, new_content@),
{
    let delimited = wrap_profile_section(new_content);
    let ex = chars_of(existing);
    match find_section(ex.as_slice()) {
        Some((b, e)) => splice(ex.as_slice(), b, e, delimited.as_str()),
        None => merge_without_section(existing, ex.as_slice(), delimited),
    }
}

/// The new `USER.md` when profile documents are synced: the profile content
/// merged into the existing file, or the wrapped section alone when the
/// file could not be read.
pub fn synced_user_md(existing: Option<&str>, profile_content: &str) -> (r: String)
    ensures
        r@ == match existing {
            Some(e) => merge_profile_spec(e@, profile_content@),
            None => wrap_spec(profile_content@),
        },
{
    match existing {
        Some(e) => merge_profile_section(e, profile_content),
        None => wrap_profile_section(profile_content),
    }
}

/// The characters of the two markers that the proofs below rely on.
proof fn lemma_marker_chars()
    ensures
        PROFILE_SECTION_BEGIN@.len() == 27,
        PROFILE_SECTION_END@.len() == 25,
        PROFILE_SECTION_BEGIN@[0] == '<',
        PROFILE_SECTION_END@[0] == '<',
        PROFILE_SECTION_BEGIN@[5] == 'B',
        PROFILE_SECTION_END@[5] == 'E',
        forall|k: int| 0 < k < 27 ==> #[trigger] PROFILE_SECTION_BEGIN@[k] != '<',
        forall|k: int| 0 <= k < 27 ==> #[trigger] PROFILE_SECTION_BEGIN@[k] != '\n',
        forall|k: int| 0 <= k < 25 ==> #[trigger] PROFILE_SECTION_END@[k] != '\n',
{
    reveal_strlit("<!-- BEGIN:profile-sync -->");
    reveal_strlit("<!-- END:profile-sync -->");
    assert(PROFILE_SECTION_BEGIN@ =~= seq![
        '<', '!', '-', '-', ' ', 'B', 'E', 'G', 'I', 'N', ':', 'p', 'r', 'o', 'f', 'i', 'l', 'e',
        '-', 's', 'y', 'n', 'c', ' ', '-', '-', '>',
    ]);
    assert(PROFILE_SECTION_END@ =~= seq![
        '<', '!', '-', '-', ' ', 'E', 'N', 'D', ':', 'p', 'r', 'o', 'f', 'i', 'l', 'e', '-', 's',
        'y', 'n', 'c', ' ', '-', '-', '>',
    ]);
}

/// Layout of a wrapped block: begin marker, newline, content, newline, end marker.
proof fn lemma_wrap_chars(c: Seq<char>)
    ensures
        wrap_spec(c).len() == 54 + c.len(),
        forall|k: int| 0 <= k < 27 ==> #[trigger] wrap_spec(c)[k] == PROFILE_SECTION_BEGIN@[k],
        wrap_spec(c)[27] == '\n',
        forall|k: int| 0 <= k < c.len() ==> #[trigger] wrap_spec(c)[28 + k] == c[k],
        wrap_spec(c)[(28 + c.len()) as int] == '\n',
        forall|k: int|
            0 <= k < 25 ==> #[trigger] wrap_spec(c)[29 + c.len() + k] == PROFILE_SECTION_END@[k],
{
    lemma_marker_chars();
}

/// The first begin and end markers of `p + wrap(c) + s` delimit exactly the
/// wrapped block, when no begin marker starts inside `p` and `c` holds no
/// end marker.
proof fn lemma_bounds_of_wrapped(p: Seq<char>, c: Seq<char>, s: Seq<char>)
    requires
        !contains_sub(c, PROFILE_SECTION_END@),
        forall|j: int|
            0 <= j < p.len() ==> !occurs_at(p + wrap_spec(c) + s, PROFILE_SECTION_BEGIN@, j),
    ensures
        section_bounds(p + wrap_spec(c) + s) == Some(
            (p.len() as int, (p.len() + wrap_spec(c).len()) as int),
        ),
{
    lemma_marker_chars();
    lemma_wrap_chars(c);
    let d = wrap_spec(c);
    let r = p + d + s;
    let pl = p.len() as int;
    let cl = c.len() as int;
    assert forall|k: int| 0 <= k < d.len() implies #[trigger] r[pl + k] == d[k] by {}
    assert(r.subrange(pl, pl + 27) =~= PROFILE_SECTION_BEGIN@) by {
        assert forall|k: int| 0 <= k < 27 implies r.subrange(pl, pl + 27)[k]
            == PROFILE_SECTION_BEGIN@[k] by {
            assert(r[pl + k] == d[k]);
        }
    }
    lemma_find_first(r, PROFILE_SECTION_BEGIN@, 0, pl);
    let e = pl + 29 + cl;
    assert(r.subrange(e, e + 25) =~= PROFILE_SECTION_END@) by {
        assert forall|k: int| 0 <= k < 25 implies r.subrange(e, e + 25)[k]
            == PROFILE_SECTION_END@[k] by {
            assert(r[pl + (29 + cl + k)] == d[29 + cl + k]);
        }
    }
    assert forall|j: int| pl <= j < e implies !occurs_at(r, PROFILE_SECTION_END@, j) by {
        if occurs_at(r, PROFILE_SECTION_END@, j) {
            lemma_occurs_char(r, PROFILE_SECTION_END@, j, 0);
            assert(r[pl + (j - pl)] == d[j - pl]);
            if j == pl {
                lemma_occurs_char(r, PROFILE_SECTION_END@, j, 5);
                assert(r[pl + 5] == d[5]);
            } else if j < pl + 27 {
                assert(d[j - pl] == PROFILE_SECTION_BEGIN@[j - pl]);
            } else if j == pl + 27 {
            } else if j < pl + 28 + cl {
                let k = j - pl - 28;
                if k + 25 <= cl {
                    assert(c.subrange(k, k + 25) =~= PROFILE_SECTION_END@) by {
                        assert forall|m: int| 0 <= m < 25 implies c.subrange(k, k + 25)[m]
                            == PROFILE_SECTION_END@[m] by {
                            lemma_occurs_char(r, PROFILE_SECTION_END@, j, m);
                            assert(r[pl + (28 + (k + m))] == d[28 + (k + m)]);
                        }
                    }
                    assert(occurs_at(c, PROFILE_SECTION_END@, k));
                } else {
                    let m = cl - k;
                    lemma_occurs_char(r, PROFILE_SECTION_END@, j, m);
                    assert(r[pl + (28 + cl)] == d[28 + cl]);
                }
            } else {
                assert(j == pl + 28 + cl);
            }
        }
    }
    lemma_find_first(r, PROFILE_SECTION_END@, pl, e);
}

/// When `x` has a delimited section at `(b, e)`, splicing a block in its
/// place leaves no begin marker starting before `b`.
proof fn lemma_no_begin_before_section(x: Seq<char>, c: Seq<char>, b: int, e: int)
    requires
        section_bounds(x) == Some((b, e)),
    ensures
        0 <= b <= e <= x.len(),
        forall|j: int|
            0 <= j < b ==> !occurs_at(
                x.take(b) + wrap_spec(c) + x.skip(e),
                PROFILE_SECTION_BEGIN@,
                j,
            ),
{
    lemma_marker_chars();
    lemma_wrap_chars(c);
    lemma_find_from(x, PROFILE_SECTION_BEGIN@, 0);
    lemma_find_from(x, PROFILE_SECTION_END@, b);
    let es = find_from_spec(x, PROFILE_SECTION_END@, b)->0;
    assert(b + 27 <= x.len());
    assert(es + 25 <= x.len());
    let d = wrap_spec(c);
    let r = x.take(b) + d + x.skip(e);
    assert forall|i: int| 0 <= i < b implies #[trigger] r[i] == x[i] by {}
    assert(r[b] == d[0]);
    assert forall|j: int| 0 <= j < b implies !occurs_at(r, PROFILE_SECTION_BEGIN@, j) by {
        if occurs_at(r, PROFILE_SECTION_BEGIN@, j) {
            if j + 27 <= b {
                assert(x.subrange(j, j + 27) =~= PROFILE_SECTION_BEGIN@) by {
                    assert forall|k: int| 0 <= k < 27 implies x.subrange(j, j + 27)[k]
                        == PROFILE_SECTION_BEGIN@[k] by {
                        lemma_occurs_char(r, PROFILE_SECTION_BEGIN@, j, k);
                        assert(r[j + k] == x[j + k]);
                    }
                }
                assert(occurs_at(x, PROFILE_SECTION_BEGIN@, j));
            } else {
                lemma_occurs_char(r, PROFILE_SECTION_BEGIN@, j, b - j);
            }
        }
    }
}

/// No begin marker starts inside `t + "\n\n"` in `t + "\n\n" + wrap(c)`,
/// when `t` is a prefix of a string that holds no begin marker.
proof fn lemma_no_begin_in_prefix(x: Seq<char>, t: Seq<char>, c: Seq<char>)
    requires
        t.len() <= x.len(),
        t == x.take(t.len() as int),
        forall|j: int| 0 <= j ==> !occurs_at(x, PROFILE_SECTION_BEGIN@, j),
    ensures
        forall|j: int|
            0 <= j < t.len() + 2 ==> !occurs_at(
                (t + seq!['\n', '\n']) + wrap_spec(c) + Seq::<char>::empty(),
                PROFILE_SECTION_BEGIN@,
                j,
            ),
{
    lemma_marker_chars();
    let r = (t + seq!['\n', '\n']) + wrap_spec(c) + Seq::<char>::empty();
    let tl = t.len() as int;
    assert forall|i: int| 0 <= i < tl implies #[trigger] r[i] == x[i] by {
        assert(t[i] == x[i]);
    }
    assert(r[tl] == '\n');
    assert(r[tl + 1] == '\n');
    assert forall|j: int| 0 <= j < tl + 2 implies !occurs_at(r, PROFILE_SECTION_BEGIN@, j) by {
        if occurs_at(r, PROFILE_SECTION_BEGIN@, j) {
            if j + 27 <= tl {
                assert(x.subrange(j, j + 27) =~= PROFILE_SECTION_BEGIN@) by {
                    assert forall|k: int| 0 <= k < 27 implies x.subrange(j, j + 27)[k]
                        == PROFILE_SECTION_BEGIN@[k] by {
                        lemma_occurs_char(r, PROFILE_SECTION_BEGIN@, j, k);
                        assert(r[j + k] == x[j + k]);
                    }
                }
                assert(occurs_at(x, PROFILE_SECTION_BEGIN@, j));
            } else if j <= tl {
                lemma_occurs_char(r, PROFILE_SECTION_BEGIN@, j, tl - j);
            } else {
                lemma_occurs_char(r, PROFILE_SECTION_BEGIN@, j, 0);
            }
        }
    }
}

/// A begin marker in the file is followed by an end marker.
pub open spec fn no_dangling_begin(existing: Seq<char>) -> bool {
    find_from_spec(existing, PROFILE_SECTION_BEGIN@, 0) is Some ==> section_bounds(existing) is Some
}

/// Merging the same profile content again changes nothing, provided the
/// content holds no end marker (which would cut the section short) and the
/// file, unless it is replaced whole, holds no begin marker without an end
/// marker after it (which would claim the user's text for the section).
pub proof fn law_merge_idempotent(existing: Seq<char>, new_content: Seq<char>)
    requires
        !contains_sub(new_content, PROFILE_SECTION_END@),
        no_dangling_begin(existing) || OLD_PROFILE_HEADER@.is_prefix_of(existing)
            || seed_template_spec(existing),
    ensures
        merge_profile_spec(merge_profile_spec(existing, new_content), new_content)
            == merge_profile_spec(existing, new_content),
{
    lemma_marker_chars();
    let d = wrap_spec(new_content);
    let r = merge_profile_spec(existing, new_content);
    match section_bounds(existing) {
        Some((b, e)) => {
            lemma_no_begin_before_section(existing, new_content, b, e);
            assert(existing.take(b).len() == b);
            lemma_bounds_of_wrapped(existing.take(b), new_content, existing.skip(e));
            let p = existing.take(b);
            let s = existing.skip(e);
            assert((p + d + s).take(p.len() as int) =~= p);
            assert((p + d + s).skip((p.len() + d.len()) as int) =~= s);
        },
        None => {
            lemma_find_from(existing, PROFILE_SECTION_BEGIN@, 0);
            let t = trim_end_spec(existing, CharClass::Whitespace);
            lemma_trail_count_le(existing, CharClass::Whitespace);
            let e: Seq<char> = Seq::empty();
            if OLD_PROFILE_HEADER@.is_prefix_of(existing) || seed_template_spec(existing)
                || t.len() == 0 {
                assert(r =~= Seq::<char>::empty() + d + e);
                lemma_bounds_of_wrapped(Seq::empty(), new_content, e);
                assert(r.take(0) =~= Seq::<char>::empty());
                assert(r.skip(d.len() as int) =~= e);
            } else {
                let p = t + seq!['\n', '\n'];
                assert(r =~= p + d + e);
                lemma_no_begin_in_prefix(existing, t, new_content);
                lemma_bounds_of_wrapped(p, new_content, e);
                assert(r.take(p.len() as int) =~= p);
                assert(r.skip((p.len() + d.len()) as int) =~= e);
            }
        },
    }
}

/// The merged file always holds the wrapped profile content.
pub proof fn law_merge_holds_section(existing: Seq<char>, new_content: Seq<char>)
    ensures
        contains_sub(merge_profile_spec(existing, new_content), wrap_spec(new_content)),
{
    let d = wrap_spec(new_content);
    let r = merge_profile_spec(existing, new_content);
    match section_bounds(existing) {
        Some((b, e)) => {
            lemma_no_begin_before_section(existing, new_content, b, e);
            assert(r.subrange(b, b + d.len()) =~= d);
            assert(occurs_at(r, d, b));
        },
        None => {
            lemma_trail_count_le(existing, CharClass::Whitespace);
            let t = trim_end_spec(existing, CharClass::Whitespace);
            if OLD_PROFILE_HEADER@.is_prefix_of(existing) || seed_template_spec(existing)
                || t.len() == 0 {
                assert(r.subrange(0, d.len() as int) =~= d);
                assert(occurs_at(r, d, 0));
            } else {
                assert(r.subrange(t.len() + 2int, t.len() + 2int + d.len()) =~= d);
                assert(occurs_at(r, d, t.len() + 2int));
            }
        },
    }
}

} // verus!
