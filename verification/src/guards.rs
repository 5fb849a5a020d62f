//! Path guards used by the memory tools: traversal-safe normalization and the
//! protected orchestrator paths.
use vstd::prelude::*;

use crate::text::{chars_eq, chars_of, ends_with, starts_with, string_of};

verus! {

/// The segments of `s` between occurrences of `c` (`str::split`): always at
/// least one segment; an empty input yields one empty segment.
pub open spec fn split_on(s: Seq<char>, c: char) -> Seq<Seq<char>>
    decreases s.len(),
{
    if s.len() == 0 {
        seq![Seq::empty()]
    } else {
        let prev = split_on(s.drop_last(), c);
        if s.last() == c {
            prev.push(Seq::empty())
        } else {
            prev.update(prev.len() - 1, prev.last().push(s.last()))
        }
    }
}

pub proof fn lemma_split_on_len(s: Seq<char>, c: char)
    ensures
        split_on(s, c).len() >= 1,
    decreases s.len(),
{
    if s.len() > 0 {
        lemma_split_on_len(s.drop_last(), c);
    }
}

/// A segment that survives normalization: non-empty and not `.`.
pub open spec fn kept_segment(seg: Seq<char>) -> bool {
    seg.len() > 0 && seg != seq!['.']
}

/// The kept segments, in order.
pub open spec fn keep_segments(segs: Seq<Seq<char>>) -> Seq<Seq<char>>
    decreases segs.len(),
{
    if segs.len() == 0 {
        segs
    } else {
        let prev = keep_segments(segs.drop_last());
        if kept_segment(segs.last()) {
            prev.push(segs.last())
        } else {
            prev
        }
    }
}

/// Segments joined with `/` between them.
pub open spec fn join_slash(segs: Seq<Seq<char>>) -> Seq<char>
    decreases segs.len(),
{
    if segs.len() == 0 {
        Seq::empty()
    } else if segs.len() == 1 {
        segs[0]
    } else {
        join_slash(segs.drop_last()) + seq!['/'] + segs.last()
    }
}

/// Traversal-safe normalization: `None` when some segment is `..`; otherwise
/// the non-empty, non-`.` segments joined with `/`.
pub open spec fn normalize_workspace_path_spec(path: Seq<char>) -> Option<Seq<char>> {
    let segs = split_on(path, '/');
    if segs.contains(seq!['.', '.']) {
        None
    } else {
        Some(join_slash(keep_segments(segs)))
    }
}

proof fn lemma_join_push(segs: Seq<Seq<char>>, x: Seq<char>)
    ensures
        join_slash(segs.push(x)) == if segs.len() == 0 {
            x
        } else {
            join_slash(segs) + seq!['/'] + x
        },
{
    assert(segs.push(x).drop_last() =~= segs);
}

/// Normalize a workspace path for security checks.
///
/// Strips `.` and empty (`//`) segments and rejects any `..` traversal
/// component outright. Returns `None` when the input contains `..` so the
/// caller can treat traversal attempts as protected (or reject them).
pub fn normalize_workspace_path_chars(path: &[char]) -> (r: Option<Vec<char>>)
    ensures
        match r {
            Some(v) => normalize_workspace_path_spec(path@) == Some(v@),
            None => normalize_workspace_path_spec(path@) is None,
        },
{
    let ghost s = path@;
    let mut out: Vec<char> = Vec::new();
    let mut cur: Vec<char> = Vec::new();
    let mut saw_parent = false;
    let mut i: usize = 0;
    assert(s.take(0) =~= Seq::<char>::empty());
    proof {
        lemma_split_on_len(s.take(0), '/');
    }
    while i < path.len()
        invariant
            s == path@,
            0 <= i <= s.len(),
            split_on(s.take(i as int), '/').len() >= 1,
            cur@ == split_on(s.take(i as int), '/').last(),
            saw_parent == split_on(s.take(i as int), '/').drop_last().contains(seq!['.', '.']),
            out@ == join_slash(keep_segments(split_on(s.take(i as int), '/').drop_last())),
            out@.len() == 0 <==> keep_segments(split_on(s.take(i as int), '/').drop_last()).len()
                == 0,
        decreases path.len() - i,
    {
        let ghost prev = split_on(s.take(i as int), '/');
        let c = path[i];
        assert(s.take(i + 1).drop_last() =~= s.take(i as int));
        proof {
            lemma_split_on_len(s.take(i + 1), '/');
        }
        if c == '/' {
            let ghost done = prev.drop_last();
            assert(split_on(s.take(i + 1), '/') == prev.push(Seq::<char>::empty()));
            assert(prev.push(Seq::<char>::empty()).drop_last() =~= prev);
            assert(prev =~= done.push(cur@));
            assert(done.push(cur@).drop_last() =~= done);
            let dd = cur.len() == 2 && cur[0] == '.' && cur[1] == '.';
            assert(dd == (cur@ =~= seq!['.', '.']));
            if dd {
                saw_parent = true;
                assert(prev[prev.len() - 1] == seq!['.', '.']);
            } else {
                assert(prev.contains(seq!['.', '.']) == done.contains(seq!['.', '.'])) by {
                    if prev.contains(seq!['.', '.']) {
                        let k = choose|k: int| 0 <= k < prev.len() && prev[k] == seq!['.', '.'];
                        assert(k != prev.len() - 1);
                        assert(done[k] == prev[k]);
                    }
                    if done.contains(seq!['.', '.']) {
                        let k = choose|k: int| 0 <= k < done.len() && done[k] == seq!['.', '.'];
                        assert(prev[k] == done[k]);
                    }
                }
            }
            let keep = cur.len() > 0 && !(cur.len() == 1 && cur[0] == '.');
            assert(keep == kept_segment(cur@)) by {
                if cur@.len() == 1 {
                    assert((cur@ == seq!['.']) == (cur@[0] == '.')) by {
                        if cur@[0] == '.' {
                            assert(cur@ =~= seq!['.']);
                        }
                    }
                }
            }
            proof {
                lemma_join_push(keep_segments(done), cur@);
            }
            if keep {
                if out.len() > 0 {
                    out.push('/');
                }
                let mut k: usize = 0;
                let ghost base = out@;
                while k < cur.len()
                    invariant
                        0 <= k <= cur@.len(),
                        out@ == base + cur@.take(k as int),
                    decreases cur.len() - k,
                {
                    out.push(cur[k]);
                    k = k + 1;
                    assert(out@ =~= base + cur@.take(k as int));
                }
                assert(cur@.take(cur@.len() as int) =~= cur@);
            }
            cur = Vec::new();
        } else {
            assert(split_on(s.take(i + 1), '/') == prev.update(
                prev.len() - 1,
                prev.last().push(c),
            ));
            assert(prev.update(prev.len() - 1, prev.last().push(c)).drop_last() =~= prev.drop_last());
            cur.push(c);
        }
        i = i + 1;
    }
    assert(s.take(s.len() as int) =~= s);
    let ghost segs = split_on(s, '/');
    let ghost done = segs.drop_last();
    assert(segs =~= done.push(cur@));
    assert(done.push(cur@).drop_last() =~= done);
    let dd = cur.len() == 2 && cur[0] == '.' && cur[1] == '.';
    assert(dd == (cur@ =~= seq!['.', '.']));
    if saw_parent || dd {
        proof {
            if dd {
                assert(segs[segs.len() - 1] == seq!['.', '.']);
            } else {
                let k = choose|k: int| 0 <= k < done.len() && done[k] == seq!['.', '.'];
                assert(segs[k] == done[k]);
            }
        }
        return None;
    }
    assert(!segs.contains(seq!['.', '.'])) by {
        if segs.contains(seq!['.', '.']) {
            let k = choose|k: int| 0 <= k < segs.len() && segs[k] == seq!['.', '.'];
            if k < done.len() {
                assert(done[k] == segs[k]);
            }
        }
    }
    let keep = cur.len() > 0 && !(cur.len() == 1 && cur[0] == '.');
    assert(keep == kept_segment(cur@)) by {
        if cur@.len() == 1 {
            if cur@[0] == '.' {
                assert(cur@ =~= seq!['.']);
            }
        }
    }
    proof {
        lemma_join_push(keep_segments(done), cur@);
    }
    if keep {
        if out.len() > 0 {
            out.push('/');
        }
        let mut k: usize = 0;
        let ghost base = out@;
        while k < cur.len()
            invariant
                0 <= k <= cur@.len(),
                out@ == base + cur@.take(k as int),
            decreases cur.len() - k,
        {
            out.push(cur[k]);
            k = k + 1;
            assert(out@ =~= base + cur@.take(k as int));
        }
        assert(cur@.take(cur@.len() as int) =~= cur@);
    }
    Some(out)
}

/// Normalize a workspace path for security checks (see
/// [`normalize_workspace_path_chars`]).
pub fn normalize_workspace_path(path: &str) -> (r: Option<String>)
    ensures
        match r {
            Some(v) => normalize_workspace_path_spec(path@) == Some(v@),
            None => normalize_workspace_path_spec(path@) is None,
        },
{
    let p = chars_of(path);
    match normalize_workspace_path_chars(p.as_slice()) {
        Some(v) => Some(string_of(v.as_slice())),
        None => None,
    }
}

/// A canonical path at or under one of the orchestrator roots where the
/// engine persists orchestrator and prompt overlay documents.
pub open spec fn protected_canonical(c: Seq<char>) -> bool {
    ||| c == ".system/engine/orchestrator"@
    ||| ".system/engine/orchestrator/"@.is_prefix_of(c)
    ||| c == "engine/orchestrator"@
    ||| "engine/orchestrator/"@.is_prefix_of(c)
}

/// The path controls the execution loop or system prompt: a logical alias
/// (`orchestrator:`, `prompt:`), a traversal attempt, or a normalized path
/// under an orchestrator root.
pub open spec fn protected_orchestrator_spec(path: Seq<char>) -> bool {
    ||| "orchestrator:"@.is_prefix_of(path)
    ||| "prompt:"@.is_prefix_of(path)
    ||| match normalize_workspace_path_spec(path) {
        None => true,
        Some(c) => protected_canonical(c),
    }
}

fn starts_with_str(s: &[char], p: &str) -> (b: bool)
    ensures
        b == p@.is_prefix_of(s@),
{
    let v = chars_of(p);
    starts_with(s, v.as_slice())
}

fn eq_str(s: &[char], p: &str) -> (b: bool)
    ensures
        b == (s@ == p@),
{
    let v = chars_of(p);
    chars_eq(s, v.as_slice())
}

/// Check if a path controls the execution loop or system prompt.
///
/// Covers both the logical aliases (`orchestrator:*`, `prompt:*`) used by
/// the engine and the physical workspace paths where these docs are
/// persisted. Input is normalized first so dot/double-slash/traversal
/// components cannot bypass the guard. Traversal attempts (`..` segments)
/// are treated as protected.
pub fn is_protected_orchestrator_path(path: &str) -> (r: bool)
    ensures
        r == protected_orchestrator_spec(path@),
{
    let p = chars_of(path);
    if starts_with_str(p.as_slice(), "orchestrator:") || starts_with_str(p.as_slice(), "prompt:") {
        return true;
    }
    match normalize_workspace_path_chars(p.as_slice()) {
        None => true,
        Some(c) => {
            eq_str(c.as_slice(), ".system/engine/orchestrator") || starts_with_str(
                c.as_slice(),
                ".system/engine/orchestrator/",
            ) || eq_str(c.as_slice(), "engine/orchestrator") || starts_with_str(
                c.as_slice(),
                "engine/orchestrator/",
            )
        },
    }
}

/// The normalized path is a `.py` file under an orchestrator root.
pub open spec fn protected_py_spec(path: Seq<char>) -> bool {
    match normalize_workspace_path_spec(path) {
        None => false,
        Some(c) => ".py"@.is_suffix_of(c) && (".system/engine/orchestrator/"@.is_prefix_of(c)
            || "engine/orchestrator/"@.is_prefix_of(c)),
    }
}

/// True when the normalized path resolves to a `.py` file inside the
/// orchestrator directory; such writes need syntax validation.
pub fn is_protected_py_path(path: &str) -> (r: bool)
    ensures
        r == protected_py_spec(path@),
{
    let p = chars_of(path);
    match normalize_workspace_path_chars(p.as_slice()) {
        None => false,
        Some(c) => {
            let py = chars_of(".py");
            if !ends_with(c.as_slice(), py.as_slice()) {
                return false;
            }
            starts_with_str(c.as_slice(), ".system/engine/orchestrator/") || starts_with_str(
                c.as_slice(),
                "engine/orchestrator/",
            )
        },
    }
}

/// ASCII letter.
pub open spec fn is_ascii_alpha(c: char) -> bool {
    ('a' <= c && c <= 'z') || ('A' <= c && c <= 'Z')
}

/// A local filesystem reference rather than a workspace-memory path: a
/// non-empty path that is absolute (starts with `/`), starts with `~/`, or
/// starts with a drive letter, `:` and a `\` or `/`.
pub open spec fn filesystem_path_spec(path: Seq<char>) -> bool {
    path.len() > 0 && (path[0] == '/' || "~/"@.is_prefix_of(path) || (path.len() >= 3
        && is_ascii_alpha(path[0]) && path[1] == ':' && (path[2] == '\\' || path[2] == '/')))
}

/// Detect paths that are clearly local filesystem references, not workspace-memory docs.
///
/// Examples: `/Users/.../file.md` (Unix absolute), `C:\Users\...` or
/// `D:/work/...` (Windows absolute), `~/notes.md` (home expansion shorthand).
pub fn looks_like_filesystem_path(path: &str) -> (r: bool)
    ensures
        r == filesystem_path_spec(path@),
{
    let p = chars_of(path);
    if p.len() == 0 {
        return false;
    }
    if p[0] == '/' || starts_with_str(p.as_slice(), "~/") {
        return true;
    }
    p.len() >= 3 && (('a' <= p[0] && p[0] <= 'z') || ('A' <= p[0] && p[0] <= 'Z')) && p[1] == ':'
        && (p[2] == '\\' || p[2] == '/')
}

/// No segment of a split holds the separator.
proof fn lemma_split_no_sep(s: Seq<char>, c: char)
    ensures
        forall|k: int, i: int|
            0 <= k < split_on(s, c).len() && 0 <= i < split_on(s, c)[k].len() ==> #[trigger] split_on(
                s,
                c,
            )[k][i] != c,
    decreases s.len(),
{
    if s.len() > 0 {
        lemma_split_no_sep(s.drop_last(), c);
        lemma_split_on_len(s.drop_last(), c);
        let prev = split_on(s.drop_last(), c);
        if s.last() != c {
            let r = split_on(s, c);
            assert forall|k: int, i: int| 0 <= k < r.len() && 0 <= i < r[k].len() implies r[k][i] != c by {
                if k == prev.len() - 1 {
                    if i < prev.last().len() {
                        assert(r[k][i] == prev[k][i]);
                    }
                } else {
                    assert(r[k] == prev[k]);
                }
            }
        }
    }
}

/// Appending text without the separator extends the last segment.
proof fn lemma_split_append_plain(s: Seq<char>, y: Seq<char>, c: char)
    requires
        forall|i: int| 0 <= i < y.len() ==> y[i] != c,
    ensures
        split_on(s + y, c) == split_on(s, c).update(
            split_on(s, c).len() - 1,
            split_on(s, c).last() + y,
        ),
    decreases y.len(),
{
    lemma_split_on_len(s, c);
    if y.len() == 0 {
        assert(s + y =~= s);
        assert(split_on(s, c).last() + y =~= split_on(s, c).last());
        assert(split_on(s, c).update(split_on(s, c).len() - 1, split_on(s, c).last())
            =~= split_on(s, c));
    } else {
        let y2 = y.drop_last();
        lemma_split_append_plain(s, y2, c);
        assert((s + y).drop_last() =~= s + y2);
        assert((s + y).last() == y.last());
        let prev = split_on(s, c);
        let l = prev.len() - 1;
        let mid = prev.update(l, prev.last() + y2);
        assert(mid.len() == prev.len());
        assert(mid.last() == prev.last() + y2);
        assert(y =~= y2.push(y.last()));
        assert((prev.last() + y2).push(y.last()) =~= prev.last() + y);
        assert(split_on(s + y, c) == mid.update(l, mid.last().push(y.last())));
        assert(mid.update(l, (prev.last() + y2).push(y.last())) =~= prev.update(l, prev.last() + y));
    }
}

/// Splitting joined segments that hold no `/` gives them back.
proof fn lemma_split_join(segs: Seq<Seq<char>>)
    requires
        segs.len() >= 1,
        forall|k: int, i: int| 0 <= k < segs.len() && 0 <= i < segs[k].len() ==> #[trigger] segs[k][i] != '/',
    ensures
        split_on(join_slash(segs), '/') == segs,
    decreases segs.len(),
{
    if segs.len() == 1 {
        lemma_split_append_plain(Seq::empty(), segs[0], '/');
        assert(Seq::<char>::empty() + segs[0] =~= segs[0]);
        assert(seq![Seq::<char>::empty()].update(0, Seq::<char>::empty() + segs[0]) =~= segs);
    } else {
        let init = segs.drop_last();
        let x = segs.last();
        assert forall|k: int, i: int| 0 <= k < init.len() && 0 <= i < init[k].len() implies #[trigger] init[k][i] != '/' by {
            assert(init[k] == segs[k]);
        }
        lemma_split_join(init);
        let j = join_slash(init);
        assert(join_slash(segs) == j + seq!['/'] + x);
        assert forall|i: int| 0 <= i < x.len() implies x[i] != '/' by {
            assert(segs[segs.len() - 1][i] == x[i]);
        }
        lemma_split_append_plain(j + seq!['/'], x, '/');
        assert((j + seq!['/']).drop_last() =~= j);
        assert(split_on(j + seq!['/'], '/') == init.push(Seq::empty()));
        assert(init.push(Seq::empty()).update(init.len() as int, Seq::<char>::empty() + x) =~= segs);
    }
}

/// Kept segments are segments of the input and are kept.
proof fn lemma_keep_segments(segs: Seq<Seq<char>>)
    ensures
        forall|k: int|
            0 <= k < keep_segments(segs).len() ==> kept_segment(#[trigger] keep_segments(segs)[k])
                && segs.contains(keep_segments(segs)[k]),
    decreases segs.len(),
{
    if segs.len() > 0 {
        lemma_keep_segments(segs.drop_last());
        let prev = keep_segments(segs.drop_last());
        assert forall|k: int| 0 <= k < keep_segments(segs).len() implies kept_segment(
            #[trigger] keep_segments(segs)[k],
        ) && segs.contains(keep_segments(segs)[k]) by {
            if k < prev.len() {
                assert(keep_segments(segs)[k] == prev[k]);
                let m = choose|m: int| 0 <= m < segs.drop_last().len() && segs.drop_last()[m] == prev[k];
                assert(segs[m] == prev[k]);
            } else {
                assert(segs[segs.len() - 1] == segs.last());
            }
        }
    }
}

/// Keeping segments that are all kept changes nothing.
proof fn lemma_keep_all(segs: Seq<Seq<char>>)
    requires
        forall|k: int| 0 <= k < segs.len() ==> kept_segment(#[trigger] segs[k]),
    ensures
        keep_segments(segs) == segs,
    decreases segs.len(),
{
    if segs.len() > 0 {
        assert forall|k: int| 0 <= k < segs.drop_last().len() implies kept_segment(#[trigger] segs.drop_last()[k]) by {
            assert(segs.drop_last()[k] == segs[k]);
        }
        lemma_keep_all(segs.drop_last());
        assert(kept_segment(segs[segs.len() - 1]));
        assert(segs.drop_last().push(segs.last()) =~= segs);
    }
}

/// Normalizing a normalized path changes nothing.
pub proof fn law_normalize_idempotent(path: Seq<char>)
    requires
        normalize_workspace_path_spec(path) is Some,
    ensures
        normalize_workspace_path_spec(normalize_workspace_path_spec(path)->0) == normalize_workspace_path_spec(
            path,
        ),
{
    let segs = split_on(path, '/');
    let kept = keep_segments(segs);
    let c = join_slash(kept);
    lemma_split_no_sep(path, '/');
    lemma_keep_segments(segs);
    if kept.len() == 0 {
        assert(c =~= Seq::<char>::empty());
        assert(split_on(c, '/') =~= seq![Seq::<char>::empty()]);
        assert(!seq![Seq::<char>::empty()].contains(seq!['.', '.'])) by {
            if seq![Seq::<char>::empty()].contains(seq!['.', '.']) {
                assert(seq![Seq::<char>::empty()][0] == Seq::<char>::empty());
            }
        }
        assert(keep_segments(seq![Seq::<char>::empty()]) =~= Seq::<Seq<char>>::empty()) by {
            let one = seq![Seq::<char>::empty()];
            assert(one.drop_last() =~= Seq::<Seq<char>>::empty());
            assert(keep_segments(Seq::<Seq<char>>::empty()) == Seq::<Seq<char>>::empty());
            assert(!kept_segment(one.last()));
        }
    } else {
        assert forall|k: int, i: int| 0 <= k < kept.len() && 0 <= i < kept[k].len() implies #[trigger] kept[k][i] != '/' by {
            assert(segs.contains(kept[k]));
            let m = choose|m: int| 0 <= m < segs.len() && segs[m] == kept[k];
            assert(segs[m][i] == kept[k][i]);
        }
        lemma_split_join(kept);
        lemma_keep_all(kept);
        if kept.contains(seq!['.', '.']) {
            let k = choose|k: int| 0 <= k < kept.len() && kept[k] == seq!['.', '.'];
            assert(segs.contains(kept[k]));
        }
    }
}

/// Dot segments, empty segments and traversal cannot slip a write past the
/// orchestrator guard: a path that normalizes is protected exactly when its
/// normalized form is (unless either begins with a logical alias, which is
/// protected by name), and a traversal attempt is always protected.
pub proof fn law_guard_sees_through_normalization(path: Seq<char>)
    ensures
        normalize_workspace_path_spec(path) is None ==> protected_orchestrator_spec(path),
        match normalize_workspace_path_spec(path) {
            Some(c) => !"orchestrator:"@.is_prefix_of(path) && !"prompt:"@.is_prefix_of(path)
                && !"orchestrator:"@.is_prefix_of(c) && !"prompt:"@.is_prefix_of(c)
                ==> (protected_orchestrator_spec(path) == protected_orchestrator_spec(c)),
            None => true,
        },
{
    if normalize_workspace_path_spec(path) is Some {
        law_normalize_idempotent(path);
    }
}

} // verus!
