//! Directory listings: entries, and the merge of listings from several scopes.
use vstd::prelude::*;

use crate::document::{after_last, file_name_of, identity_paths, is_identity_path};
use crate::config::strings_view;
use crate::order::{StrOrder, compare_str, lemma_lex_asym, lemma_lex_trans, lex_lt, strictly_sorted};
use crate::text::opt_view;

verus! {

/// An entry in a workspace directory listing.
#[derive(Debug)]
pub struct WorkspaceEntry {
    /// Path relative to listing directory.
    pub path: String,
    /// True if this is a directory (has children).
    pub is_directory: bool,
    /// Last update, in nanoseconds since the Unix epoch (latest among
    /// children for directories).
    pub updated_at: Option<i128>,
    /// Preview of content (first ~200 chars, None for directories).
    pub content_preview: Option<String>,
}

/// The value of a [`WorkspaceEntry`].
pub struct EntryView {
    pub path: Seq<char>,
    pub is_directory: bool,
    pub updated_at: Option<i128>,
    pub content_preview: Option<Seq<char>>,
}

impl View for WorkspaceEntry {
    type V = EntryView;

    open spec fn view(&self) -> EntryView {
        EntryView {
            path: self.path@,
            is_directory: self.is_directory,
            updated_at: self.updated_at,
            content_preview: opt_view(self.content_preview),
        }
    }
}

/// The values of a list of entries.
pub open spec fn entries_view(v: Seq<WorkspaceEntry>) -> Seq<EntryView> {
    v.map_values(|e: WorkspaceEntry| e@)
}

/// The paths of a list of entries.
pub open spec fn entry_paths(v: Seq<EntryView>) -> Seq<Seq<char>> {
    v.map_values(|e: EntryView| e.path)
}

/// `ex` updated by a later entry `e` for the same path: the newer
/// timestamp wins with its preview (a missing timestamp is filled in), and
/// if either is a directory the result is a directory without a preview.
pub open spec fn merge_step(ex: EntryView, e: EntryView) -> EntryView {
    let (ts, preview) = match (ex.updated_at, e.updated_at) {
        (Some(a), Some(b)) => if b > a {
            (Some(b), e.content_preview)
        } else {
            (ex.updated_at, ex.content_preview)
        },
        _ => if ex.updated_at is None {
            (e.updated_at, e.content_preview)
        } else {
            (ex.updated_at, ex.content_preview)
        },
    };
    if ex.is_directory || e.is_directory {
        EntryView { path: ex.path, is_directory: true, updated_at: ts, content_preview: None }
    } else {
        EntryView { path: ex.path, is_directory: false, updated_at: ts, content_preview: preview }
    }
}

/// The merged entry of each path, folding the entries in order.
pub open spec fn merge_fold(es: Seq<EntryView>) -> Map<Seq<char>, EntryView>
    decreases es.len(),
{
    if es.len() == 0 {
        Map::empty()
    } else {
        let m = merge_fold(es.drop_last());
        let e = es.last();
        if m.contains_key(e.path) {
            m.insert(e.path, merge_step(m[e.path], e))
        } else {
            m.insert(e.path, e)
        }
    }
}

/// `r` lists the merged entries of `es`, one per path, sorted by path.
pub open spec fn merged_listing(es: Seq<EntryView>, r: Seq<EntryView>) -> bool {
    let m = merge_fold(es);
    &&& strictly_sorted(entry_paths(r))
    &&& forall|p: Seq<char>| m.contains_key(p) <==> entry_paths(r).contains(p)
    &&& forall|k: int| 0 <= k < r.len() ==> m.contains_key(r[k].path) && m[r[k].path] == #[trigger] r[k]
}

impl WorkspaceEntry {
    /// The entry name (last path component).
    pub fn name(&self) -> (r: String)
        ensures
            r@ == after_last(self.path@, '/'),
    {
        file_name_of(self.path.as_str())
    }
}

fn clone_opt_string(o: &Option<String>) -> (r: Option<String>)
    ensures
        opt_view(r) == opt_view(*o),
{
    match o {
        Some(s) => Some(s.clone()),
        None => None,
    }
}

/// A copy of an entry.
pub fn copy_entry(e: &WorkspaceEntry) -> (r: WorkspaceEntry)
    ensures
        r@ == e@,
{
    WorkspaceEntry {
        path: e.path.clone(),
        is_directory: e.is_directory,
        updated_at: e.updated_at,
        content_preview: clone_opt_string(&e.content_preview),
    }
}

/// [`merge_step`], computed.
fn merge_entry(ex: &WorkspaceEntry, e: &WorkspaceEntry) -> (r: WorkspaceEntry)
    ensures
        r@ == merge_step(ex@, e@),
{
    let (ts, preview) = match (ex.updated_at, e.updated_at) {
        (Some(a), Some(b)) => if b > a {
            (Some(b), clone_opt_string(&e.content_preview))
        } else {
            (ex.updated_at, clone_opt_string(&ex.content_preview))
        },
        _ => if ex.updated_at.is_none() {
            (e.updated_at, clone_opt_string(&e.content_preview))
        } else {
            (ex.updated_at, clone_opt_string(&ex.content_preview))
        },
    };
    if ex.is_directory || e.is_directory {
        WorkspaceEntry {
            path: ex.path.clone(),
            is_directory: true,
            updated_at: ts,
            content_preview: None,
        }
    } else {
        WorkspaceEntry {
            path: ex.path.clone(),
            is_directory: false,
            updated_at: ts,
            content_preview: preview,
        }
    }
}

/// Where `path` belongs in a list sorted strictly by path: the first
/// position whose path does not sort before it, and whether that position
/// holds `path` itself.
fn sorted_position(r: &Vec<WorkspaceEntry>, path: &String) -> (res: (usize, bool))
    requires
        strictly_sorted(entry_paths(entries_view(r@))),
    ensures
        res.0 <= r@.len(),
        forall|k: int| 0 <= k < res.0 ==> lex_lt(#[trigger] r@[k].path@, path@),
        forall|k: int| res.0 <= k < r@.len() ==> lex_lt(path@, #[trigger] r@[k].path@) || (
        res.1 && k == res.0),
        res.1 == (res.0 < r@.len() && r@[res.0 as int].path@ == path@),
{
    let ghost ps = entry_paths(entries_view(r@));
    let mut j: usize = 0;
    while j < r.len()
        invariant
            ps == entry_paths(entries_view(r@)),
            strictly_sorted(ps),
            0 <= j <= r@.len(),
            forall|k: int| 0 <= k < j ==> lex_lt(#[trigger] r@[k].path@, path@),
        decreases r.len() - j,
    {
        match compare_str(r[j].path.as_str(), path.as_str()) {
            StrOrder::Less => {},
            StrOrder::Equal => {
                proof {
                    assert forall|k: int| j < k < r@.len() implies lex_lt(
                        path@,
                        #[trigger] r@[k].path@,
                    ) by {
                        assert(ps[j as int] == r@[j as int].path@);
                        assert(ps[k] == r@[k].path@);
                    }
                }
                return (j, true);
            },
            StrOrder::Greater => {
                proof {
                    lemma_lex_asym(r@[j as int].path@, path@);
                    crate::order::lemma_lex_total(r@[j as int].path@, path@);
                    assert forall|k: int| j <= k < r@.len() implies lex_lt(
                        path@,
                        #[trigger] r@[k].path@,
                    ) by {
                        if k > j {
                            assert(ps[j as int] == r@[j as int].path@);
                            assert(ps[k] == r@[k].path@);
                            lemma_lex_trans(path@, r@[j as int].path@, r@[k].path@);
                        }
                    }
                }
                return (j, false);
            },
        }
        j = j + 1;
    }
    (j, false)
}

/// Merge workspace entries from multiple scopes into a deduplicated list
/// sorted by path.
///
/// When the same path appears more than once, the entries are folded in
/// order: the most recent `updated_at` is kept with its preview, and if
/// any of them is a directory the merged entry is a directory, which has
/// no preview.
pub fn merge_workspace_entries(entries: Vec<WorkspaceEntry>) -> (r: Vec<WorkspaceEntry>)
    ensures
        merged_listing(entries_view(entries@), entries_view(r@)),
{
    let ghost ev = entries_view(entries@);
    let mut r: Vec<WorkspaceEntry> = Vec::new();
    let mut i: usize = 0;
    assert(ev.take(0) =~= Seq::<EntryView>::empty());
    while i < entries.len()
        invariant
            ev == entries_view(entries@),
            0 <= i <= entries@.len(),
            merged_listing(ev.take(i as int), entries_view(r@)),
        decreases entries.len() - i,
    {
        let e = &entries[i];
        let ghost m = merge_fold(ev.take(i as int));
        let ghost rv = entries_view(r@);
        assert(ev.take(i + 1).drop_last() =~= ev.take(i as int));
        assert(ev.take(i + 1).last() == e@);
        let (j, found) = sorted_position(&r, &e.path);
        if found {
            let ne = merge_entry(&r[j], e);
            proof {
                assert(rv[j as int] == r@[j as int]@);
                assert(m.contains_key(e@.path));
                assert(m[e@.path] == r@[j as int]@);
            }
            r.set(j, ne);
            proof {
                let r2 = entries_view(r@);
                let m2 = merge_fold(ev.take(i + 1));
                assert(r2 =~= rv.update(j as int, merge_step(rv[j as int], e@)));
                assert(entry_paths(r2) =~= entry_paths(rv));
                assert forall|k: int| 0 <= k < r2.len() implies m2.contains_key(r2[k].path)
                    && m2[r2[k].path] == #[trigger] r2[k] by {
                    if k != j {
                        assert(entry_paths(rv)[k] == rv[k].path);
                        assert(entry_paths(rv)[j as int] == rv[j as int].path);
                        if k < j {
                            assert(lex_lt(rv[k].path, rv[j as int].path));
                        } else {
                            assert(lex_lt(rv[j as int].path, rv[k].path));
                        }
                        lemma_lex_asym(rv[k].path, rv[j as int].path);
                    }
                }
            }
        } else {
            let ne = copy_entry(e);
            proof {
                assert forall|k: int| 0 <= k < rv.len() implies #[trigger] rv[k].path != e@.path by {
                    assert(rv[k] == r@[k]@);
                    lemma_lex_asym(e@.path, e@.path);
                }
                if m.contains_key(e@.path) {
                    assert(entry_paths(rv).contains(e@.path));
                    let k = choose|k: int| 0 <= k < entry_paths(rv).len() && entry_paths(rv)[k] == e@.path;
                    assert(rv[k].path == e@.path);
                }
            }
            r.insert(j, ne);
            proof {
                let r2 = entries_view(r@);
                let m2 = merge_fold(ev.take(i + 1));
                assert(r2 =~= rv.insert(j as int, e@));
                let p2 = entry_paths(r2);
                let p1 = entry_paths(rv);
                assert(p2 =~= p1.insert(j as int, e@.path));
                assert forall|a: int, b: int| 0 <= a < b < p2.len() implies lex_lt(p2[a], p2[b]) by {
                    if b < j {
                        assert(p2[a] == p1[a] && p2[b] == p1[b]);
                    } else if b == j {
                        assert(p2[a] == r@[a].path@);
                    } else if a == j {
                        assert(p2[b] == p1[b - 1]);
                        assert(p1[b - 1] == rv[b - 1].path);
                    } else if a < j {
                        assert(p2[a] == p1[a]);
                        assert(p2[b] == p1[b - 1]);
                        assert(p1[a] == rv[a].path);
                        assert(p1[b - 1] == rv[b - 1].path);
                        lemma_lex_trans(p1[a], e@.path, p1[b - 1]);
                    } else {
                        assert(p2[a] == p1[a - 1] && p2[b] == p1[b - 1]);
                    }
                }
                assert forall|p: Seq<char>| m2.contains_key(p) <==> p2.contains(p) by {
                    if p2.contains(p) {
                        let k = choose|k: int| 0 <= k < p2.len() && #[trigger] p2[k] == p;
                        if k < j {
                            assert(p1[k] == p);
                        } else if k > j {
                            assert(p1[k - 1] == p);
                        }
                    }
                    if m2.contains_key(p) && p != e@.path {
                        assert(p1.contains(p));
                        let k = choose|k: int| 0 <= k < p1.len() && #[trigger] p1[k] == p;
                        if k < j {
                            assert(p2[k] == p);
                        } else {
                            assert(p2[k + 1] == p);
                        }
                    }
                    if p == e@.path {
                        assert(p2[j as int] == p);
                    }
                }
                assert forall|k: int| 0 <= k < r2.len() implies m2.contains_key(r2[k].path)
                    && m2[r2[k].path] == #[trigger] r2[k] by {
                    if k < j {
                        assert(r2[k] == rv[k]);
                    } else if k > j {
                        assert(r2[k] == rv[k - 1]);
                    }
                }
            }
        }
        i = i + 1;
    }
    assert(ev.take(entries@.len() as int) =~= ev);
    r
}

/// Where `p` belongs in a list of strings sorted strictly: the first
/// position whose string does not sort before it, and whether that
/// position holds `p` itself.
fn string_position(r: &Vec<String>, p: &String) -> (res: (usize, bool))
    requires
        strictly_sorted(strings_view(r@)),
    ensures
        res.0 <= r@.len(),
        forall|k: int| 0 <= k < res.0 ==> lex_lt(#[trigger] strings_view(r@)[k], p@),
        forall|k: int|
            res.0 <= k < r@.len() ==> lex_lt(p@, #[trigger] strings_view(r@)[k]) || (res.1 && k
                == res.0),
        res.1 == (res.0 < r@.len() && strings_view(r@)[res.0 as int] == p@),
{
    let ghost rv = strings_view(r@);
    let mut j: usize = 0;
    while j < r.len()
        invariant
            rv == strings_view(r@),
            strictly_sorted(rv),
            0 <= j <= r@.len(),
            forall|k: int| 0 <= k < j ==> lex_lt(#[trigger] rv[k], p@),
        decreases r.len() - j,
    {
        assert(rv[j as int] == r@[j as int]@);
        match compare_str(r[j].as_str(), p.as_str()) {
            StrOrder::Less => {},
            StrOrder::Equal => {
                return (j, true);
            },
            StrOrder::Greater => {
                proof {
                    lemma_lex_asym(rv[j as int], p@);
                    crate::order::lemma_lex_total(rv[j as int], p@);
                    assert forall|k: int| j <= k < r@.len() implies lex_lt(p@, #[trigger] rv[k]) by {
                        if k > j {
                            lemma_lex_trans(p@, rv[j as int], rv[k]);
                        }
                    }
                }
                return (j, false);
            },
        }
        j = j + 1;
    }
    (j, false)
}

/// Sort paths and drop repeats: the result is strictly sorted and holds
/// exactly the input's paths.
pub fn sort_dedup_paths(paths: Vec<String>) -> (r: Vec<String>)
    ensures
        strictly_sorted(strings_view(r@)),
        forall|p: Seq<char>| strings_view(r@).contains(p) <==> strings_view(paths@).contains(p),
{
    let ghost pv = strings_view(paths@);
    let mut r: Vec<String> = Vec::new();
    let mut i: usize = 0;
    while i < paths.len()
        invariant
            pv == strings_view(paths@),
            0 <= i <= paths@.len(),
            strictly_sorted(strings_view(r@)),
            forall|p: Seq<char>|
                strings_view(r@).contains(p) <==> pv.take(i as int).contains(p),
        decreases paths.len() - i,
    {
        let ghost rv = strings_view(r@);
        let p = &paths[i];
        assert(pv.take(i + 1) =~= pv.take(i as int).push(p@));
        let (j, found) = string_position(&r, p);
        if found {
            proof {
                assert(rv[j as int] == p@);
                assert forall|q: Seq<char>| rv.contains(q) <==> pv.take(i + 1).contains(q) by {
                    if pv.take(i + 1).contains(q) {
                        let k = choose|k: int| 0 <= k < pv.take(i + 1).len() && #[trigger] pv.take(i + 1)[k] == q;
                        if k < i {
                            assert(pv.take(i as int)[k] == q);
                        } else {
                            assert(rv.contains(rv[j as int]));
                        }
                    }
                    if rv.contains(q) {
                        assert(pv.take(i as int).contains(q));
                        let k = choose|k: int| 0 <= k < pv.take(i as int).len() && #[trigger] pv.take(i as int)[k] == q;
                        assert(pv.take(i + 1)[k] == q);
                    }
                }
            }
        } else {
            r.insert(j, p.clone());
            proof {
                let r2 = strings_view(r@);
                assert forall|a: int, b: int| 0 <= a < b < r2.len() implies lex_lt(r2[a], r2[b]) by {
                    if b < j {
                        assert(r2[a] == rv[a] && r2[b] == rv[b]);
                    } else if b == j {
                        assert(r2[a] == rv[a]);
                    } else if a == j {
                        assert(r2[b] == rv[b - 1]);
                        if b - 1 > j {
                            lemma_lex_trans(p@, rv[j as int], rv[b - 1]);
                        }
                    } else if a < j {
                        assert(r2[a] == rv[a] && r2[b] == rv[b - 1]);
                        if b - 1 > j {
                            lemma_lex_trans(p@, rv[j as int], rv[b - 1]);
                        }
                        lemma_lex_trans(rv[a], p@, rv[b - 1]);
                    } else {
                        assert(r2[a] == rv[a - 1] && r2[b] == rv[b - 1]);
                    }
                }
                assert forall|q: Seq<char>| r2.contains(q) <==> pv.take(i + 1).contains(q) by {
                    if r2.contains(q) {
                        let k = choose|k: int| 0 <= k < r2.len() && #[trigger] r2[k] == q;
                        if k < j {
                            assert(rv[k] == q);
                        } else if k > j {
                            assert(rv[k - 1] == q);
                        } else {
                            assert(pv.take(i + 1)[i as int] == q);
                        }
                        if k != j {
                            let kk = if k < j { k } else { k - 1 };
                            assert(rv.contains(rv[kk]));
                            let m = choose|m: int| 0 <= m < pv.take(i as int).len() && #[trigger] pv.take(i as int)[m] == q;
                            assert(pv.take(i + 1)[m] == q);
                        }
                    }
                    if pv.take(i + 1).contains(q) {
                        let k = choose|k: int| 0 <= k < pv.take(i + 1).len() && #[trigger] pv.take(i + 1)[k] == q;
                        if k < i {
                            assert(pv.take(i as int)[k] == q);
                            assert(rv.contains(q));
                            let m = choose|m: int| 0 <= m < rv.len() && #[trigger] rv[m] == q;
                            if m < j {
                                assert(r2[m] == q);
                            } else {
                                assert(r2[m + 1] == q);
                            }
                        } else {
                            assert(r2[j as int] == q);
                        }
                    }
                }
            }
        }
        i = i + 1;
    }
    assert(pv.take(paths@.len() as int) =~= pv);
    r
}

/// Folding entries whose paths are all different keeps each entry as it is.
proof fn lemma_fold_distinct(s: Seq<EntryView>)
    requires
        forall|i: int, j: int| 0 <= i < j < s.len() ==> s[i].path != s[j].path,
    ensures
        forall|p: Seq<char>| merge_fold(s).contains_key(p) <==> entry_paths(s).contains(p),
        forall|k: int| 0 <= k < s.len() ==> merge_fold(s)[#[trigger] s[k].path] == s[k],
    decreases s.len(),
{
    if s.len() > 0 {
        let t = s.drop_last();
        lemma_fold_distinct(t);
        let e = s.last();
        assert forall|k: int| 0 <= k < t.len() implies #[trigger] t[k].path != e.path by {
            assert(t[k] == s[k]);
        }
        if merge_fold(t).contains_key(e.path) {
            assert(entry_paths(t).contains(e.path));
            let k = choose|k: int| 0 <= k < entry_paths(t).len() && #[trigger] entry_paths(t)[k] == e.path;
            assert(t[k].path == e.path);
        }
        assert(!merge_fold(t).contains_key(e.path));
        assert(merge_fold(s) == merge_fold(t).insert(e.path, e));
        assert forall|p: Seq<char>| merge_fold(s).contains_key(p) <==> entry_paths(s).contains(p) by {
            if entry_paths(s).contains(p) {
                let k = choose|k: int| 0 <= k < entry_paths(s).len() && #[trigger] entry_paths(s)[k] == p;
                if k < t.len() {
                    assert(entry_paths(t)[k] == p);
                    assert(entry_paths(t).contains(p));
                    assert(merge_fold(t).contains_key(p));
                } else {
                    assert(p == e.path);
                }
                assert(merge_fold(s).contains_key(p));
            }
            if merge_fold(t).contains_key(p) {
                assert(entry_paths(t).contains(p));
                let k = choose|k: int| 0 <= k < entry_paths(t).len() && #[trigger] entry_paths(t)[k] == p;
                assert(s[k] == t[k]);
                assert(entry_paths(s)[k] == p);
            }
            if p == e.path {
                assert(entry_paths(s)[s.len() - 1] == p);
            }
            if merge_fold(s).contains_key(p) {
                assert(merge_fold(t).contains_key(p) || p == e.path);
            }
        }
        assert forall|k: int| 0 <= k < s.len() implies merge_fold(s)[#[trigger] s[k].path] == s[k] by {
            if k < t.len() {
                assert(t[k] == s[k]);
            }
        }
    }
}

/// Merging a merged listing again changes nothing: the result lists itself.
pub proof fn law_merge_idempotent(es: Seq<EntryView>, r: Seq<EntryView>)
    requires
        merged_listing(es, r),
    ensures
        merged_listing(r, r),
{
    assert forall|i: int, j: int| 0 <= i < j < r.len() implies r[i].path != r[j].path by {
        assert(entry_paths(r)[i] == r[i].path);
        assert(entry_paths(r)[j] == r[j].path);
        lemma_lex_asym(r[i].path, r[j].path);
    }
    lemma_fold_distinct(r);
}

} // verus!
