//! Document metadata: hygiene settings and the metadata merge chain.
use vstd::prelude::*;

use crate::config::strings_view;
use crate::document::{CONFIG_FILE_NAME, last_index_of, rfind_char};
use crate::text::{chars_eq, chars_of, slice_chars, string_of};

verus! {

/// Minimum allowed `retention_days` to prevent accidental mass-deletion.
pub const MIN_RETENTION_DAYS: u32 = 1;

/// Hygiene (auto-cleanup) settings for a folder.
#[derive(Debug, Clone, PartialEq, Eq, Structural)]
pub struct HygieneMetadata {
    /// Whether this folder is a hygiene target.
    pub enabled: bool,
    /// Delete documents older than this many days (minimum: 1).
    pub retention_days: u32,
}

/// Retention used when none is given.
pub fn default_retention_days() -> (d: u32)
    ensures
        d == 30,
{
    30
}

/// A configured retention, raised to the minimum of one day.
pub fn clamp_retention_days(value: u32) -> (d: u32)
    ensures
        d == if value < MIN_RETENTION_DAYS {
            MIN_RETENTION_DAYS
        } else {
            value
        },
{
    if value < MIN_RETENTION_DAYS {
        MIN_RETENTION_DAYS
    } else {
        value
    }
}

/// The last position of `x` in `s`.
pub open spec fn last_position(s: Seq<Seq<char>>, x: Seq<char>) -> Option<int> {
    if exists|k: int| 0 <= k < s.len() && s[k] == x {
        Some(
            choose|k: int|
                0 <= k < s.len() && s[k] == x && forall|j: int| k < j < s.len() ==> s[j] != x,
        )
    } else {
        None
    }
}

/// The `.config` document nearest to `path`: walking up from the path's
/// parent directory, the first directory holding one, else the root's.
/// Among configs with the same path the last one counts.
pub open spec fn nearest_config_spec(path: Seq<char>, configs: Seq<Seq<char>>) -> Option<int>
    decreases path.len(),
{
    match last_index_of(path, '/') {
        Some(i) => {
            proof {
                crate::document::lemma_after_last(path, '/');
            }
            let parent = path.take(i);
            match last_position(configs, parent + "/"@ + CONFIG_FILE_NAME@) {
                Some(k) => Some(k),
                None => nearest_config_spec(parent, configs),
            }
        },
        None => last_position(configs, CONFIG_FILE_NAME@),
    }
}

proof fn lemma_exists_last(s: Seq<Seq<char>>, x: Seq<char>)
    requires
        exists|k: int| 0 <= k < s.len() && s[k] == x,
    ensures
        exists|k: int|
            0 <= k < s.len() && s[k] == x && forall|j: int| k < j < s.len() ==> s[j] != x,
    decreases s.len(),
{
    if s.last() == x {
        let k = s.len() - 1;
        assert(0 <= k < s.len() && s[k] == x && forall|j: int| k < j < s.len() ==> s[j] != x);
    } else {
        let t = s.drop_last();
        let k0 = choose|k: int| 0 <= k < s.len() && s[k] == x;
        assert(k0 < t.len() && t[k0] == x);
        lemma_exists_last(t, x);
        let k = choose|k: int|
            0 <= k < t.len() && t[k] == x && forall|j: int| k < j < t.len() ==> t[j] != x;
        assert forall|j: int| k < j < s.len() implies s[j] != x by {
            if j < t.len() {
                assert(t[j] == s[j]);
            }
        }
        assert(s[k] == t[k]);
    }
}

proof fn lemma_last_position(s: Seq<Seq<char>>, x: Seq<char>)
    ensures
        last_position(s, x) is Some <==> s.contains(x),
        last_position(s, x) matches Some(k) ==> 0 <= k < s.len() && s[k] == x,
{
    if exists|k: int| 0 <= k < s.len() && s[k] == x {
        lemma_exists_last(s, x);
    }
}

/// Which `.config` applies to a path: when the root `.config` exists some
/// `.config` always applies, whatever the depth of the path; and the one
/// found is the root's or that of a directory enclosing the path.
pub proof fn law_nearest_config(path: Seq<char>, configs: Seq<Seq<char>>)
    ensures
        configs.contains(CONFIG_FILE_NAME@) ==> nearest_config_spec(path, configs) is Some,
        nearest_config_spec(path, configs) matches Some(k) ==> 0 <= k < configs.len() && (
        configs[k] == CONFIG_FILE_NAME@ || exists|j: int|
            0 <= j < path.len() && path[j] == '/' && configs[k] == path.take(j) + "/"@
                + CONFIG_FILE_NAME@),
    decreases path.len(),
{
    crate::document::lemma_after_last(path, '/');
    match last_index_of(path, '/') {
        Some(i) => {
            let parent = path.take(i);
            let x = parent + "/"@ + CONFIG_FILE_NAME@;
            lemma_last_position(configs, x);
            match last_position(configs, x) {
                Some(k) => {
                    assert(0 <= i < path.len() && path[i] == '/' && configs[k] == path.take(i) + "/"@
                        + CONFIG_FILE_NAME@);
                },
                None => {
                    law_nearest_config(parent, configs);
                    if let Some(k) = nearest_config_spec(parent, configs) {
                        if configs[k] != CONFIG_FILE_NAME@ {
                            let j = choose|j: int|
                                0 <= j < parent.len() && parent[j] == '/' && configs[k] == parent.take(j)
                                    + "/"@ + CONFIG_FILE_NAME@;
                            assert(parent.take(j) =~= path.take(j));
                            assert(path[j] == parent[j]);
                        }
                    }
                },
            }
        },
        None => {
            lemma_last_position(configs, CONFIG_FILE_NAME@);
        },
    }
}

/// The last position in `configs` of `x`.
fn last_position_of(configs: &[String], x: &[char]) -> (r: Option<usize>)
    ensures
        match r {
            Some(k) => last_position(strings_view(configs@), x@) == Some(k as int),
            None => last_position(strings_view(configs@), x@) is None,
        },
{
    let ghost cv = strings_view(configs@);
    let mut k = configs.len();
    while k > 0
        invariant
            cv == strings_view(configs@),
            0 <= k <= configs@.len(),
            forall|j: int| k <= j < configs@.len() ==> cv[j] != x@,
        decreases k,
    {
        let c = chars_of(configs[k - 1].as_str());
        if chars_eq(c.as_slice(), x) {
            assert(cv[k - 1] == x@);
            proof {
                let w = choose|j: int|
                    0 <= j < cv.len() && cv[j] == x@ && forall|i: int| j < i < cv.len() ==> cv[i] != x@;
                assert(0 <= (k - 1) < cv.len() && cv[k - 1] == x@ && forall|i: int| k - 1 < i < cv.len() ==> cv[i] != x@);
                if w < k - 1 {
                    assert(cv[k - 1] != x@);
                } else if w > k - 1 {
                    assert(cv[w] != x@);
                }
            }
            return Some(k - 1);
        }
        k = k - 1;
    }
    None
}

/// Position in `configs` (the paths of the workspace's `.config` documents)
/// of the config nearest to `path`, as [`nearest_config_spec`].
pub fn find_nearest_config(path: &str, configs: &[String]) -> (r: Option<usize>)
    ensures
        match r {
            Some(k) => nearest_config_spec(path@, strings_view(configs@)) == Some(k as int),
            None => nearest_config_spec(path@, strings_view(configs@)) is None,
        },
{
    let mut current = chars_of(path);
    let cfg = chars_of(CONFIG_FILE_NAME);
    let ghost cv = strings_view(configs@);
    loop
        invariant
            cv == strings_view(configs@),
            cfg@ == CONFIG_FILE_NAME@,
            nearest_config_spec(path@, cv) == nearest_config_spec(current@, cv),
        decreases current@.len(),
    {
        proof {
            crate::document::lemma_after_last(current@, '/');
        }
        let n = current.len();
        match rfind_char(current.as_slice(), '/') {
            Some(i) => {
                let parent = slice_chars(current.as_slice(), 0, i);
                assert(parent@ =~= current@.take(i as int));
                let mut cand = slice_chars(parent.as_slice(), 0, parent.len());
                cand.push('/');
                assert(cand@ =~= parent@ + seq!['/'] + cfg@.take(0));
                let mut j: usize = 0;
                while j < cfg.len()
                    invariant
                        0 <= j <= cfg@.len(),
                        cand@ == parent@ + seq!['/'] + cfg@.take(j as int),
                    decreases cfg.len() - j,
                {
                    cand.push(cfg[j]);
                    assert(cfg@.take(j + 1) =~= cfg@.take(j as int).push(cfg@[j as int]));
                    assert(cand@ =~= parent@ + seq!['/'] + cfg@.take(j + 1));
                    j = j + 1;
                }
                proof {
                    reveal_strlit("/");
                    assert(cfg@.take(cfg@.len() as int) =~= cfg@);
                    assert("/"@ =~= seq!['/']);
                    assert(cand@ =~= parent@ + "/"@ + CONFIG_FILE_NAME@);
                }
                match last_position_of(configs, cand.as_slice()) {
                    Some(k) => {
                        return Some(k);
                    },
                    None => {
                        current = parent;
                    },
                }
            },
            None => {
                return last_position_of(configs, cfg.as_slice());
            },
        }
    }
}

/// The top-level fields of a metadata object, later fields winning over
/// earlier ones with the same key.
pub open spec fn fields_map(fs: Seq<(String, serde_json::Value)>) -> Map<Seq<char>, serde_json::Value>
    decreases fs.len(),
{
    if fs.len() == 0 {
        Map::empty()
    } else {
        fields_map(fs.drop_last()).insert(fs.last().0@, fs.last().1)
    }
}

/// No two fields share a key.
pub open spec fn distinct_keys(fs: Seq<(String, serde_json::Value)>) -> bool {
    forall|i: int, j: int| 0 <= i < j < fs.len() ==> (#[trigger] fs[i]).0@ != (#[trigger] fs[j]).0@
}

proof fn lemma_fields_map_keys(fs: Seq<(String, serde_json::Value)>, k: Seq<char>)
    ensures
        fields_map(fs).contains_key(k) <==> exists|i: int| 0 <= i < fs.len() && (#[trigger] fs[i]).0@ == k,
    decreases fs.len(),
{
    if fs.len() > 0 {
        let p = fs.drop_last();
        lemma_fields_map_keys(p, k);
        if exists|i: int| 0 <= i < p.len() && (#[trigger] p[i]).0@ == k {
            let i = choose|i: int| 0 <= i < p.len() && (#[trigger] p[i]).0@ == k;
            assert(fs[i] == p[i]);
        }
        if exists|i: int| 0 <= i < fs.len() && (#[trigger] fs[i]).0@ == k {
            let i = choose|i: int| 0 <= i < fs.len() && (#[trigger] fs[i]).0@ == k;
            if i < p.len() {
                assert(p[i] == fs[i]);
            }
        }
    }
}

/// Replacing the field with key `k` in a list of distinct keys is inserting `k`.
proof fn lemma_fields_map_update(
    fs: Seq<(String, serde_json::Value)>,
    i: int,
    f: (String, serde_json::Value),
)
    requires
        distinct_keys(fs),
        0 <= i < fs.len(),
        fs[i].0@ == f.0@,
    ensures
        fields_map(fs.update(i, f)) == fields_map(fs).insert(f.0@, f.1),
        distinct_keys(fs.update(i, f)),
    decreases fs.len(),
{
    let u = fs.update(i, f);
    assert forall|a: int, b: int| 0 <= a < b < u.len() implies (#[trigger] u[a]).0@ != (
    #[trigger] u[b]).0@ by {
        assert(fs[a].0@ != fs[b].0@);
    }
    let p = fs.drop_last();
    if i == fs.len() - 1 {
        assert(u.drop_last() =~= p);
        assert forall|j: int| 0 <= j < p.len() implies (#[trigger] p[j]).0@ != f.0@ by {
            assert(fs[j].0@ != fs[i].0@);
        }
        lemma_fields_map_keys(p, f.0@);
        assert(fields_map(u) =~= fields_map(fs).insert(f.0@, f.1));
    } else {
        assert forall|a: int, b: int| 0 <= a < b < p.len() implies (#[trigger] p[a]).0@ != (
        #[trigger] p[b]).0@ by {
            assert(fs[a].0@ != fs[b].0@);
        }
        lemma_fields_map_update(p, i, f);
        assert(u.drop_last() =~= p.update(i, f));
        assert(u.last() == fs.last());
        assert(fs.last().0@ != f.0@) by {
            assert(fs[i].0@ != fs[fs.len() - 1].0@);
        }
        assert(fields_map(u) =~= fields_map(fs).insert(f.0@, f.1));
    }
}

/// The fields of a metadata value: none when it is not an object.
pub open spec fn object_fields_map(o: Option<Vec<(String, serde_json::Value)>>) -> Map<
    Seq<char>,
    serde_json::Value,
> {
    match o {
        Some(v) => fields_map(v@),
        None => Map::empty(),
    }
}

/// Set the field `f` in `out`: replace the field with its key, or add it.
fn upsert_field(out: &mut Vec<(String, serde_json::Value)>, f: (String, serde_json::Value))
    requires
        distinct_keys(old(out)@),
    ensures
        distinct_keys(final(out)@),
        fields_map(final(out)@) == fields_map(old(out)@).insert(f.0@, f.1),
{
    let mut i: usize = 0;
    while i < out.len()
        invariant
            out@ == old(out)@,
            distinct_keys(out@),
            0 <= i <= out@.len(),
            forall|j: int| 0 <= j < i ==> (#[trigger] out@[j]).0@ != f.0@,
        decreases out.len() - i,
    {
        if out[i].0 == f.0 {
            proof {
                lemma_fields_map_update(out@, i as int, f);
            }
            out.set(i, f);
            return;
        }
        i = i + 1;
    }
    let ghost before = out@;
    out.push(f);
    proof {
        assert(out@.drop_last() =~= before);
        assert forall|a: int, b: int| 0 <= a < b < out@.len() implies (#[trigger] out@[a]).0@ != (
        #[trigger] out@[b]).0@ by {
            if b < before.len() {
                assert(before[a].0@ != before[b].0@);
            }
        }
    }
}

/// Set each field of `src` in `out`, in order.
fn upsert_fields(out: &mut Vec<(String, serde_json::Value)>, src: Vec<(String, serde_json::Value)>)
    requires
        distinct_keys(old(out)@),
    ensures
        distinct_keys(final(out)@),
        fields_map(final(out)@) == fields_map(old(out)@).union_prefer_right(fields_map(src@)),
{
    let ghost whole = src@;
    let ghost start = fields_map(out@);
    assert(whole.len() <= usize::MAX) by {
        assert(src@.len() == src.len());
    }
    let mut src = src;
    let mut taken: usize = 0;
    assert(whole.take(0) =~= Seq::<(String, serde_json::Value)>::empty());
    assert(start.union_prefer_right(fields_map(whole.take(0))) =~= start);
    assert(whole.skip(0) =~= whole);
    while src.len() > 0
        invariant
            src@ == whole.skip(taken as int),
            0 <= taken <= whole.len(),
            whole.len() <= usize::MAX,
            distinct_keys(out@),
            fields_map(out@) == start.union_prefer_right(fields_map(whole.take(taken as int))),
        decreases src.len(),
    {
        let f = src.remove(0);
        proof {
            assert(f == whole[taken as int]);
            assert(whole.take(taken + 1).drop_last() =~= whole.take(taken as int));
            assert(whole.take(taken + 1).last() == f);
        }
        upsert_field(out, f);
        taken = taken + 1;
        proof {
            assert(src@ =~= whole.skip(taken as int));
            assert(fields_map(out@) =~= start.union_prefer_right(
                fields_map(whole.take(taken as int)),
            ));
        }
    }
    assert(whole.take(whole.len() as int) =~= whole);
}

/// Shallow merge of two metadata values, given by their top-level fields
/// (`None` for a value that is not an object): every field of the base,
/// with the overlay's fields winning. Nested objects are replaced whole.
pub fn merge_metadata_fields(
    base: Option<Vec<(String, serde_json::Value)>>,
    overlay: Option<Vec<(String, serde_json::Value)>>,
) -> (r: Vec<(String, serde_json::Value)>)
    ensures
        distinct_keys(r@),
        fields_map(r@) == object_fields_map(base).union_prefer_right(object_fields_map(overlay)),
{
    let mut out: Vec<(String, serde_json::Value)> = Vec::new();
    assert(fields_map(out@) =~= Map::<Seq<char>, serde_json::Value>::empty());
    match base {
        Some(b) => upsert_fields(&mut out, b),
        None => {},
    }
    assert(fields_map(out@) =~= Map::<Seq<char>, serde_json::Value>::empty().union_prefer_right(
        object_fields_map(base),
    ));
    match overlay {
        Some(o) => upsert_fields(&mut out, o),
        None => {},
    }
    assert(fields_map(out@) =~= object_fields_map(base).union_prefer_right(
        object_fields_map(overlay),
    ));
    out
}

} // verus!
