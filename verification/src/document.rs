//! Memory document types and the path predicates that classify documents.
use vstd::prelude::*;

use crate::paths;
use crate::text::{
    CharClass, ascii_lower, chars_eq, chars_of, ends_with, eq_ignore_ascii_case_spec, slice_chars,
    in_class, is_ws, lemma_trim_padding, starts_with, string_of, to_ascii_lower, trim_chars,
    trim_spec,
};

verus! {

/// Name of the folder-level configuration document.
///
/// A document at `{directory}/.config` carries metadata flags that apply
/// as defaults to all documents in that directory.
pub const CONFIG_FILE_NAME: &'static str = ".config";

/// Well-known scope identifier for admin-defined content (e.g., system prompt).
///
/// The double-underscore prefix prevents collision with real user IDs.
pub const ADMIN_SCOPE: &'static str = "__admin__";

/// The scope name is reserved for system use: after trimming whitespace it is
/// non-empty and either equals `__admin__` ignoring ASCII case, or lies in the
/// `__*__` namespace (starts and ends with `__`, at least four characters).
pub open spec fn reserved_scope_spec(scope: Seq<char>) -> bool {
    let t = trim_spec(scope, CharClass::Whitespace);
    t.len() > 0 && (eq_ignore_ascii_case_spec(t, ADMIN_SCOPE@) || ("__"@.is_prefix_of(t)
        && "__"@.is_suffix_of(t) && t.len() >= 4))
}

/// Whitespace around a scope name does not change whether it is reserved.
pub proof fn law_reserved_scope_ignores_padding(pre: Seq<char>, scope: Seq<char>, post: Seq<char>)
    requires
        forall|i: int| 0 <= i < pre.len() ==> is_ws(#[trigger] pre[i]),
        forall|i: int| 0 <= i < post.len() ==> is_ws(#[trigger] post[i]),
    ensures
        reserved_scope_spec(pre + scope + post) == reserved_scope_spec(scope),
{
    assert forall|i: int| 0 <= i < pre.len() implies in_class(CharClass::Whitespace, #[trigger] pre[i]) by {}
    assert forall|i: int| 0 <= i < post.len() implies in_class(CharClass::Whitespace, #[trigger] post[i]) by {}
    lemma_trim_padding(pre, scope, post, CharClass::Whitespace);
}

/// ASCII case-insensitive comparison of two character sequences.
pub fn chars_eq_ignore_ascii_case(a: &[char], b: &[char]) -> (r: bool)
    ensures
        r == eq_ignore_ascii_case_spec(a@, b@),
{
    if a.len() != b.len() {
        return false;
    }
    let mut i: usize = 0;
    while i < a.len()
        invariant
            a@.len() == b@.len(),
            0 <= i <= a@.len(),
            forall|j: int| 0 <= j < i ==> ascii_lower(#[trigger] a@[j]) == ascii_lower(b@[j]),
        decreases a.len() - i,
    {
        if to_ascii_lower(a[i]) != to_ascii_lower(b[i]) {
            return false;
        }
        i = i + 1;
    }
    true
}

/// Check if a scope identifier is reserved for system use.
///
/// Reserved scopes must never be assigned as a user ID. The check is
/// case-insensitive and ignores leading/trailing whitespace, and the entire
/// `__*__` namespace is reserved so future system scopes added alongside
/// `__admin__` cannot be impersonated by hand-crafted user IDs.
pub fn is_reserved_scope(scope: &str) -> (r: bool)
    ensures
        r == reserved_scope_spec(scope@),
{
    let s = chars_of(scope);
    let t = trim_chars(s.as_slice(), CharClass::Whitespace);
    if t.len() == 0 {
        return false;
    }
    let admin = chars_of(ADMIN_SCOPE);
    if chars_eq_ignore_ascii_case(t.as_slice(), admin.as_slice()) {
        return true;
    }
    let uu = chars_of("__");
    starts_with(t.as_slice(), uu.as_slice()) && ends_with(t.as_slice(), uu.as_slice()) && t.len()
        >= 4
}

/// The part of `s` after the last occurrence of `c` (all of `s` when `c` does
/// not occur): what `s.rsplit(c).next()` yields.
pub open spec fn after_last(s: Seq<char>, c: char) -> Seq<char>
    decreases s.len(),
{
    if s.len() == 0 {
        s
    } else if s.last() == c {
        Seq::empty()
    } else {
        after_last(s.drop_last(), c).push(s.last())
    }
}

/// Index of the last occurrence of `c` in `s` (`rfind`).
pub open spec fn last_index_of(s: Seq<char>, c: char) -> Option<int>
    decreases s.len(),
{
    if s.len() == 0 {
        None
    } else if s.last() == c {
        Some(s.len() - 1)
    } else {
        last_index_of(s.drop_last(), c)
    }
}

pub proof fn lemma_after_last(s: Seq<char>, c: char)
    ensures
        match last_index_of(s, c) {
            Some(i) => 0 <= i < s.len() && s[i] == c && after_last(s, c) == s.skip(i + 1),
            None => after_last(s, c) == s,
        },
        forall|j: int| 0 <= j < after_last(s, c).len() ==> #[trigger] after_last(s, c)[j] != c,
    decreases s.len(),
{
    if s.len() > 0 {
        lemma_after_last(s.drop_last(), c);
        if s.last() != c {
            match last_index_of(s.drop_last(), c) {
                Some(i) => {
                    assert(after_last(s, c) =~= s.skip(i + 1));
                },
                None => {
                    assert(after_last(s, c) =~= s);
                },
            }
        } else {
            assert(s.skip(s.len() as int) =~= Seq::<char>::empty());
        }
    }
}

/// Position of the last occurrence of `c`, computed.
pub fn rfind_char(s: &[char], c: char) -> (r: Option<usize>)
    ensures
        match r {
            Some(i) => last_index_of(s@, c) == Some(i as int) && i < s@.len(),
            None => last_index_of(s@, c) is None,
        },
{
    let mut k = s.len();
    assert(s@.take(k as int) =~= s@);
    while k > 0
        invariant
            0 <= k <= s@.len(),
            last_index_of(s@, c) == last_index_of(s@.take(k as int), c),
        decreases k,
    {
        assert(s@.take(k as int).drop_last() =~= s@.take(k - 1));
        if s[k - 1] == c {
            return Some(k - 1);
        }
        k = k - 1;
    }
    None
}

/// The last path component (`path.rsplit('/').next()`).
pub fn file_name_of(path: &str) -> (name: String)
    ensures
        name@ == after_last(path@, '/'),
{
    let s = chars_of(path);
    proof {
        lemma_after_last(s@, '/');
    }
    let n = s.len();
    match rfind_char(s.as_slice(), '/') {
        Some(i) => {
            assert(i < n);
            let r = slice_chars(s.as_slice(), i + 1, n);
            string_of(r.as_slice())
        },
        None => string_of(s.as_slice()),
    }
}

/// Check if a path refers to a `.config` document.
pub fn is_config_path(path: &str) -> (r: bool)
    ensures
        r == (after_last(path@, '/') == CONFIG_FILE_NAME@),
{
    let s = chars_of(path);
    proof {
        lemma_after_last(s@, '/');
    }
    let n = s.len();
    let name = match rfind_char(s.as_slice(), '/') {
        Some(i) => slice_chars(s.as_slice(), i + 1, n),
        None => s,
    };
    let cfg = chars_of(CONFIG_FILE_NAME);
    chars_eq(name.as_slice(), cfg.as_slice())
}

/// Paths treated as identity documents for multi-scope isolation.
///
/// These files are always read from the primary scope only — never from
/// secondary read scopes.
pub open spec fn identity_paths() -> Seq<Seq<char>> {
    seq![paths::IDENTITY@, paths::SOUL@, paths::AGENTS@, paths::USER@, paths::TOOLS@, paths::BOOTSTRAP@]
}

/// Whether `c` equals the characters of the string slice `s`.
pub fn chars_eq_str(c: &[char], s: &str) -> (r: bool)
    ensures
        r == (c@ == s@),
{
    let v = chars_of(s);
    chars_eq(c, v.as_slice())
}

/// Identity-path test on a character sequence.
pub fn chars_are_identity_path(p: &[char]) -> (r: bool)
    ensures
        r == identity_paths().contains(p@),
{
    let r = chars_eq_str(p, paths::IDENTITY) || chars_eq_str(p, paths::SOUL) || chars_eq_str(
        p,
        paths::AGENTS,
    ) || chars_eq_str(p, paths::USER) || chars_eq_str(p, paths::TOOLS) || chars_eq_str(
        p,
        paths::BOOTSTRAP,
    );
    proof {
        let ids = identity_paths();
        if r {
            if p@ == paths::IDENTITY@ {
                assert(ids[0] == p@);
            } else if p@ == paths::SOUL@ {
                assert(ids[1] == p@);
            } else if p@ == paths::AGENTS@ {
                assert(ids[2] == p@);
            } else if p@ == paths::USER@ {
                assert(ids[3] == p@);
            } else if p@ == paths::TOOLS@ {
                assert(ids[4] == p@);
            } else {
                assert(ids[5] == p@);
            }
        } else {
            assert forall|i: int| 0 <= i < ids.len() implies ids[i] != p@ by {}
        }
    }
    r
}

/// Check if a path is an identity document that must be isolated to primary scope.
pub fn is_identity_path(path: &str) -> (r: bool)
    ensures
        r == identity_paths().contains(path@),
{
    let s = chars_of(path);
    chars_are_identity_path(s.as_slice())
}

/// The lowercase hexadecimal digit of a value below sixteen.
pub open spec fn hex_digit(n: u8) -> char {
    if n < 10 {
        ('0' as u8 + n) as char
    } else {
        ('a' as u8 + (n - 10)) as char
    }
}

/// Lowercase hexadecimal of a byte string: two digits per byte, high
/// nibble first.
pub open spec fn hex_spec(bytes: Seq<u8>) -> Seq<char>
    decreases bytes.len(),
{
    if bytes.len() == 0 {
        Seq::empty()
    } else {
        hex_spec(bytes.drop_last()) + seq![hex_digit(bytes.last() / 16), hex_digit(bytes.last() % 16)]
    }
}

/// The SHA-256 digest of the UTF-8 encoding of a string.
pub uninterp spec fn sha256_utf8(content: Seq<char>) -> Seq<u8>;

/// `sha2::Sha256::digest` of the string's UTF-8 bytes. The contract claims
/// the result is a function of the content alone, 32 bytes long.
#[verifier::external_body]
fn sha256_of(content: &str) -> (r: Vec<u8>)
    ensures
        r@ == sha256_utf8(content@),
        r@.len() == 32,
{
    <sha2::Sha256 as sha2::Digest>::digest(content.as_bytes()).to_vec()
}

/// `hex::encode`: the contract claims two lowercase hexadecimal digits per
/// byte, high nibble first, as the crate's encoding table gives.
#[verifier::external_body]
fn hex_encode(bytes: &[u8]) -> (r: String)
    ensures
        r@ == hex_spec(bytes@),
{
    hex::encode(bytes)
}

/// Two hexadecimal digits per byte.
pub proof fn lemma_hex_len(bytes: Seq<u8>)
    ensures
        hex_spec(bytes).len() == 2 * bytes.len(),
    decreases bytes.len(),
{
    if bytes.len() > 0 {
        lemma_hex_len(bytes.drop_last());
    }
}

/// Compute a SHA-256 hash of content, returned as `"sha256:{hex}"`: the
/// 32-byte digest in 64 hexadecimal digits, 71 characters in all.
pub fn content_sha256(content: &str) -> (r: String)
    ensures
        r@ == "sha256:"@ + hex_spec(sha256_utf8(content@)),
        sha256_utf8(content@).len() == 32,
        r@.len() == 71,
{
    let digest = sha256_of(content);
    let h = hex_encode(digest.as_slice());
    proof {
        lemma_hex_len(digest@);
        reveal_strlit("sha256:");
    }
    crate::text::cat_str("sha256:", h.as_str())
}

} // verus!
