//! Memory documents as stored in a workspace.
use vstd::prelude::*;

use crate::document::{
    after_last, file_name_of, identity_paths, is_identity_path, last_index_of, rfind_char,
};
use crate::text::{char_is_ws, chars_of, is_ws, slice_chars, string_of};

verus! {

/// A JSON value, carried through unread.
#[verifier::external_type_specification]
#[verifier::external_body]
pub struct ExJsonValue(serde_json::Value);

/// An instant: Unix seconds and the nanoseconds within the second.
#[derive(Debug, Clone, Copy, PartialEq, Eq, Structural)]
pub struct Timestamp {
    pub secs: i64,
    pub nanos: u32,
}

/// A memory document stored in the database.
#[derive(Debug)]
pub struct MemoryDocument {
    /// Unique document ID.
    pub id: u128,
    /// User identifier.
    pub user_id: String,
    /// Optional agent ID for multi-agent isolation.
    pub agent_id: Option<u128>,
    /// File path within the workspace (e.g., "context/vision.md").
    pub path: String,
    /// Full document content.
    pub content: String,
    /// Creation time.
    pub created_at: Timestamp,
    /// Last update time.
    pub updated_at: Timestamp,
    /// Flexible metadata.
    pub metadata: serde_json::Value,
    /// Similarity fingerprint for near-duplicate detection, when computed.
    pub hdc_fingerprint: Option<Vec<u8>>,
}

/// `uuid::Uuid::new_v4()` as an integer: a random identifier, of which
/// nothing is stated.
#[verifier::external_body]
fn new_document_id() -> u128 {
    uuid::Uuid::new_v4().as_u128()
}

/// An empty JSON object (`serde_json::Value::Object` of a new map); the
/// value is carried through unread, so nothing is stated of it.
#[verifier::external_body]
fn empty_json_object() -> serde_json::Value {
    serde_json::Value::Object(serde_json::Map::new())
}

/// Number of maximal runs of non-whitespace characters: the words
/// `split_whitespace` yields.
pub open spec fn word_count_spec(s: Seq<char>) -> nat
    decreases s.len(),
{
    if s.len() == 0 {
        0
    } else {
        word_count_spec(s.drop_last()) + if !is_ws(s.last()) && (s.len() == 1 || is_ws(
            s[s.len() - 2],
        )) {
            1nat
        } else {
            0nat
        }
    }
}

impl MemoryDocument {
    /// A new empty document of `user_id` at `path`, with a fresh random id,
    /// both timestamps set to now, and empty metadata.
    pub fn new(user_id: &str, agent_id: Option<u128>, path: &str) -> (d: Self)
        ensures
            d.user_id@ == user_id@,
            d.agent_id == agent_id,
            d.path@ == path@,
            d.content@ == Seq::<char>::empty(),
            d.created_at == d.updated_at,
            d.hdc_fingerprint is None,
    {
        let (secs, nanos) = crate::ops::now_instant();
        let now = Timestamp { secs, nanos };
        MemoryDocument {
            id: new_document_id(),
            user_id: String::from_str(user_id),
            agent_id,
            path: String::from_str(path),
            content: String::new(),
            created_at: now,
            updated_at: now,
            metadata: empty_json_object(),
            hdc_fingerprint: None,
        }
    }

    /// The file name: the last path component.
    pub fn file_name(&self) -> (r: String)
        ensures
            r@ == after_last(self.path@, '/'),
    {
        file_name_of(self.path.as_str())
    }

    /// The parent directory: the path up to its last `/`, if any.
    pub fn parent_dir(&self) -> (r: Option<String>)
        ensures
            match last_index_of(self.path@, '/') {
                Some(i) => r matches Some(p) && p@ == self.path@.take(i),
                None => r is None,
            },
    {
        let s = chars_of(self.path.as_str());
        match rfind_char(s.as_slice(), '/') {
            Some(i) => {
                let p = slice_chars(s.as_slice(), 0, i);
                assert(p@ =~= self.path@.take(i as int));
                Some(string_of(p.as_slice()))
            },
            None => None,
        }
    }

    /// Whether the document has no content.
    pub fn is_empty(&self) -> (b: bool)
        ensures
            b == (self.content@.len() == 0),
    {
        let c = chars_of(self.content.as_str());
        c.len() == 0
    }

    /// Number of whitespace-separated words in the content.
    pub fn word_count(&self) -> (n: usize)
        ensures
            n == word_count_spec(self.content@),
    {
        let c = chars_of(self.content.as_str());
        let mut n: usize = 0;
        let mut i: usize = 0;
        while i < c.len()
            invariant
                c@ == self.content@,
                0 <= i <= c@.len(),
                n == word_count_spec(c@.take(i as int)),
                n <= i,
            decreases c.len() - i,
        {
            assert(c@.take(i + 1).drop_last() =~= c@.take(i as int));
            assert(c@.take(i + 1).last() == c@[i as int]);
            if i > 0 {
                assert(c@.take(i + 1)[i - 1] == c@[i - 1]);
            }
            let starts = !char_is_ws(c[i]) && (i == 0 || char_is_ws(c[i - 1]));
            if starts {
                n = n + 1;
            }
            i = i + 1;
        }
        assert(c@.take(c@.len() as int) =~= c@);
        n
    }

    /// Whether this is a well-known identity document.
    pub fn is_identity_document(&self) -> (b: bool)
        ensures
            b == identity_paths().contains(self.path@),
    {
        is_identity_path(self.path.as_str())
    }
}

} // verus!
