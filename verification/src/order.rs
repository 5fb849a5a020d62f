//! The order of strings: lexicographic by character, which is the order of
//! their UTF-8 bytes.
use vstd::prelude::*;

use crate::text::chars_of;

verus! {

/// `a` sorts strictly before `b`.
pub open spec fn lex_lt(a: Seq<char>, b: Seq<char>) -> bool
    decreases a.len(),
{
    if a.len() == 0 {
        b.len() > 0
    } else if b.len() == 0 {
        false
    } else if a[0] != b[0] {
        a[0] < b[0]
    } else {
        lex_lt(a.drop_first(), b.drop_first())
    }
}

/// No string sorts before itself, and of two strings at most one sorts
/// before the other.
pub proof fn lemma_lex_asym(a: Seq<char>, b: Seq<char>)
    ensures
        !(lex_lt(a, b) && lex_lt(b, a)),
        !lex_lt(a, a),
    decreases a.len(),
{
    if a.len() > 0 && b.len() > 0 && a[0] == b[0] {
        lemma_lex_asym(a.drop_first(), b.drop_first());
    }
    if a.len() > 0 {
        lemma_lex_asym(a.drop_first(), a.drop_first());
    }
}

/// Of two different strings one sorts before the other.
pub proof fn lemma_lex_total(a: Seq<char>, b: Seq<char>)
    ensures
        a != b ==> (lex_lt(a, b) || lex_lt(b, a)),
    decreases a.len(),
{
    if a.len() > 0 && b.len() > 0 && a[0] == b[0] {
        lemma_lex_total(a.drop_first(), b.drop_first());
        if a.drop_first() == b.drop_first() {
            assert(a =~= seq![a[0]] + a.drop_first());
            assert(b =~= seq![b[0]] + b.drop_first());
        }
    } else if a.len() == 0 && b.len() == 0 {
        assert(a =~= b);
    }
}

/// The order is transitive.
pub proof fn lemma_lex_trans(a: Seq<char>, b: Seq<char>, c: Seq<char>)
    requires
        lex_lt(a, b),
        lex_lt(b, c),
    ensures
        lex_lt(a, c),
    decreases a.len(),
{
    if a.len() > 0 && b.len() > 0 && c.len() > 0 && a[0] == b[0] && b[0] == c[0] {
        lemma_lex_trans(a.drop_first(), b.drop_first(), c.drop_first());
    }
}

/// How two strings compare.
#[derive(Debug, Clone, Copy, PartialEq, Eq, Structural)]
pub enum StrOrder {
    Less,
    Equal,
    Greater,
}

/// The comparison of `a` with `b`.
pub open spec fn compare_spec(a: Seq<char>, b: Seq<char>) -> StrOrder {
    if a == b {
        StrOrder::Equal
    } else if lex_lt(a, b) {
        StrOrder::Less
    } else {
        StrOrder::Greater
    }
}

/// Dropping a common prefix keeps the order.
proof fn lemma_lex_skip(a: Seq<char>, b: Seq<char>, k: int)
    requires
        0 <= k < a.len(),
        k < b.len(),
        a.take(k) == b.take(k),
        a[k] == b[k],
    ensures
        lex_lt(a.skip(k), b.skip(k)) == lex_lt(a.skip(k + 1), b.skip(k + 1)),
{
    assert(a.skip(k).drop_first() =~= a.skip(k + 1));
    assert(b.skip(k).drop_first() =~= b.skip(k + 1));
    assert(a.skip(k)[0] == a[k]);
    assert(b.skip(k)[0] == b[k]);
}

/// Compare two character sequences.
pub fn compare_chars(a: &[char], b: &[char]) -> (r: StrOrder)
    ensures
        r == compare_spec(a@, b@),
{
    let mut k: usize = 0;
    assert(a@.skip(0) =~= a@);
    assert(b@.skip(0) =~= b@);
    while k < a.len() && k < b.len()
        invariant
            0 <= k <= a@.len(),
            k <= b@.len(),
            a@.take(k as int) == b@.take(k as int),
            lex_lt(a@, b@) == lex_lt(a@.skip(k as int), b@.skip(k as int)),
            lex_lt(b@, a@) == lex_lt(b@.skip(k as int), a@.skip(k as int)),
        decreases a.len() - k,
    {
        if a[k] != b[k] {
            proof {
                assert(a@.skip(k as int)[0] == a@[k as int]);
                assert(b@.skip(k as int)[0] == b@[k as int]);
                lemma_lex_asym(a@, b@);
                if a@ == b@ {
                    assert(a@[k as int] == b@[k as int]);
                }
            }
            if a[k] < b[k] {
                return StrOrder::Less;
            } else {
                return StrOrder::Greater;
            }
        }
        proof {
            lemma_lex_skip(a@, b@, k as int);
            lemma_lex_skip(b@, a@, k as int);
            assert(a@.take(k + 1) =~= a@.take(k as int).push(a@[k as int]));
            assert(b@.take(k + 1) =~= b@.take(k as int).push(b@[k as int]));
        }
        k = k + 1;
    }
    proof {
        lemma_lex_asym(a@, b@);
        if a@.len() == b@.len() {
            assert(a@ =~= a@.take(k as int));
            assert(b@ =~= b@.take(k as int));
        } else {
            assert(a@.skip(k as int).len() == 0 || b@.skip(k as int).len() == 0);
        }
    }
    if a.len() == b.len() {
        StrOrder::Equal
    } else if a.len() < b.len() {
        StrOrder::Less
    } else {
        StrOrder::Greater
    }
}

/// Compare two strings.
pub fn compare_str(a: &str, b: &str) -> (r: StrOrder)
    ensures
        r == compare_spec(a@, b@),
{
    let ac = chars_of(a);
    let bc = chars_of(b);
    compare_chars(ac.as_slice(), bc.as_slice())
}

/// Each string sorts strictly before the next.
pub open spec fn strictly_sorted(s: Seq<Seq<char>>) -> bool {
    forall|i: int, j: int| 0 <= i < j < s.len() ==> lex_lt(s[i], s[j])
}

} // verus!
