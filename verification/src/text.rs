//! Character-level text helpers shared by the path, profile and config logic.
//!
//! Strings are handled as sequences of `char` (the view of `str`/`String`).
use vstd::prelude::*;

verus! {

/// Unicode `White_Space`: the characters for which `char::is_whitespace` holds.
pub open spec fn is_ws(c: char) -> bool {
    ||| c == '\t' || c == '\n' || c == '\u{0B}' || c == '\u{0C}' || c == '\r' || c == ' '
    ||| c == '\u{85}' || c == '\u{A0}' || c == '\u{1680}'
    ||| ('\u{2000}' <= c && c <= '\u{200A}')
    ||| c == '\u{2028}' || c == '\u{2029}' || c == '\u{202F}' || c == '\u{205F}' || c == '\u{3000}'
}

/// A class of characters that trimming strips.
#[derive(Clone, Copy)]
pub enum CharClass {
    /// Unicode whitespace.
    Whitespace,
    /// One specific character.
    One(char),
}

/// Whether `c` belongs to the class.
pub open spec fn in_class(cls: CharClass, c: char) -> bool {
    match cls {
        CharClass::Whitespace => is_ws(c),
        CharClass::One(d) => c == d,
    }
}

/// Whitespace test, as `char::is_whitespace`.
pub fn char_is_ws(c: char) -> (b: bool)
    ensures
        b == is_ws(c),
{
    c == '\t' || c == '\n' || c == '\u{0B}' || c == '\u{0C}' || c == '\r' || c == ' ' || c
        == '\u{85}' || c == '\u{A0}' || c == '\u{1680}' || ('\u{2000}' <= c && c <= '\u{200A}')
        || c == '\u{2028}' || c == '\u{2029}' || c == '\u{202F}' || c == '\u{205F}' || c
        == '\u{3000}'
}

/// Membership test for a character class.
pub fn class_contains(cls: CharClass, c: char) -> (b: bool)
    ensures
        b == in_class(cls, c),
{
    match cls {
        CharClass::Whitespace => char_is_ws(c),
        CharClass::One(d) => c == d,
    }
}

/// Number of leading characters of `s` in the class.
pub open spec fn lead_count(s: Seq<char>, cls: CharClass) -> nat
    decreases s.len(),
{
    if s.len() == 0 {
        0
    } else if in_class(cls, s[0]) {
        1 + lead_count(s.drop_first(), cls)
    } else {
        0
    }
}

/// Number of trailing characters of `s` in the class.
pub open spec fn trail_count(s: Seq<char>, cls: CharClass) -> nat
    decreases s.len(),
{
    if s.len() == 0 {
        0
    } else if in_class(cls, s.last()) {
        1 + trail_count(s.drop_last(), cls)
    } else {
        0
    }
}

/// `s` without its leading characters of the class (`trim_start_matches`).
pub open spec fn trim_start_spec(s: Seq<char>, cls: CharClass) -> Seq<char> {
    s.skip(lead_count(s, cls) as int)
}

/// `s` without its trailing characters of the class (`trim_end_matches`).
pub open spec fn trim_end_spec(s: Seq<char>, cls: CharClass) -> Seq<char> {
    s.take(s.len() - trail_count(s, cls))
}

/// `s` without leading and trailing characters of the class (`trim` / `trim_matches`).
pub open spec fn trim_spec(s: Seq<char>, cls: CharClass) -> Seq<char> {
    trim_end_spec(trim_start_spec(s, cls), cls)
}

pub proof fn lemma_lead_count(s: Seq<char>, cls: CharClass, i: int)
    requires
        0 <= i <= s.len(),
        forall|j: int| 0 <= j < i ==> in_class(cls, #[trigger] s[j]),
        i == s.len() || !in_class(cls, s[i]),
    ensures
        lead_count(s, cls) == i,
    decreases i,
{
    if i > 0 {
        assert forall|j: int| 0 <= j < i - 1 implies in_class(cls, #[trigger] s.drop_first()[j]) by {
            assert(s.drop_first()[j] == s[j + 1]);
        }
        if i - 1 < s.drop_first().len() {
            assert(s.drop_first()[i - 1] == s[i]);
        }
        lemma_lead_count(s.drop_first(), cls, i - 1);
    } else if s.len() > 0 {
    }
}

pub proof fn lemma_trail_count(s: Seq<char>, cls: CharClass, k: int)
    requires
        0 <= k <= s.len(),
        forall|j: int| s.len() - k <= j < s.len() ==> in_class(cls, #[trigger] s[j]),
        k == s.len() || !in_class(cls, s[s.len() - k - 1]),
    ensures
        trail_count(s, cls) == k,
    decreases k,
{
    if k > 0 {
        let t = s.drop_last();
        assert forall|j: int| t.len() - (k - 1) <= j < t.len() implies in_class(cls, #[trigger] t[j]) by {
            assert(t[j] == s[j]);
        }
        if k - 1 < t.len() {
            assert(t[t.len() - (k - 1) - 1] == s[s.len() - k - 1]);
        }
        lemma_trail_count(t, cls, k - 1);
    }
}

/// Count of leading class characters, computed.
pub fn lead_len(s: &[char], cls: CharClass) -> (n: usize)
    ensures
        n == lead_count(s@, cls),
        n <= s@.len(),
{
    let mut i: usize = 0;
    while i < s.len() && class_contains(cls, s[i])
        invariant
            0 <= i <= s@.len(),
            forall|j: int| 0 <= j < i ==> in_class(cls, #[trigger] s@[j]),
        decreases s.len() - i,
    {
        i = i + 1;
    }
    proof {
        lemma_lead_count(s@, cls, i as int);
    }
    i
}

/// Count of trailing class characters, computed.
pub fn trail_len(s: &[char], cls: CharClass) -> (n: usize)
    ensures
        n == trail_count(s@, cls),
        n <= s@.len(),
{
    let mut k: usize = 0;
    while k < s.len() && class_contains(cls, s[s.len() - k - 1])
        invariant
            0 <= k <= s@.len(),
            forall|j: int| s@.len() - k <= j < s@.len() ==> in_class(cls, #[trigger] s@[j]),
        decreases s.len() - k,
    {
        k = k + 1;
    }
    proof {
        lemma_trail_count(s@, cls, k as int);
    }
    k
}

/// The characters `s[from..to]`.
pub fn slice_chars(s: &[char], from: usize, to: usize) -> (r: Vec<char>)
    requires
        from <= to <= s@.len(),
    ensures
        r@ == s@.subrange(from as int, to as int),
{
    let mut r: Vec<char> = Vec::new();
    let mut i = from;
    while i < to
        invariant
            from <= i <= to <= s@.len(),
            r@ == s@.subrange(from as int, i as int),
        decreases to - i,
    {
        r.push(s[i]);
        i = i + 1;
        assert(r@ =~= s@.subrange(from as int, i as int));
    }
    r
}

/// Strip leading and trailing class characters.
pub fn trim_chars(s: &[char], cls: CharClass) -> (r: Vec<char>)
    ensures
        r@ == trim_spec(s@, cls),
{
    let a = lead_len(s, cls);
    let t = slice_chars(s, a, s.len());
    let b = trail_len(t.as_slice(), cls);
    slice_chars(t.as_slice(), 0, t.len() - b)
}

/// Strip trailing class characters.
pub fn trim_end_chars(s: &[char], cls: CharClass) -> (r: Vec<char>)
    ensures
        r@ == trim_end_spec(s@, cls),
{
    let b = trail_len(s, cls);
    slice_chars(s, 0, s.len() - b)
}

/// The characters of a string slice, in order.
pub fn chars_of(s: &str) -> (v: Vec<char>)
    ensures
        v@ == s@,
{
    let mut v: Vec<char> = Vec::new();
    for c in it: s.chars()
        invariant
            v@ == it.seq().take(it.index() as int),
    {
        v.push(c);
        assert(v@ =~= it.seq().take(it.index() + 1));
    }
    v
}

/// Build a `String` from its characters (`FromIterator<char>` for `String`).
#[verifier::external_body]
pub fn string_of(v: &[char]) -> (s: String)
    ensures
        s@ == v@,
{
    v.iter().collect()
}

/// Whether `p` is a prefix of `s`.
pub fn starts_with(s: &[char], p: &[char]) -> (b: bool)
    ensures
        b == p@.is_prefix_of(s@),
{
    if p.len() > s.len() {
        return false;
    }
    let mut i: usize = 0;
    while i < p.len()
        invariant
            p@.len() <= s@.len(),
            0 <= i <= p@.len(),
            forall|j: int| 0 <= j < i ==> p@[j] == s@[j],
        decreases p.len() - i,
    {
        if p[i] != s[i] {
            assert(p@[i as int] != s@.subrange(0, p@.len() as int)[i as int]);
            return false;
        }
        i = i + 1;
    }
    assert(p@ =~= s@.subrange(0, p@.len() as int));
    true
}

/// Whether `p` is a suffix of `s`.
pub fn ends_with(s: &[char], p: &[char]) -> (b: bool)
    ensures
        b == p@.is_suffix_of(s@),
{
    if p.len() > s.len() {
        return false;
    }
    let off = s.len() - p.len();
    let mut i: usize = 0;
    while i < p.len()
        invariant
            p@.len() <= s@.len(),
            off == s@.len() - p@.len(),
            off as int + p@.len() == s@.len(),
            s@.len() <= usize::MAX,
            0 <= i <= p@.len(),
            forall|j: int| 0 <= j < i ==> p@[j] == s@[off + j],
        decreases p.len() - i,
    {
        if p[i] != s[off + i] {
            assert(p@[i as int] != s@.subrange(off as int, s@.len() as int)[i as int]);
            return false;
        }
        i = i + 1;
    }
    assert(p@ =~= s@.subrange(off as int, s@.len() as int));
    true
}

/// Sequence equality.
pub fn chars_eq(a: &[char], b: &[char]) -> (r: bool)
    ensures
        r == (a@ == b@),
{
    if a.len() != b.len() {
        return false;
    }
    let r = starts_with(a, b);
    proof {
        if r {
            assert(a@ =~= b@);
        }
    }
    r
}

/// `pat` occurs in `s` starting at position `i`.
pub open spec fn occurs_at(s: Seq<char>, pat: Seq<char>, i: int) -> bool {
    0 <= i && i + pat.len() <= s.len() && s.subrange(i, i + pat.len()) == pat
}

/// `pat` occurs somewhere in `s` (`str::contains`).
pub open spec fn contains_sub(s: Seq<char>, pat: Seq<char>) -> bool {
    exists|i: int| occurs_at(s, pat, i)
}

/// Whether `pat` occurs in `s` at position `i`.
pub fn matches_at(s: &[char], pat: &[char], i: usize) -> (b: bool)
    ensures
        b == occurs_at(s@, pat@, i as int),
{
    if i > s.len() || pat.len() > s.len() - i {
        return false;
    }
    let mut k: usize = 0;
    while k < pat.len()
        invariant
            i + pat@.len() <= s@.len(),
            s@.len() <= usize::MAX,
            0 <= k <= pat@.len(),
            forall|j: int| 0 <= j < k ==> pat@[j] == s@[i + j],
        decreases pat.len() - k,
    {
        if pat[k] != s[i + k] {
            assert(s@.subrange(i as int, i + pat@.len())[k as int] != pat@[k as int]);
            return false;
        }
        k = k + 1;
    }
    assert(s@.subrange(i as int, i + pat@.len()) =~= pat@);
    true
}

/// First position at or after `start` where `pat` occurs in `s`.
pub fn find_from(s: &[char], pat: &[char], start: usize) -> (r: Option<usize>)
    ensures
        match r {
            Some(i) => start <= i && occurs_at(s@, pat@, i as int) && forall|j: int|
                start <= j < i ==> !occurs_at(s@, pat@, j),
            None => forall|j: int| start <= j ==> !occurs_at(s@, pat@, j),
        },
{
    if pat.len() > s.len() {
        return None;
    }
    let last = s.len() - pat.len();
    let mut i = start;
    while i < last
        invariant
            last + pat@.len() == s@.len(),
            start <= i,
            i <= last || i == start,
            forall|j: int| start <= j < i ==> !occurs_at(s@, pat@, j),
        decreases last - i,
    {
        if matches_at(s, pat, i) {
            return Some(i);
        }
        i = i + 1;
    }
    if i == last && matches_at(s, pat, i) {
        return Some(i);
    }
    None
}

/// First position where `pat` occurs in `s` (`str::find`).
pub fn find_sub(s: &[char], pat: &[char]) -> (r: Option<usize>)
    ensures
        match r {
            Some(i) => occurs_at(s@, pat@, i as int) && forall|j: int|
                0 <= j < i ==> !occurs_at(s@, pat@, j),
            None => !contains_sub(s@, pat@),
        },
{
    find_from(s, pat, 0)
}

/// Whether `pat` occurs in `s`.
pub fn contains_chars(s: &[char], pat: &[char]) -> (b: bool)
    ensures
        b == contains_sub(s@, pat@),
{
    match find_sub(s, pat) {
        Some(i) => true,
        None => false,
    }
}

/// `c` mapped to ASCII lower case (`char::to_ascii_lowercase`).
pub open spec fn ascii_lower(c: char) -> char {
    if 'A' <= c && c <= 'Z' {
        ((c as u32) + 32) as char
    } else {
        c
    }
}

/// ASCII case-insensitive equality (`str::eq_ignore_ascii_case`).
pub open spec fn eq_ignore_ascii_case_spec(a: Seq<char>, b: Seq<char>) -> bool {
    a.len() == b.len() && forall|i: int| 0 <= i < a.len() ==> ascii_lower(#[trigger] a[i]) == ascii_lower(b[i])
}

pub fn to_ascii_lower(c: char) -> (d: char)
    ensures
        d == ascii_lower(c),
{
    if 'A' <= c && c <= 'Z' {
        let b: u8 = ((c as u32) + 32) as u8;
        b as char
    } else {
        c
    }
}

/// The characters of an optional string.
pub open spec fn opt_view(o: Option<String>) -> Option<Seq<char>> {
    match o {
        Some(s) => Some(s@),
        None => None,
    }
}

/// The first position at or after `from` where `pat` occurs in `s`.
#[verifier::opaque]
pub open spec fn find_from_spec(s: Seq<char>, pat: Seq<char>, from: int) -> Option<int> {
    if exists|i: int| from <= i && #[trigger] occurs_at(s, pat, i) {
        Some(
            choose|i: int|
                from <= i && #[trigger] occurs_at(s, pat, i) && forall|j: int|
                    from <= j < i ==> !occurs_at(s, pat, j),
        )
    } else {
        None
    }
}

/// An occurrence at or after `from` has a least one at or after `from`.
proof fn lemma_least_occurrence(s: Seq<char>, pat: Seq<char>, from: int, i: int)
    requires
        from <= i,
        occurs_at(s, pat, i),
    ensures
        exists|k: int|
            from <= k && #[trigger] occurs_at(s, pat, k) && forall|j: int|
                from <= j < k ==> !occurs_at(s, pat, j),
    decreases i - from,
{
    if exists|j: int| from <= j < i && occurs_at(s, pat, j) {
        let j = choose|j: int| from <= j < i && occurs_at(s, pat, j);
        lemma_least_occurrence(s, pat, from, j);
    } else {
        assert(from <= i && occurs_at(s, pat, i) && forall|j: int|
            from <= j < i ==> !occurs_at(s, pat, j));
    }
}

/// What [`find_from_spec`] gives: the least occurrence at or after `from`,
/// or `None` when there is none.
pub proof fn lemma_find_from(s: Seq<char>, pat: Seq<char>, from: int)
    ensures
        match find_from_spec(s, pat, from) {
            Some(i) => from <= i && occurs_at(s, pat, i) && forall|j: int|
                from <= j < i ==> !occurs_at(s, pat, j),
            None => forall|j: int| from <= j ==> !occurs_at(s, pat, j),
        },
{
    reveal(find_from_spec);
    if exists|i: int| from <= i && #[trigger] occurs_at(s, pat, i) {
        let i = choose|i: int| from <= i && #[trigger] occurs_at(s, pat, i);
        lemma_least_occurrence(s, pat, from, i);
    }
}

/// The least occurrence at or after `from` is what [`find_from_spec`] gives.
pub proof fn lemma_find_first(s: Seq<char>, pat: Seq<char>, from: int, i: int)
    requires
        from <= i,
        occurs_at(s, pat, i),
        forall|j: int| from <= j < i ==> !occurs_at(s, pat, j),
    ensures
        find_from_spec(s, pat, from) == Some(i),
{
    lemma_find_from(s, pat, from);
    match find_from_spec(s, pat, from) {
        Some(k) => {
            if k < i {
                assert(!occurs_at(s, pat, k));
            } else if k > i {
                assert(!occurs_at(s, pat, i));
            }
        },
        None => {
            assert(!occurs_at(s, pat, i));
        },
    }
}

/// A match at `i` fixes each character of `s` it covers.
pub proof fn lemma_occurs_char(s: Seq<char>, pat: Seq<char>, i: int, k: int)
    requires
        occurs_at(s, pat, i),
        0 <= k < pat.len(),
    ensures
        s[i + k] == pat[k],
{
    assert(s.subrange(i, i + pat.len())[k] == pat[k]);
}

/// At most the whole string is trailing characters of a class.
pub proof fn lemma_trail_count_le(s: Seq<char>, cls: CharClass)
    ensures
        trail_count(s, cls) <= s.len(),
    decreases s.len(),
{
    if s.len() > 0 {
        lemma_trail_count_le(s.drop_last(), cls);
    }
}

pub proof fn lemma_lead_count_le(s: Seq<char>, cls: CharClass)
    ensures
        lead_count(s, cls) <= s.len(),
    decreases s.len(),
{
    if s.len() > 0 {
        lemma_lead_count_le(s.drop_first(), cls);
    }
}

/// Leading class characters of a concatenation: those of `a`, running on
/// into `b` when all of `a` is in the class.
pub proof fn lemma_lead_count_concat(a: Seq<char>, b: Seq<char>, cls: CharClass)
    ensures
        lead_count(a + b, cls) == if lead_count(a, cls) < a.len() {
            lead_count(a, cls) as int
        } else {
            (a.len() + lead_count(b, cls)) as int
        },
    decreases a.len(),
{
    if a.len() == 0 {
        assert(a + b =~= b);
    } else {
        assert((a + b)[0] == a[0]);
        if in_class(cls, a[0]) {
            assert((a + b).drop_first() =~= a.drop_first() + b);
            lemma_lead_count_concat(a.drop_first(), b, cls);
        }
    }
}

/// Trailing class characters of a concatenation: those of `b`, running on
/// into `a` when all of `b` is in the class.
pub proof fn lemma_trail_count_concat(a: Seq<char>, b: Seq<char>, cls: CharClass)
    ensures
        trail_count(a + b, cls) == if trail_count(b, cls) < b.len() {
            trail_count(b, cls) as int
        } else {
            (b.len() + trail_count(a, cls)) as int
        },
    decreases b.len(),
{
    if b.len() == 0 {
        assert(a + b =~= a);
    } else {
        assert((a + b).last() == b.last());
        if in_class(cls, b.last()) {
            assert((a + b).drop_last() =~= a + b.drop_last());
            lemma_trail_count_concat(a, b.drop_last(), cls);
        }
    }
}

/// Trimming ignores padding made of class characters on either side.
pub proof fn lemma_trim_padding(pre: Seq<char>, s: Seq<char>, post: Seq<char>, cls: CharClass)
    requires
        forall|i: int| 0 <= i < pre.len() ==> in_class(cls, #[trigger] pre[i]),
        forall|i: int| 0 <= i < post.len() ==> in_class(cls, #[trigger] post[i]),
    ensures
        trim_spec(pre + s + post, cls) == trim_spec(s, cls),
{
    let x = pre + s + post;
    let sp = s + post;
    assert(x =~= pre + sp);
    lemma_lead_count(pre, cls, pre.len() as int);
    lemma_trail_count(post, cls, post.len() as int);
    lemma_lead_count_concat(pre, sp, cls);
    lemma_lead_count_concat(s, post, cls);
    lemma_lead_count_le(s, cls);
    lemma_lead_count_le(sp, cls);
    assert(lead_count(x, cls) == pre.len() + lead_count(sp, cls));
    assert(trim_start_spec(x, cls) =~= trim_start_spec(sp, cls));
    if lead_count(s, cls) < s.len() {
        let ts = trim_start_spec(s, cls);
        assert(trim_start_spec(sp, cls) =~= ts + post);
        lemma_trail_count_concat(ts, post, cls);
        lemma_trail_count_le(ts, cls);
        assert((ts + post).take((ts + post).len() - trail_count(ts + post, cls)) =~= ts.take(
            ts.len() - trail_count(ts, cls),
        ));
    } else {
        lemma_lead_count(post, cls, post.len() as int);
        assert(trim_start_spec(sp, cls) =~= Seq::<char>::empty());
        assert(trim_start_spec(s, cls) =~= Seq::<char>::empty());
    }
}

/// First position at or after `start` where `pat` occurs, as [`find_from_spec`].
pub fn find_from_pos(s: &[char], pat: &[char], start: usize) -> (r: Option<usize>)
    ensures
        match r {
            Some(i) => find_from_spec(s@, pat@, start as int) == Some(i as int) && start <= i
                && occurs_at(s@, pat@, i as int),
            None => find_from_spec(s@, pat@, start as int) is None,
        },
{
    let r = find_from(s, pat, start);
    proof {
        reveal(find_from_spec);
        match r {
            Some(i) => {
                assert(occurs_at(s@, pat@, i as int));
                let k = find_from_spec(s@, pat@, start as int)->0;
                if k < i {
                } else if k > i {
                }
            },
            None => {},
        }
    }
    r
}

/// `a + b` as a new string.
pub fn cat_str(a: &str, b: &str) -> (r: String)
    ensures
        r@ == a@ + b@,
{
    let mut r = String::from_str(a);
    r.append(b);
    r
}

/// The decimal digit of a value below ten.
pub open spec fn digit_char(d: nat) -> char {
    ((48 + d) as u8) as char
}

/// Decimal digits of a natural number, most significant first.
pub open spec fn decimal_spec(n: nat) -> Seq<char>
    decreases n,
{
    if n < 10 {
        seq![digit_char(n)]
    } else {
        decimal_spec(n / 10) + seq![digit_char(n % 10)]
    }
}

/// Decimal form of an integer, with a leading `-` when negative.
pub open spec fn signed_decimal_spec(v: int) -> Seq<char> {
    if v < 0 {
        seq!['-'] + decimal_spec((-v) as nat)
    } else {
        decimal_spec(v as nat)
    }
}

fn decimal_chars(n: u128) -> (r: Vec<char>)
    ensures
        r@ == decimal_spec(n as nat),
    decreases n,
{
    let d = ((n % 10) as u8 + 48) as char;
    if n < 10 {
        let mut v: Vec<char> = Vec::new();
        v.push(d);
        assert(v@ =~= seq![digit_char(n as nat)]);
        v
    } else {
        let mut v = decimal_chars(n / 10);
        v.push(d);
        assert(v@ =~= decimal_spec((n / 10) as nat) + seq![digit_char((n % 10) as nat)]);
        v
    }
}

/// Decimal form of an unsigned integer.
pub fn decimal_u64(n: u64) -> (r: String)
    ensures
        r@ == decimal_spec(n as nat),
{
    let v = decimal_chars(n as u128);
    string_of(v.as_slice())
}

/// Decimal form of a signed integer.
pub fn decimal_i64(v: i64) -> (r: String)
    ensures
        r@ == signed_decimal_spec(v as int),
{
    if v < 0 {
        let m: u128 = (-(v as i128)) as u128;
        let mut c: Vec<char> = Vec::new();
        c.push('-');
        let d = decimal_chars(m);
        let mut i: usize = 0;
        while i < d.len()
            invariant
                0 <= i <= d@.len(),
                c@ == seq!['-'] + d@.take(i as int),
            decreases d.len() - i,
        {
            c.push(d[i]);
            assert(d@.take(i + 1) =~= d@.take(i as int).push(d@[i as int]));
            assert(c@ =~= seq!['-'] + d@.take(i + 1));
            i = i + 1;
        }
        assert(d@.take(d@.len() as int) =~= d@);
        string_of(c.as_slice())
    } else {
        let d = decimal_chars(v as u128);
        string_of(d.as_slice())
    }
}

} // verus!
