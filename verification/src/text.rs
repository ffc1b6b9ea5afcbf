//! Text as sequences of characters: substring search, the lexicographic order and
//! case folding.

use vstd::prelude::*;

verus! {

/// `p` stands in `s` at position `i`.
pub open spec fn occurs_at(p: Seq<char>, s: Seq<char>, i: int) -> bool {
    0 <= i && i + p.len() <= s.len() && s.subrange(i, i + p.len()) == p
}

/// `p` is a contiguous part of `s`.
pub open spec fn occurs_in(p: Seq<char>, s: Seq<char>) -> bool {
    exists|i: int| occurs_at(p, s, i)
}

/// `a` and `b` have the same first `k` characters.
pub open spec fn agree_before(a: Seq<char>, b: Seq<char>, k: int) -> bool {
    0 <= k <= a.len() && k <= b.len() && a.take(k) == b.take(k)
}

/// `a` comes no later than `b` in the lexicographic order by code point: after a common
/// prefix, either `a` ends or `a` has the smaller character.
pub open spec fn lex_le(a: Seq<char>, b: Seq<char>) -> bool {
    exists|k: int| #[trigger]
        agree_before(a, b, k) && (k == a.len() || (k < b.len() && a[k] < b[k]))
}

/// The lowercase form of a text as `str::to_lowercase` gives it.
pub uninterp spec fn lowercase(s: Seq<char>) -> Seq<char>;

/// `str::to_lowercase`: the lowercase form of `s` by the Unicode rules, which depends on
/// the characters of `s` alone.
#[verifier::external_body]
pub(crate) fn to_lowercase(s: &str) -> (out: String)
    ensures
        out@ == lowercase(s@),
{
    s.to_lowercase()
}

/// The characters of `s`, in order.
pub fn chars_of(s: &str) -> (out: Vec<char>)
    ensures
        out@ == s@,
{
    let mut out: Vec<char> = Vec::new();
    for c in it: s.chars()
        invariant
            it.seq() == s@,
            out@ == s@.take(it.index() as int),
    {
        out.push(c);
    }
    out
}

/// Whether `p` stands in `s` at position `i`.
pub fn matches_at(s: &[char], p: &[char], i: usize) -> (found: bool)
    ensures
        found == occurs_at(p@, s@, i as int),
{
    if p.len() > s.len() || i > s.len() - p.len() {
        return false;
    }
    let mut j: usize = 0;
    while j < p.len()
        invariant
            j <= p.len(),
            i + p.len() <= s.len(),
            s@.subrange(i as int, i + j) == p@.take(j as int),
        decreases p.len() - j,
    {
        if s[i + j] != p[j] {
            assert(s@.subrange(i as int, i + p.len())[j as int] != p@[j as int]);
            return false;
        }
        assert(s@.subrange(i as int, i + j + 1) == s@.subrange(i as int, i + j).push(s@[i + j]));
        assert(p@.take(j + 1) == p@.take(j as int).push(p@[j as int]));
        j += 1;
    }
    assert(p@.take(p.len() as int) == p@);
    true
}

/// Whether `s` begins with `p`.
pub fn starts_with(s: &[char], p: &[char]) -> (found: bool)
    ensures
        found == p@.is_prefix_of(s@),
{
    matches_at(s, p, 0)
}

/// Whether `a` and `b` hold the same characters.
pub fn same_text(a: &[char], b: &[char]) -> (same: bool)
    ensures
        same == (a@ == b@),
{
    if a.len() != b.len() {
        return false;
    }
    let found = matches_at(a, b, 0);
    assert(a@.subrange(0, a.len() as int) == a@);
    found
}

/// Whether `p` is a contiguous part of `s`.
pub fn contains(s: &[char], p: &[char]) -> (found: bool)
    ensures
        found == occurs_in(p@, s@),
{
    if p.len() > s.len() {
        return false;
    }
    let last: usize = s.len() - p.len();
    let mut i: usize = 0;
    loop
        invariant
            last == s.len() - p.len(),
            i <= last,
            forall|k: int| 0 <= k < i ==> !occurs_at(p@, s@, k),
        decreases last - i,
    {
        if matches_at(s, p, i) {
            return true;
        }
        if i == last {
            return false;
        }
        i += 1;
    }
}

/// Whether `a` comes no later than `b` in the lexicographic order by code point.
pub fn le(a: &[char], b: &[char]) -> (r: bool)
    ensures
        r == lex_le(a@, b@),
{
    let mut k: usize = 0;
    assert(a@.take(0) == b@.take(0));
    while k < a.len() && k < b.len()
        invariant
            agree_before(a@, b@, k as int),
        decreases a.len() - k,
    {
        if a[k] != b[k] {
            let smaller = a[k] < b[k];
            proof {
                lemma_decided_at(a@, b@, k as int);
            }
            return smaller;
        }
        assert(a@.take(k + 1) == a@.take(k as int).push(a@[k as int]));
        assert(b@.take(k + 1) == b@.take(k as int).push(b@[k as int]));
        k += 1;
    }
    proof {
        lemma_decided_at(a@, b@, k as int);
    }
    k == a.len()
}

/// Once the longest common prefix of `a` and `b` is known, the order is decided by what
/// follows it.
pub proof fn lemma_decided_at(a: Seq<char>, b: Seq<char>, k: int)
    requires
        agree_before(a, b, k),
        k == a.len() || k == b.len() || a[k] != b[k],
    ensures
        lex_le(a, b) <==> (k == a.len() || (k < b.len() && a[k] < b[k])),
{
    if lex_le(a, b) {
        let j = choose|j: int| #[trigger]
            agree_before(a, b, j) && (j == a.len() || (j < b.len() && a[j] < b[j]));
        if j < k {
            assert(a.take(k)[j] == b.take(k)[j]);
        } else if j > k {
            assert(a.take(j)[k] == b.take(j)[k]);
        }
    }
}

/// The length of the longest common prefix of `a` and `b`.
pub open spec fn common_prefix_len(a: Seq<char>, b: Seq<char>) -> int
    decreases a.len(),
{
    if a.len() == 0 || b.len() == 0 || a[0] != b[0] {
        0
    } else {
        1 + common_prefix_len(a.drop_first(), b.drop_first())
    }
}

/// `common_prefix_len` is a length up to which the two texts agree and at which they
/// part or one of them ends.
pub proof fn lemma_common_prefix(a: Seq<char>, b: Seq<char>)
    ensures
        agree_before(a, b, common_prefix_len(a, b)),
        common_prefix_len(a, b) == a.len() || common_prefix_len(a, b) == b.len()
            || a[common_prefix_len(a, b)] != b[common_prefix_len(a, b)],
    decreases a.len(),
{
    if a.len() == 0 || b.len() == 0 || a[0] != b[0] {
        assert(a.take(0) == b.take(0));
    } else {
        lemma_common_prefix(a.drop_first(), b.drop_first());
        let k = common_prefix_len(a.drop_first(), b.drop_first());
        assert(a.take(k + 1) == seq![a[0]] + a.drop_first().take(k));
        assert(b.take(k + 1) == seq![b[0]] + b.drop_first().take(k));
    }
}

/// Of two texts, one comes no later than the other.
pub proof fn lemma_lex_le_total(a: Seq<char>, b: Seq<char>)
    ensures
        lex_le(a, b) || lex_le(b, a),
{
    lemma_common_prefix(a, b);
    let k = common_prefix_len(a, b);
    lemma_decided_at(a, b, k);
    assert(agree_before(b, a, k));
    lemma_decided_at(b, a, k);
}

/// Two texts that each come no later than the other are the same text.
pub proof fn lemma_lex_le_antisymmetric(a: Seq<char>, b: Seq<char>)
    requires
        lex_le(a, b),
        lex_le(b, a),
    ensures
        a == b,
{
    lemma_common_prefix(a, b);
    let k = common_prefix_len(a, b);
    lemma_decided_at(a, b, k);
    assert(agree_before(b, a, k));
    lemma_decided_at(b, a, k);
    assert(a.take(k) == a);
    assert(b.take(k) == b);
}

/// The order is transitive.
pub proof fn lemma_lex_le_transitive(a: Seq<char>, b: Seq<char>, c: Seq<char>)
    requires
        lex_le(a, b),
        lex_le(b, c),
    ensures
        lex_le(a, c),
{
    lemma_common_prefix(a, b);
    lemma_common_prefix(b, c);
    let i = common_prefix_len(a, b);
    let j = common_prefix_len(b, c);
    lemma_decided_at(a, b, i);
    lemma_decided_at(b, c, j);
    let k = if i <= j { i } else { j };
    assert(a.take(k) == c.take(k)) by {
        assert forall|n: int| 0 <= n < k implies a[n] == c[n] by {
            assert(a.take(i)[n] == b.take(i)[n]);
            assert(b.take(j)[n] == c.take(j)[n]);
        }
        assert(a.take(k) =~= c.take(k));
    }
    assert(agree_before(a, c, k));
    if i < j {
        assert(b.take(j)[i] == c.take(j)[i]);
    } else if j < i {
        assert(a.take(i)[j] == b.take(i)[j]);
    }
}

/// Every text comes no later than itself.
pub proof fn lemma_lex_le_reflexive(a: Seq<char>)
    ensures
        lex_le(a, a),
{
    assert(agree_before(a, a, a.len() as int));
}

} // verus!
