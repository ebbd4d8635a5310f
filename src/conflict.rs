//! The lexical conflict check between two hypotheses: opposite sentiment
//! words over an overlapping token that is not itself a sentiment word.
use vstd::prelude::*;

use crate::text::{chars_eq, contains, seq_contains, trim, trimmed};

verus! {

/// Characters that separate the tokens of a hypothesis.
pub open spec fn is_delimiter(c: char) -> bool {
    c == '的' || c == '是' || c == '吃'
}

fn delimiter(c: char) -> (r: bool)
    ensures
        r == is_delimiter(c),
{
    c == '的' || c == '是' || c == '吃'
}

/// A token may start at `i`: at the beginning or right after a delimiter.
pub open spec fn token_start(s: Seq<char>, i: int) -> bool {
    0 <= i <= s.len() && (i == 0 || is_delimiter(s[i - 1]))
}

/// Where the token starting at `i` ends: at the next delimiter or the end.
pub open spec fn token_end(s: Seq<char>, i: int) -> int
    decreases s.len() - i,
{
    if i < 0 || i >= s.len() || is_delimiter(s[i]) {
        i
    } else {
        token_end(s, i + 1)
    }
}

/// The token starting at `i`, without surrounding whitespace.
pub open spec fn token_at(s: Seq<char>, i: int) -> Seq<char> {
    trim(s.subrange(i, token_end(s, i)))
}

/// The sentiment words that stand in opposing pairs.
pub open spec fn positive_words() -> Seq<Seq<char>> {
    seq![seq!['喜', '欢'], seq!['经', '常'], seq!['总', '是'], seq!['爱'], seq!['习', '惯']]
}

pub open spec fn negative_words() -> Seq<Seq<char>> {
    seq![seq!['讨', '厌'], seq!['很', '少'], seq!['从', '不'], seq!['恨'], seq!['讨', '厌']]
}

/// A token that is one of the sentiment words.
pub open spec fn is_sentiment_word(t: Seq<char>) -> bool {
    exists|k: int| 0 <= k < 5 && (t == positive_words()[k] || t == negative_words()[k])
}

/// One hypothesis holds the positive word of a pair and the other its
/// negative word.
pub open spec fn opposed_by_pair(a: Seq<char>, b: Seq<char>, k: int) -> bool {
    (seq_contains(a, positive_words()[k]) && seq_contains(b, negative_words()[k]))
        || (seq_contains(a, negative_words()[k]) && seq_contains(b, positive_words()[k]))
}

pub open spec fn sentiment_opposed(a: Seq<char>, b: Seq<char>) -> bool {
    exists|k: int| 0 <= k < 5 && opposed_by_pair(a, b, k)
}

/// Two tokens overlap: both non-empty, neither a sentiment word, and the
/// first occurs in the second.
pub open spec fn tokens_match(x: Seq<char>, y: Seq<char>) -> bool {
    x.len() > 0 && y.len() > 0 && !is_sentiment_word(x) && !is_sentiment_word(y) && seq_contains(y, x)
}

/// Some token of `a` overlaps some token of `b`.
pub open spec fn share_token(a: Seq<char>, b: Seq<char>) -> bool {
    exists|i: int, j: int| token_start(a, i) && token_start(b, j) && #[trigger] tokens_match(token_at(a, i), token_at(b, j))
}

/// The two hypotheses contradict each other.
pub open spec fn hypotheses_conflict(a: Seq<char>, b: Seq<char>) -> bool {
    sentiment_opposed(a, b) && share_token(a, b)
}

fn positive_list() -> (r: Vec<Vec<char>>)
    ensures
        r@.len() == 5,
        forall|k: int| 0 <= k < 5 ==> #[trigger] r@[k]@ == positive_words()[k],
{
    let r = vec![vec!['喜', '欢'], vec!['经', '常'], vec!['总', '是'], vec!['爱'], vec!['习', '惯']];
    assert(r@[0]@ =~= positive_words()[0]);
    assert(r@[1]@ =~= positive_words()[1]);
    assert(r@[2]@ =~= positive_words()[2]);
    assert(r@[3]@ =~= positive_words()[3]);
    assert(r@[4]@ =~= positive_words()[4]);
    r
}

fn negative_list() -> (r: Vec<Vec<char>>)
    ensures
        r@.len() == 5,
        forall|k: int| 0 <= k < 5 ==> #[trigger] r@[k]@ == negative_words()[k],
{
    let r = vec![vec!['讨', '厌'], vec!['很', '少'], vec!['从', '不'], vec!['恨'], vec!['讨', '厌']];
    assert(r@[0]@ =~= negative_words()[0]);
    assert(r@[1]@ =~= negative_words()[1]);
    assert(r@[2]@ =~= negative_words()[2]);
    assert(r@[3]@ =~= negative_words()[3]);
    assert(r@[4]@ =~= negative_words()[4]);
    r
}

/// Whether `t` is one of the sentiment words.
pub fn sentiment_word(t: &[char]) -> (r: bool)
    ensures
        r == is_sentiment_word(t@),
{
    let pos = positive_list();
    let neg = negative_list();
    let mut k: usize = 0;
    while k < 5
        invariant
            pos@.len() == 5,
            neg@.len() == 5,
            forall|m: int| 0 <= m < 5 ==> #[trigger] pos@[m]@ == positive_words()[m],
            forall|m: int| 0 <= m < 5 ==> #[trigger] neg@[m]@ == negative_words()[m],
            k <= 5,
            forall|m: int| 0 <= m < k ==> !(t@ == positive_words()[m] || t@ == negative_words()[m]),
        decreases 5 - k,
    {
        if chars_eq(t, pos[k].as_slice()) || chars_eq(t, neg[k].as_slice()) {
            assert(t@ == positive_words()[k as int] || t@ == negative_words()[k as int]);
            return true;
        }
        k += 1;
    }
    false
}

/// Whether one hypothesis holds a positive word and the other its opposite.
pub fn opposed(a: &[char], b: &[char]) -> (r: bool)
    ensures
        r == sentiment_opposed(a@, b@),
{
    let pos = positive_list();
    let neg = negative_list();
    let mut k: usize = 0;
    while k < 5
        invariant
            pos@.len() == 5,
            neg@.len() == 5,
            forall|m: int| 0 <= m < 5 ==> #[trigger] pos@[m]@ == positive_words()[m],
            forall|m: int| 0 <= m < 5 ==> #[trigger] neg@[m]@ == negative_words()[m],
            k <= 5,
            forall|m: int| 0 <= m < k ==> !opposed_by_pair(a@, b@, m),
        decreases 5 - k,
    {
        let p = pos[k].as_slice();
        let n = neg[k].as_slice();
        if (contains(a, p) && contains(b, n)) || (contains(a, n) && contains(b, p)) {
            assert(opposed_by_pair(a@, b@, k as int));
            return true;
        }
        k += 1;
    }
    false
}

/// The end of the token that starts at `i`.
fn find_token_end(s: &[char], i: usize) -> (r: usize)
    requires
        i <= s@.len(),
    ensures
        r as int == token_end(s@, i as int),
        i <= r <= s@.len(),
{
    let mut e: usize = i;
    while e < s.len() && !delimiter(s[e])
        invariant
            i <= e <= s@.len(),
            token_end(s@, i as int) == token_end(s@, e as int),
        decreases s@.len() - e,
    {
        e += 1;
    }
    e
}

fn slice_copy(s: &[char], lo: usize, hi: usize) -> (r: Vec<char>)
    requires
        lo <= hi <= s@.len(),
    ensures
        r@ == s@.subrange(lo as int, hi as int),
{
    let mut out: Vec<char> = Vec::new();
    let mut i: usize = lo;
    while i < hi
        invariant
            lo <= i <= hi,
            hi <= s@.len(),
            out@ == s@.subrange(lo as int, i as int),
        decreases hi - i,
    {
        out.push(s[i]);
        i += 1;
        assert(out@ =~= s@.subrange(lo as int, i as int));
    }
    out
}

fn is_token_start(s: &[char], i: usize) -> (r: bool)
    requires
        i <= s@.len(),
    ensures
        r == token_start(s@, i as int),
{
    i == 0 || delimiter(s[i - 1])
}

/// The token of `s` starting at `i`, trimmed.
fn token(s: &[char], i: usize) -> (r: Vec<char>)
    requires
        i <= s@.len(),
    ensures
        r@ == token_at(s@, i as int),
{
    let e = find_token_end(s, i);
    let raw = slice_copy(s, i, e);
    trimmed(raw.as_slice())
}

fn token_matches(x: &[char], y: &[char]) -> (r: bool)
    ensures
        r == tokens_match(x@, y@),
{
    x.len() > 0 && y.len() > 0 && !sentiment_word(x) && !sentiment_word(y) && contains(y, x)
}

/// Whether `x` overlaps some token of `b`.
fn matches_some_token(x: &[char], b: &[char]) -> (r: bool)
    ensures
        r == exists|q: int| token_start(b@, q) && #[trigger] tokens_match(x@, token_at(b@, q)),
{
    let mut j: usize = 0;
    while j < b.len()
        invariant
            j <= b@.len(),
            forall|q: int| 0 <= q < j && token_start(b@, q) ==> !#[trigger] tokens_match(x@, token_at(b@, q)),
        decreases b@.len() - j,
    {
        if is_token_start(b, j) {
            let y = token(b, j);
            if token_matches(x, y.as_slice()) {
                return true;
            }
        }
        j += 1;
    }
    let y = token(b, j);
    if token_matches(x, y.as_slice()) {
        return true;
    }
    assert forall|q: int| token_start(b@, q) implies !#[trigger] tokens_match(x@, token_at(b@, q)) by {
        assert(0 <= q <= b@.len());
    }
    false
}

/// Whether some token of `a` overlaps some token of `b`.
pub fn shares_token(a: &[char], b: &[char]) -> (r: bool)
    ensures
        r == share_token(a@, b@),
{
    let mut i: usize = 0;
    while i < a.len()
        invariant
            i <= a@.len(),
            forall|p: int, q: int| 0 <= p < i && token_start(a@, p) && token_start(b@, q) ==> !#[trigger] tokens_match(token_at(a@, p), token_at(b@, q)),
        decreases a@.len() - i,
    {
        if is_token_start(a, i) {
            let x = token(a, i);
            if matches_some_token(x.as_slice(), b) {
                return true;
            }
        }
        i += 1;
    }
    let x = token(a, i);
    if matches_some_token(x.as_slice(), b) {
        return true;
    }
    assert forall|p: int, q: int| token_start(a@, p) && token_start(b@, q) implies !#[trigger] tokens_match(token_at(a@, p), token_at(b@, q)) by {
        assert(0 <= p <= a@.len());
    }
    false
}

/// Whether the two hypotheses contradict each other.
pub fn conflicting_hypotheses(a: &str, b: &str) -> (r: bool)
    ensures
        r == hypotheses_conflict(a@, b@),
{
    let ac = crate::text::chars_of(a);
    let bc = crate::text::chars_of(b);
    opposed(ac.as_slice(), bc.as_slice()) && shares_token(ac.as_slice(), bc.as_slice())
}

} // verus!
