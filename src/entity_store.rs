//! The entity resolver: Jaro-Winkler similarity, context scoring, and the
//! linking of a mention to an existing or new entity.
use vstd::prelude::*;

use crate::entity_linker::{context_type, infer_entity_type, normalize_mention, normalized};
use crate::models::{Entity, EntityType};
use crate::text::{chars_of, contains, seq_contains};

verus! {

/// Longest name, in characters, that similarity is computed for.
pub const NAME_LIMIT: usize = 0x10_0000;

/// Fuzzy matches need a similarity of at least 0.75.
pub const SIMILARITY_THRESHOLD: u32 = 750;

/// How far apart matching characters may lie.
pub open spec fn match_window(l1: int, l2: int) -> int {
    let m = if l1 > l2 { l1 } else { l2 };
    if m / 2 >= 1 { m / 2 - 1 } else { 0 }
}

pub open spec fn window_lo(i: int, w: int) -> int {
    if i >= w { i - w } else { 0 }
}

pub open spec fn window_hi(i: int, w: int, l2: int) -> int {
    if i + w + 1 < l2 { i + w + 1 } else { l2 }
}

/// The first position in `[j, hi)` of `b` not yet matched that holds `c`,
/// or `hi` when there is none.
pub open spec fn first_free(c: char, b: Seq<char>, used: Seq<bool>, j: int, hi: int) -> int
    decreases hi - j,
{
    if j >= hi {
        hi
    } else if !used[j] && b[j] == c {
        j
    } else {
        first_free(c, b, used, j + 1, hi)
    }
}

/// The greedy matching of the first `n` characters of `a` against `b`:
/// which characters of each are matched, and how many pairs there are.
pub open spec fn matching(a: Seq<char>, b: Seq<char>, n: int) -> (Seq<bool>, Seq<bool>, int)
    decreases n,
{
    if n <= 0 {
        (Seq::new(a.len(), |k: int| false), Seq::new(b.len(), |k: int| false), 0)
    } else {
        let prev = matching(a, b, n - 1);
        let i = n - 1;
        let w = match_window(a.len() as int, b.len() as int);
        let hi = window_hi(i, w, b.len() as int);
        let j = first_free(a[i], b, prev.1, window_lo(i, w), hi);
        if j < hi {
            (prev.0.update(i, true), prev.1.update(j, true), prev.2 + 1)
        } else {
            prev
        }
    }
}

/// The first matched position of `b` at or after `k`, or the length of `b`.
pub open spec fn next_matched(m2: Seq<bool>, k: int) -> int
    decreases m2.len() - k,
{
    if k >= m2.len() || k < 0 {
        if k < 0 { 0 } else { k }
    } else if m2[k] {
        k
    } else {
        next_matched(m2, k + 1)
    }
}

/// Matched characters of `a` from `i` on that pair with a different
/// character of `b`, walking both in order.
pub open spec fn transpositions(a: Seq<char>, b: Seq<char>, m1: Seq<bool>, m2: Seq<bool>, i: int, k: int) -> int
    decreases a.len() - i,
{
    if i >= a.len() || i < 0 {
        0
    } else if m1[i] {
        let k2 = next_matched(m2, k);
        (if k2 < b.len() && a[i] != b[k2] { 1int } else { 0 }) + transpositions(a, b, m1, m2, i + 1, k2 + 1)
    } else {
        transpositions(a, b, m1, m2, i + 1, k)
    }
}

/// Length of the common prefix, at most four.
pub open spec fn common_prefix(a: Seq<char>, b: Seq<char>, k: int) -> int
    decreases 4 - k,
{
    if k >= 4 || k >= a.len() || k >= b.len() || k < 0 || a[k] != b[k] { if k < 0 { 0 } else { k } } else { common_prefix(a, b, k + 1) }
}

/// The Jaro-Winkler similarity of `a` and `b` in thousandths, rounded down.
/// With `m` matches, `t` transpositions and a common prefix `p`, Jaro is
/// `N / D` for `N = m*m*l2 + m*m*l1 + (m - t/2)*l1*l2` and `D = 3*m*l1*l2`,
/// and the Winkler form is `(10N + p(D - N)) / 10D`, kept within `[0, 1000]`.
pub open spec fn jaro_winkler(a: Seq<char>, b: Seq<char>) -> int {
    let l1 = a.len() as int;
    let l2 = b.len() as int;
    if a == b {
        1000
    } else if l1 == 0 || l2 == 0 {
        0
    } else {
        let mt = matching(a, b, l1);
        let m = mt.2;
        if m == 0 {
            0
        } else {
            let t = transpositions(a, b, mt.0, mt.1, 0, 0);
            let p = common_prefix(a, b, 0);
            let n = m * m * l2 + m * m * l1 + (m - t / 2) * l1 * l2;
            let d = 3 * m * l1 * l2;
            let v = 1000 * (10 * n + p * (d - n)) / (10 * d);
            if v < 0 { 0 } else if v > 1000 { 1000 } else { v }
        }
    }
}


proof fn lemma_matching_shape(a: Seq<char>, b: Seq<char>, n: int)
    requires
        0 <= n <= a.len(),
    ensures
        matching(a, b, n).0.len() == a.len(),
        matching(a, b, n).1.len() == b.len(),
        0 <= matching(a, b, n).2 <= n,
    decreases n,
{
    if n > 0 {
        lemma_matching_shape(a, b, n - 1);
        let prev = matching(a, b, n - 1);
        let w = match_window(a.len() as int, b.len() as int);
        let hi = window_hi(n - 1, w, b.len() as int);
        lemma_first_free_range(a[n - 1], b, prev.1, window_lo(n - 1, w), hi);
    }
}

proof fn lemma_first_free_range(c: char, b: Seq<char>, used: Seq<bool>, j: int, hi: int)
    ensures
        j >= hi ==> first_free(c, b, used, j, hi) == hi,
        j < hi ==> j <= first_free(c, b, used, j, hi) <= hi,
    decreases hi - j,
{
    if j < hi {
        lemma_first_free_range(c, b, used, j + 1, hi);
    }
}

fn falses(n: usize) -> (r: Vec<bool>)
    ensures
        r@ == Seq::new(n as nat, |k: int| false),
{
    let mut v: Vec<bool> = Vec::new();
    let mut i: usize = 0;
    while i < n
        invariant
            i <= n,
            v@ == Seq::new(i as nat, |k: int| false),
        decreases n - i,
    {
        v.push(false);
        i += 1;
        assert(v@ =~= Seq::new(i as nat, |k: int| false));
    }
    v
}

/// The Jaro-Winkler similarity of two names, in thousandths.
pub fn jaro_winkler_similarity(a: &[char], b: &[char]) -> (r: u32)
    requires
        a@.len() < NAME_LIMIT,
        b@.len() < NAME_LIMIT,
    ensures
        r == jaro_winkler(a@, b@),
        r <= 1000,
{
    if crate::text::chars_eq(a, b) {
        return 1000;
    }
    let l1 = a.len();
    let l2 = b.len();
    if l1 == 0 || l2 == 0 {
        return 0;
    }
    let mx = if l1 > l2 { l1 } else { l2 };
    let w: usize = if mx / 2 >= 1 { mx / 2 - 1 } else { 0 };
    let mut m1 = falses(l1);
    let mut m2 = falses(l2);
    let mut count: usize = 0;
    let mut i: usize = 0;
    while i < l1
        invariant
            l1 == a@.len(),
            l2 == b@.len(),
            l1 < NAME_LIMIT,
            l2 < NAME_LIMIT,
            w == match_window(l1 as int, l2 as int),
            i <= l1,
            (m1@, m2@, count as int) == matching(a@, b@, i as int),
            m1@.len() == l1,
            m2@.len() == l2,
            count <= i,
        decreases l1 - i,
    {
        let lo: usize = if i >= w { i - w } else { 0 };
        let hi: usize = if i + w + 1 < l2 { i + w + 1 } else { l2 };
        let c = a[i];
        let mut j: usize = lo;
        proof {
            lemma_first_free_range(c, b@, m2@, lo as int, hi as int);
        }
        while j < hi && (m2[j] || b[j] != c)
            invariant
                l2 == b@.len(),
                m2@.len() == l2,
                hi <= l2,
                lo <= j,
                j <= hi || j == lo,
                first_free(c, b@, m2@, lo as int, hi as int) == first_free(c, b@, m2@, j as int, hi as int),
            decreases hi - j,
        {
            j += 1;
        }
        proof {
            let prev = matching(a@, b@, i as int);
            assert(matching(a@, b@, i + 1) == {
                let hi2 = window_hi(i as int, w as int, l2 as int);
                let j2 = first_free(a@[i as int], b@, prev.1, window_lo(i as int, w as int), hi2);
                if j2 < hi2 { (prev.0.update(i as int, true), prev.1.update(j2, true), prev.2 + 1) } else { prev }
            });
            lemma_first_free_range(c, b@, m2@, j as int, hi as int);
        }
        if j < hi {
            m1.set(i, true);
            m2.set(j, true);
            count += 1;
        }
        i += 1;
    }
    if count == 0 {
        return 0;
    }
    let mut t: usize = 0;
    let mut k: usize = 0;
    let mut i: usize = 0;
    while i < l1
        invariant
            l1 == a@.len(),
            l2 == b@.len(),
            l1 < NAME_LIMIT,
            l2 < NAME_LIMIT,
            m1@.len() == l1,
            m2@.len() == l2,
            i <= l1,
            t <= i,
            k <= l2 + i,
            t + transpositions(a@, b@, m1@, m2@, i as int, k as int) == transpositions(a@, b@, m1@, m2@, 0, 0),
        decreases l1 - i,
    {
        if m1[i] {
            let ghost k0 = k;
            while k < l2 && !m2[k]
                invariant
                    l2 == b@.len(),
                    m2@.len() == l2,
                    k0 <= k,
                    k <= l2 + i,
                    l2 < NAME_LIMIT,
                    i < l1,
                    l1 < NAME_LIMIT,
                    next_matched(m2@, k0 as int) == next_matched(m2@, k as int),
                decreases l2 - k,
            {
                k += 1;
            }
            proof {
                assert(next_matched(m2@, k as int) == k as int);
            }
            if k < l2 && a[i] != b[k] {
                t += 1;
            }
            k += 1;
        }
        i += 1;
    }
    let mut p: usize = 0;
    while p < 4 && p < l1 && p < l2 && a[p] == b[p]
        invariant
            l1 == a@.len(),
            l2 == b@.len(),
            p <= 4,
            common_prefix(a@, b@, 0) == common_prefix(a@, b@, p as int),
        decreases 4 - p,
    {
        p += 1;
    }
    proof {
        assert(transpositions(a@, b@, m1@, m2@, l1 as int, k as int) == 0);
        assert(t == transpositions(a@, b@, m1@, m2@, 0, 0));
        assert(common_prefix(a@, b@, p as int) == p as int);
        assert(matching(a@, b@, l1 as int).2 == count);
        assert(a@ != b@);
    }
    let m = count as i128;
    let tt = t as i128;
    let x1 = l1 as i128;
    let x2 = l2 as i128;
    proof {
        lemma_mul_small(m, x1, x2);
        assert(0 <= tt <= x1);
        let q = m - tt / 2;
        assert(-0x10_0000 * 0x100_0000_0000 <= q * (x1 * x2) <= 0x10_0000 * 0x100_0000_0000) by (nonlinear_arith)
            requires -0x10_0000 <= q <= 0x10_0000, 1 <= x1 * x2 < 0x100_0000_0000;
        assert(m * m < 0x100_0000_0000) by (nonlinear_arith)
            requires 1 <= m < 0x10_0000;
        assert(m * m * x2 == (m * m) * x2);
        assert((m - tt / 2) * x1 * x2 == q * (x1 * x2)) by (nonlinear_arith)
            requires q == m - tt / 2;
        assert(m * (x1 * x2) == m * x1 * x2) by (nonlinear_arith);
    }
    let mm = m * m;
    let xx = x1 * x2;
    let n = mm * x2 + mm * x1 + (m - tt / 2) * xx;
    let d = 3 * (m * xx);
    proof {
        assert(m * xx == m * x1 * x2) by (nonlinear_arith) requires xx == x1 * x2;
        assert((m - tt / 2) * xx == (m - tt / 2) * x1 * x2) by (nonlinear_arith) requires xx == x1 * x2;
        assert(d == 3 * m * x1 * x2) by (nonlinear_arith) requires d == 3 * (m * xx), xx == x1 * x2;
    }
    let pp = p as i128;
    proof {
        assert(-0x2000_0000_0000_0000 <= n <= 0x4000_0000_0000_0000);
        assert(0 < d <= 0x4000_0000_0000_0000);
        assert(-0x10_0000_0000_0000_0000 <= pp * (d - n) <= 0x10_0000_0000_0000_0000) by (nonlinear_arith)
            requires 0 <= pp <= 4, -0x2000_0000_0000_0000 <= n <= 0x4000_0000_0000_0000, 0 < d <= 0x4000_0000_0000_0000;
    }
    let num = 1000 * (10 * n + pp * (d - n));
    let ghost sn = m * m * x2 + m * m * x1 + (m - tt / 2) * x1 * x2;
    let ghost sd = 3 * m * x1 * x2;
    proof {
        assert(n == sn);
        assert(d == sd);
    }
    if num < 0 {
        proof {
            let nn = num as int;
            let dd = 10 * (d as int);
            assert(nn / dd < 0) by (nonlinear_arith)
                requires nn < 0, dd > 0;
        }
        return 0;
    }
    let v = num / (10 * d);
    if v < 0 { 0 } else if v > 1000 { 1000 } else { v as u32 }
}

proof fn lemma_mul_small(m: i128, x1: i128, x2: i128)
    requires
        1 <= m <= x1 < 0x10_0000,
        1 <= x2 < 0x10_0000,
    ensures
        1 <= m * x1 * x2 < 0x1000_0000_0000_0000,
        1 <= m * m * x2 < 0x1000_0000_0000_0000,
        1 <= m * m * x1 < 0x1000_0000_0000_0000,
        1 <= x1 * x2 < 0x100_0000_0000,
{
    assert(1 <= m * x1 * x2 < 0x1000_0000_0000_0000) by (nonlinear_arith)
        requires 1 <= m <= x1 < 0x10_0000, 1 <= x2 < 0x10_0000;
    assert(1 <= m * m * x2 < 0x1000_0000_0000_0000) by (nonlinear_arith)
        requires 1 <= m <= x1 < 0x10_0000, 1 <= x2 < 0x10_0000;
    assert(1 <= m * m * x1 < 0x1000_0000_0000_0000) by (nonlinear_arith)
        requires 1 <= m <= x1 < 0x10_0000, 1 <= x2 < 0x10_0000;
    assert(1 <= x1 * x2 < 0x100_0000_0000) by (nonlinear_arith)
        requires 1 <= x1 < 0x10_0000, 1 <= x2 < 0x10_0000;
}


/// Which domains the context words point to: food, company, place, person.
pub open spec fn context_domains(c: Seq<char>) -> (bool, bool, bool, bool) {
    (
        seq_contains(c, seq!['吃']) || seq_contains(c, seq!['喝']) || seq_contains(c, seq!['水', '果']) || seq_contains(c, seq!['食', '物']),
        seq_contains(c, seq!['买']) || seq_contains(c, seq!['股', '票']) || seq_contains(c, seq!['公', '司']) || seq_contains(c, seq!['投', '资']),
        seq_contains(c, seq!['去']) || seq_contains(c, seq!['到']) || seq_contains(c, seq!['地', '方']) || seq_contains(c, seq!['城', '市']),
        seq_contains(c, seq!['人']) || seq_contains(c, seq!['朋', '友']) || seq_contains(c, seq!['同', '事']),
    )
}

/// 1000 when the context points to the domain of the entity's type, else 0.
pub open spec fn context_score(t: EntityType, d: (bool, bool, bool, bool)) -> int {
    if (d.0 && t == EntityType::Object) || (d.1 && t == EntityType::Organization)
        || (d.2 && t == EntityType::Place) || (d.3 && t == EntityType::Person) {
        1000
    } else {
        0
    }
}

fn any_word(c: &[char], words: &Vec<Vec<char>>) -> (r: bool)
    ensures
        r == exists|k: int| 0 <= k < words@.len() && seq_contains(c@, #[trigger] words@[k]@),
{
    let mut k: usize = 0;
    while k < words.len()
        invariant
            k <= words@.len(),
            forall|m: int| 0 <= m < k ==> !seq_contains(c@, #[trigger] words@[m]@),
        decreases words@.len() - k,
    {
        if contains(c, words[k].as_slice()) {
            return true;
        }
        k += 1;
    }
    false
}

/// The domains that a context points to.
pub fn domains_of(context: &str) -> (r: (bool, bool, bool, bool))
    ensures
        r == context_domains(context@),
{
    let c = chars_of(context);
    let food = vec![vec!['吃'], vec!['喝'], vec!['水', '果'], vec!['食', '物']];
    let company = vec![vec!['买'], vec!['股', '票'], vec!['公', '司'], vec!['投', '资']];
    let place = vec![vec!['去'], vec!['到'], vec!['地', '方'], vec!['城', '市']];
    let person = vec![vec!['人'], vec!['朋', '友'], vec!['同', '事']];
    assert(food@[0]@ =~= seq!['吃']); assert(food@[1]@ =~= seq!['喝']);
    assert(food@[2]@ =~= seq!['水', '果']); assert(food@[3]@ =~= seq!['食', '物']);
    assert(company@[0]@ =~= seq!['买']); assert(company@[1]@ =~= seq!['股', '票']);
    assert(company@[2]@ =~= seq!['公', '司']); assert(company@[3]@ =~= seq!['投', '资']);
    assert(place@[0]@ =~= seq!['去']); assert(place@[1]@ =~= seq!['到']);
    assert(place@[2]@ =~= seq!['地', '方']); assert(place@[3]@ =~= seq!['城', '市']);
    assert(person@[0]@ =~= seq!['人']); assert(person@[1]@ =~= seq!['朋', '友']); assert(person@[2]@ =~= seq!['同', '事']);
    let f = any_word(c.as_slice(), &food);
    let co = any_word(c.as_slice(), &company);
    let pl = any_word(c.as_slice(), &place);
    let pe = any_word(c.as_slice(), &person);
    proof {
        if f { let k = choose|k: int| 0 <= k < food@.len() && seq_contains(c@, food@[k]@); assert(0 <= k < 4); }
        else { assert(!seq_contains(c@, food@[0]@) && !seq_contains(c@, food@[1]@) && !seq_contains(c@, food@[2]@) && !seq_contains(c@, food@[3]@)); }
        if co { let k = choose|k: int| 0 <= k < company@.len() && seq_contains(c@, company@[k]@); assert(0 <= k < 4); }
        else { assert(!seq_contains(c@, company@[0]@) && !seq_contains(c@, company@[1]@) && !seq_contains(c@, company@[2]@) && !seq_contains(c@, company@[3]@)); }
        if pl { let k = choose|k: int| 0 <= k < place@.len() && seq_contains(c@, place@[k]@); assert(0 <= k < 4); }
        else { assert(!seq_contains(c@, place@[0]@) && !seq_contains(c@, place@[1]@) && !seq_contains(c@, place@[2]@) && !seq_contains(c@, place@[3]@)); }
        if pe { let k = choose|k: int| 0 <= k < person@.len() && seq_contains(c@, person@[k]@); assert(0 <= k < 3); }
        else { assert(!seq_contains(c@, person@[0]@) && !seq_contains(c@, person@[1]@) && !seq_contains(c@, person@[2]@)); }
    }
    (f, co, pl, pe)
}

fn score_of(t: EntityType, d: (bool, bool, bool, bool)) -> (r: u32)
    ensures
        r == context_score(t, d),
{
    if (d.0 && t == EntityType::Object) || (d.1 && t == EntityType::Organization)
        || (d.2 && t == EntityType::Place) || (d.3 && t == EntityType::Person) {
        1000
    } else {
        0
    }
}

/// The entities of all owners, addressed by id.
pub struct EntityStore {
    pub entities: Vec<Entity>,
}

/// Entity `i` belongs to `owner` and is named `name`.
pub open spec fn named(es: Seq<Entity>, i: int, owner: Seq<char>, name: Seq<char>) -> bool {
    0 <= i < es.len() && es[i].user_id@ == owner && es[i].canonical_name@ == name
}

/// Entity `i` of `owner` is similar enough to `name` to be a fuzzy match.
pub open spec fn fuzzy_candidate(es: Seq<Entity>, i: int, owner: Seq<char>, name: Seq<char>) -> bool {
    &&& 0 <= i < es.len()
    &&& es[i].user_id@ == owner
    &&& jaro_winkler(es[i].canonical_name@, name) >= SIMILARITY_THRESHOLD
}

/// The ranking of a candidate: similarity weighted 0.6 and context 0.4, then
/// similarity alone.
pub open spec fn rank(es: Seq<Entity>, i: int, name: Seq<char>, d: (bool, bool, bool, bool)) -> (int, int) {
    let sim = jaro_winkler(es[i].canonical_name@, name);
    (6 * sim + 4 * context_score(es[i].entity_type, d), sim)
}

pub open spec fn ranks_below(a: (int, int), b: (int, int)) -> bool {
    a.0 < b.0 || (a.0 == b.0 && a.1 < b.1)
}

/// Candidate `i` ranks highest, and no earlier candidate ranks as high.
pub open spec fn best_candidate(es: Seq<Entity>, i: int, owner: Seq<char>, name: Seq<char>, d: (bool, bool, bool, bool)) -> bool {
    &&& fuzzy_candidate(es, i, owner, name)
    &&& forall|j: int| fuzzy_candidate(es, j, owner, name) && j != i ==> {
        if j < i { ranks_below(rank(es, j, name, d), rank(es, i, name, d)) } else { !ranks_below(rank(es, i, name, d), rank(es, j, name, d)) }
    }
}

impl EntityStore {
    /// Each entity's id is its position; names are unique per owner, short
    /// enough to compare, and every entity is well formed.
    pub open spec fn wf(&self) -> bool {
        &&& forall|i: int| 0 <= i < self.entities@.len() ==> {
            &&& (#[trigger] self.entities@[i]).entity_id == i
            &&& self.entities@[i].wf()
            &&& self.entities@[i].canonical_name@.len() < NAME_LIMIT
        }
        &&& forall|i: int, j: int| 0 <= i < self.entities@.len() && 0 <= j < self.entities@.len() && i != j
            ==> !(#[trigger] self.entities@[i].user_id@ == (#[trigger] self.entities@[j]).user_id@
                && self.entities@[i].canonical_name@ == self.entities@[j].canonical_name@)
    }

    pub fn new() -> (r: EntityStore)
        ensures
            r.wf(),
            r.entities@.len() == 0,
    {
        EntityStore { entities: Vec::new() }
    }

    /// The entity of `owner` named exactly `name`.
    fn find_exact(&self, owner: &String, name: &String) -> (r: Option<usize>)
        ensures
            r is Some ==> named(self.entities@, r->Some_0 as int, owner@, name@),
            r is None ==> forall|i: int| !named(self.entities@, i, owner@, name@),
    {
        let mut i: usize = 0;
        while i < self.entities.len()
            invariant
                i <= self.entities@.len(),
                forall|k: int| 0 <= k < i ==> !named(self.entities@, k, owner@, name@),
            decreases self.entities@.len() - i,
        {
            if self.entities[i].user_id == *owner && self.entities[i].canonical_name == *name {
                return Some(i);
            }
            i += 1;
        }
        None
    }

    /// The best fuzzy match of `name` among the entities of `owner`.
    fn find_fuzzy(&self, owner: &String, name: &[char], d: (bool, bool, bool, bool)) -> (r: Option<usize>)
        requires
            self.wf(),
            name@.len() < NAME_LIMIT,
        ensures
            r is Some ==> best_candidate(self.entities@, r->Some_0 as int, owner@, name@, d),
            r is None ==> forall|i: int| !fuzzy_candidate(self.entities@, i, owner@, name@),
    {
        let mut best: Option<usize> = None;
        let mut best_rank: (u32, u32) = (0, 0);
        let mut i: usize = 0;
        while i < self.entities.len()
            invariant
                self.wf(),
                name@.len() < NAME_LIMIT,
                i <= self.entities@.len(),
                best is None ==> forall|k: int| 0 <= k < i ==> !fuzzy_candidate(self.entities@, k, owner@, name@),
                best is Some ==> ({
                    let b = best->Some_0 as int;
                    &&& b < i
                    &&& fuzzy_candidate(self.entities@, b, owner@, name@)
                    &&& rank(self.entities@, b, name@, d) == (best_rank.0 as int, best_rank.1 as int)
                    &&& forall|j: int| 0 <= j < i && fuzzy_candidate(self.entities@, j, owner@, name@) && j != b ==> {
                        if j < b { ranks_below(rank(self.entities@, j, name@, d), rank(self.entities@, b, name@, d)) }
                        else { !ranks_below(rank(self.entities@, b, name@, d), rank(self.entities@, j, name@, d)) }
                    }
                }),
            decreases self.entities@.len() - i,
        {
            if self.entities[i].user_id == *owner {
                let en = chars_of(self.entities[i].canonical_name.as_str());
                let sim = jaro_winkler_similarity(en.as_slice(), name);
                if sim >= SIMILARITY_THRESHOLD {
                    let score = 6 * sim + 4 * score_of(self.entities[i].entity_type, d);
                    let better = match best {
                        None => true,
                        Some(_) => score > best_rank.0 || (score == best_rank.0 && sim > best_rank.1),
                    };
                    if better {
                        best = Some(i);
                        best_rank = (score, sim);
                    }
                }
            }
            i += 1;
        }
        proof {
            if best is Some {
                let b = best->Some_0 as int;
                assert forall|j: int| fuzzy_candidate(self.entities@, j, owner@, name@) && j != b implies {
                    if j < b { ranks_below(rank(self.entities@, j, name@, d), rank(self.entities@, b, name@, d)) }
                    else { !ranks_below(rank(self.entities@, b, name@, d), rank(self.entities@, j, name@, d)) }
                } by {
                    assert(0 <= j < self.entities@.len());
                }
            } else {
                assert forall|k: int| !fuzzy_candidate(self.entities@, k, owner@, name@) by {
                    if 0 <= k < self.entities@.len() {}
                }
            }
        }
        best
    }

    /// Counts one more mention of entity `i` at `now`.
    fn touch(&mut self, i: usize, now: i64)
        requires
            old(self).wf(),
            i < old(self).entities@.len(),
        ensures
            final(self).wf(),
            final(self).entities@.len() == old(self).entities@.len(),
            forall|k: int| 0 <= k < old(self).entities@.len() && k != i ==> final(self).entities@[k] == old(self).entities@[k],
            final(self).entities@[i as int].occurrence_count == if old(self).entities@[i as int].occurrence_count < u64::MAX {
                (old(self).entities@[i as int].occurrence_count + 1) as u64
            } else {
                old(self).entities@[i as int].occurrence_count
            },
            final(self).entities@[i as int].last_seen == if now > old(self).entities@[i as int].last_seen { now } else { old(self).entities@[i as int].last_seen },
            final(self).entities@[i as int].canonical_name == old(self).entities@[i as int].canonical_name,
            final(self).entities@[i as int].first_seen == old(self).entities@[i as int].first_seen,
            final(self).entities@[i as int].user_id == old(self).entities@[i as int].user_id,
            final(self).entities@[i as int].entity_id == old(self).entities@[i as int].entity_id,
    {
        let ghost before = self.entities@;
        let mut e = self.entities.remove(i);
        proof {
            assert(e == before[i as int]);
        }
        e.record_occurrence(now);
        self.entities.insert(i, e);
        proof {
            assert forall|k: int| 0 <= k < before.len() && k != i implies self.entities@[k] == before[k] by {}
            assert forall|a: int, b: int| 0 <= a < self.entities@.len() && 0 <= b < self.entities@.len() && a != b
                implies !(#[trigger] self.entities@[a].user_id@ == (#[trigger] self.entities@[b]).user_id@
                    && self.entities@[a].canonical_name@ == self.entities@[b].canonical_name@) by {
                assert(self.entities@[a].user_id == before[a].user_id && self.entities@[a].canonical_name == before[a].canonical_name);
                assert(self.entities@[b].user_id == before[b].user_id && self.entities@[b].canonical_name == before[b].canonical_name);
            }
        }
    }

    /// Links a mention to an entity of `owner` and returns its id. The
    /// mention is normalized; an entity with that exact name is used first,
    /// then the best fuzzy match (similarity at least 0.75, ranked by 0.6
    /// similarity and 0.4 context, then similarity, earliest first); with no
    /// match a new entity is created, its type inferred from the context.
    /// A used entity counts one more occurrence.
    pub fn link(&mut self, owner: &String, mention: &str, context: &str, now: i64) -> (r: usize)
        requires
            old(self).wf(),
            old(self).entities@.len() < u64::MAX,
            mention@.len() < NAME_LIMIT,
        ensures
            final(self).wf(),
            r < final(self).entities@.len(),
            final(self).entities@[r as int].user_id@ == owner@,
            ({
                let name = normalized(mention@);
                let es = old(self).entities@;
                if exists|i: int| named(es, i, owner@, name) {
                    named(es, r as int, owner@, name) && final(self).entities@.len() == es.len()
                } else if exists|i: int| fuzzy_candidate(es, i, owner@, name) {
                    best_candidate(es, r as int, owner@, name, context_domains(context@)) && final(self).entities@.len() == es.len()
                } else {
                    &&& r == es.len()
                    &&& final(self).entities@.len() == es.len() + 1
                    &&& final(self).entities@[r as int].canonical_name@ == name
                    &&& final(self).entities@[r as int].entity_type == context_type(context@)
                    &&& final(self).entities@[r as int].occurrence_count == 1
                    &&& final(self).entities@[r as int].first_seen == now
                }
            }),
            r < old(self).entities@.len() ==> final(self).entities@[r as int].occurrence_count == if old(self).entities@[r as int].occurrence_count < u64::MAX {
                (old(self).entities@[r as int].occurrence_count + 1) as u64
            } else {
                old(self).entities@[r as int].occurrence_count
            },
            r < old(self).entities@.len() ==> final(self).entities@[r as int].last_seen
                == if now > old(self).entities@[r as int].last_seen { now } else { old(self).entities@[r as int].last_seen },
            r < old(self).entities@.len() ==> final(self).entities@[r as int].first_seen == old(self).entities@[r as int].first_seen,
            forall|k: int| 0 <= k < old(self).entities@.len() && k != r ==> final(self).entities@[k] == old(self).entities@[k],
    {
        let name = normalize_mention(mention);
        proof {
            crate::entity_linker::lemma_normalized_length(mention@);
        }
        if let Some(i) = self.find_exact(owner, &name) {
            self.touch(i, now);
            return i;
        }
        let d = domains_of(context);
        let nc = chars_of(name.as_str());
        if let Some(i) = self.find_fuzzy(owner, nc.as_slice(), d) {
            self.touch(i, now);
            return i;
        }
        let id = self.entities.len();
        let t = infer_entity_type(context);
        let e = Entity::new(id as u64, owner.clone(), name, t, now);
        let ghost before = self.entities@;
        self.entities.push(e);
        proof {
            assert forall|k: int| 0 <= k < self.entities@.len() implies {
                &&& (#[trigger] self.entities@[k]).entity_id == k
                &&& self.entities@[k].wf()
                &&& self.entities@[k].canonical_name@.len() < NAME_LIMIT
            } by {
                if k < before.len() { assert(self.entities@[k] == before[k]); }
            }
            assert forall|a: int, b: int| 0 <= a < self.entities@.len() && 0 <= b < self.entities@.len() && a != b
                implies !(#[trigger] self.entities@[a].user_id@ == (#[trigger] self.entities@[b]).user_id@
                    && self.entities@[a].canonical_name@ == self.entities@[b].canonical_name@) by {
                if a < before.len() && b < before.len() {
                    assert(self.entities@[a] == before[a]);
                    assert(self.entities@[b] == before[b]);
                } else if a < before.len() {
                    assert(self.entities@[a] == before[a]);
                    assert(!named(before, a, owner@, name@));
                } else {
                    assert(self.entities@[b] == before[b]);
                    assert(!named(before, b, owner@, name@));
                }
            }
        }
        id
    }
}


/// In every store that `EntityStore::new` builds and `link` keeps, each
/// entity was last seen no earlier than first seen and has been seen at
/// least once, and no owner has two entities of one name.
pub proof fn lemma_store_entities_well_formed(store: EntityStore, i: int, j: int)
    requires
        store.wf(),
        0 <= i < store.entities@.len(),
        0 <= j < store.entities@.len(),
    ensures
        store.entities@[i].last_seen >= store.entities@[i].first_seen,
        store.entities@[i].occurrence_count >= 1,
        i != j ==> !(store.entities@[i].user_id@ == store.entities@[j].user_id@
            && store.entities@[i].canonical_name@ == store.entities@[j].canonical_name@),
{
}

} // verus!
