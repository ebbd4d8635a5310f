//! Canonical names of mentions and the entity types their context suggests.
use vstd::prelude::*;

use crate::models::EntityType;
use crate::text::{
    chars_eq, chars_of, contains, is_space, lemma_trim_fixed, lemma_trim_shape, seq_contains, string_of,
    trim, trimmed,
};

verus! {

/// What std's `str::to_lowercase` makes of a text; it depends on the text
/// alone.
pub uninterp spec fn lower_of(s: Seq<char>) -> Seq<char>;

/// Relies on std's `str::to_lowercase`: Unicode lowercase mapping, a
/// function of the text alone.
#[verifier::external_body]
pub(crate) fn lowercase(s: &str) -> (r: String)
    ensures
        r@ == lower_of(s@),
{
    s.to_lowercase()
}

pub open spec fn is_ascii_char(c: char) -> bool {
    (c as u32) < 128
}

pub open spec fn all_ascii(s: Seq<char>) -> bool {
    forall|i: int| 0 <= i < s.len() ==> is_ascii_char(#[trigger] s[i])
}

pub open spec fn ascii_lower(c: char) -> char {
    if 'A' <= c <= 'Z' { ((c as u32) + 32) as char } else { c }
}

pub open spec fn ascii_upper(c: char) -> char {
    if 'a' <= c <= 'z' { ((c as u32) - 32) as char } else { c }
}

pub open spec fn lower_ascii(s: Seq<char>) -> Seq<char> {
    s.map_values(|c: char| ascii_lower(c))
}

/// The first character upper-cased.
pub open spec fn capitalized(s: Seq<char>) -> Seq<char> {
    if s.len() == 0 { s } else { s.update(0, ascii_upper(s[0])) }
}

/// The alias table: lowercased spellings and the canonical name they map to.
pub open spec fn alias_of(l: Seq<char>) -> Option<Seq<char>> {
    if l == seq!['苹', '果'] || l == seq!['a', 'p', 'p', 'l', 'e', ' ', 'i', 'n', 'c']
        || l == seq!['a', 'p', 'p', 'l', 'e', ' ', 'c', 'o', 'm', 'p', 'u', 't', 'e', 'r'] {
        Some(seq!['A', 'p', 'p', 'l', 'e'])
    } else if l == seq!['谷', '歌'] || l == seq!['g', 'o', 'o', 'g', 'l', 'e'] {
        Some(seq!['G', 'o', 'o', 'g', 'l', 'e'])
    } else if l == seq!['微', '软'] || l == seq!['m', 'i', 'c', 'r', 'o', 's', 'o', 'f', 't'] {
        Some(seq!['M', 'i', 'c', 'r', 'o', 's', 'o', 'f', 't'])
    } else if l == seq!['特', '斯', '拉'] || l == seq!['t', 'e', 's', 'l', 'a'] {
        Some(seq!['T', 'e', 's', 'l', 'a'])
    } else {
        None
    }
}

/// The canonical name of a mention: trimmed; a known alias maps to its
/// canonical name; otherwise all-ASCII text is lowercased and capitalized,
/// and other text is kept verbatim.
pub open spec fn normalized(s: Seq<char>) -> Seq<char> {
    let t = trim(s);
    if all_ascii(t) {
        let l = lower_ascii(t);
        match alias_of(l) {
            Some(a) => a,
            None => capitalized(l),
        }
    } else {
        match alias_of(lower_of(t)) {
            Some(a) => a,
            None => t,
        }
    }
}

fn ascii_lower_char(c: char) -> (r: char)
    ensures
        r == ascii_lower(c),
{
    if 'A' <= c && c <= 'Z' {
        ((c as u8) + 32) as char
    } else {
        c
    }
}

fn ascii_upper_char(c: char) -> (r: char)
    ensures
        r == ascii_upper(c),
{
    if 'a' <= c && c <= 'z' {
        ((c as u8) - 32) as char
    } else {
        c
    }
}

fn alias_table() -> (r: Vec<(Vec<char>, Vec<char>)>)
    ensures
        forall|l: Seq<char>| alias_of(l) is Some <==> exists|k: int| 0 <= k < r@.len() && (#[trigger] r@[k]).0@ == l,
        forall|k: int| 0 <= k < r@.len() ==> alias_of((#[trigger] r@[k]).0@) == Some(r@[k].1@),
{
    let apple = vec!['A', 'p', 'p', 'l', 'e'];
    let google = vec!['G', 'o', 'o', 'g', 'l', 'e'];
    let microsoft = vec!['M', 'i', 'c', 'r', 'o', 's', 'o', 'f', 't'];
    let tesla = vec!['T', 'e', 's', 'l', 'a'];
    let r = vec![
        (vec!['苹', '果'], apple.clone()),
        (vec!['a', 'p', 'p', 'l', 'e', ' ', 'i', 'n', 'c'], apple.clone()),
        (vec!['a', 'p', 'p', 'l', 'e', ' ', 'c', 'o', 'm', 'p', 'u', 't', 'e', 'r'], apple.clone()),
        (vec!['谷', '歌'], google.clone()),
        (vec!['g', 'o', 'o', 'g', 'l', 'e'], google.clone()),
        (vec!['微', '软'], microsoft.clone()),
        (vec!['m', 'i', 'c', 'r', 'o', 's', 'o', 'f', 't'], microsoft.clone()),
        (vec!['特', '斯', '拉'], tesla.clone()),
        (vec!['t', 'e', 's', 'l', 'a'], tesla.clone()),
    ];
    assert(r@[0].0@ =~= seq!['苹', '果']);
    assert(r@[1].0@ =~= seq!['a', 'p', 'p', 'l', 'e', ' ', 'i', 'n', 'c']);
    assert(r@[2].0@ =~= seq!['a', 'p', 'p', 'l', 'e', ' ', 'c', 'o', 'm', 'p', 'u', 't', 'e', 'r']);
    assert(r@[3].0@ =~= seq!['谷', '歌']);
    assert(r@[4].0@ =~= seq!['g', 'o', 'o', 'g', 'l', 'e']);
    assert(r@[5].0@ =~= seq!['微', '软']);
    assert(r@[6].0@ =~= seq!['m', 'i', 'c', 'r', 'o', 's', 'o', 'f', 't']);
    assert(r@[7].0@ =~= seq!['特', '斯', '拉']);
    assert(r@[8].0@ =~= seq!['t', 'e', 's', 'l', 'a']);
    assert(apple@ =~= seq!['A', 'p', 'p', 'l', 'e']);
    assert(google@ =~= seq!['G', 'o', 'o', 'g', 'l', 'e']);
    assert(microsoft@ =~= seq!['M', 'i', 'c', 'r', 'o', 's', 'o', 'f', 't']);
    assert(tesla@ =~= seq!['T', 'e', 's', 'l', 'a']);
    proof {
        assert forall|l: Seq<char>| alias_of(l) is Some implies exists|k: int| 0 <= k < r@.len() && (#[trigger] r@[k]).0@ == l by {
            if l == r@[0].0@ { assert(r@[0].0@ == l); }
            else if l == r@[1].0@ { assert(r@[1].0@ == l); }
            else if l == r@[2].0@ { assert(r@[2].0@ == l); }
            else if l == r@[3].0@ { assert(r@[3].0@ == l); }
            else if l == r@[4].0@ { assert(r@[4].0@ == l); }
            else if l == r@[5].0@ { assert(r@[5].0@ == l); }
            else if l == r@[6].0@ { assert(r@[6].0@ == l); }
            else if l == r@[7].0@ { assert(r@[7].0@ == l); }
            else { assert(r@[8].0@ == l); }
        }
    }
    r
}

/// The alias of a lowercased mention, if it is in the table.
fn lookup_alias(l: &[char]) -> (r: Option<Vec<char>>)
    ensures
        r is None ==> alias_of(l@) is None,
        r is Some ==> alias_of(l@) == Some(r->Some_0@),
{
    let table = alias_table();
    let mut k: usize = 0;
    while k < table.len()
        invariant
            k <= table@.len(),
            forall|l2: Seq<char>| alias_of(l2) is Some <==> exists|m: int| 0 <= m < table@.len() && (#[trigger] table@[m]).0@ == l2,
            forall|m: int| 0 <= m < table@.len() ==> alias_of((#[trigger] table@[m]).0@) == Some(table@[m].1@),
            forall|m: int| 0 <= m < k ==> (#[trigger] table@[m]).0@ != l@,
        decreases table@.len() - k,
    {
        if chars_eq(table[k].0.as_slice(), l) {
            let a = table[k].1.clone();
            return Some(a);
        }
        k += 1;
    }
    None
}

/// The canonical name of a mention.
pub fn normalize_mention(mention: &str) -> (r: String)
    ensures
        r@ == normalized(mention@),
{
    let all = chars_of(mention);
    let t = trimmed(all.as_slice());
    let mut ascii = true;
    let mut i: usize = 0;
    while i < t.len()
        invariant
            i <= t@.len(),
            ascii == forall|j: int| 0 <= j < i ==> is_ascii_char(#[trigger] t@[j]),
        decreases t@.len() - i,
    {
        if (t[i] as u32) >= 128 {
            ascii = false;
        }
        i += 1;
    }
    if ascii {
        let mut l: Vec<char> = Vec::new();
        let mut i: usize = 0;
        while i < t.len()
            invariant
                i <= t@.len(),
                l@ == lower_ascii(t@.subrange(0, i as int)),
            decreases t@.len() - i,
        {
            l.push(ascii_lower_char(t[i]));
            i += 1;
            assert(l@ =~= lower_ascii(t@.subrange(0, i as int)));
        }
        assert(t@.subrange(0, t@.len() as int) =~= t@);
        match lookup_alias(l.as_slice()) {
            Some(a) => string_of(a.as_slice()),
            None => {
                if l.len() > 0 {
                    let first = ascii_upper_char(l[0]);
                    l.set(0, first);
                }
                string_of(l.as_slice())
            },
        }
    } else {
        let ts = string_of(t.as_slice());
        let lower = lowercase(ts.as_str());
        let lc = chars_of(lower.as_str());
        match lookup_alias(lc.as_slice()) {
            Some(a) => string_of(a.as_slice()),
            None => ts,
        }
    }
}

proof fn lemma_lower_idempotent_ascii(t: Seq<char>)
    requires
        all_ascii(t),
    ensures
        all_ascii(lower_ascii(t)),
        all_ascii(capitalized(lower_ascii(t))),
        lower_ascii(capitalized(lower_ascii(t))) == lower_ascii(t),
        lower_ascii(lower_ascii(t)) == lower_ascii(t),
{
    let l = lower_ascii(t);
    assert forall|i: int| 0 <= i < l.len() implies is_ascii_char(#[trigger] l[i]) by {
        assert(is_ascii_char(t[i]));
    }
    let c = capitalized(l);
    assert forall|i: int| 0 <= i < c.len() implies is_ascii_char(#[trigger] c[i]) by {
        assert(is_ascii_char(l[i]));
    }
    assert(lower_ascii(c) =~= l);
    assert(lower_ascii(l) =~= l);
}

/// A canonical name is never longer than its mention, or than the longest
/// alias.
pub proof fn lemma_normalized_length(s: Seq<char>)
    ensures
        normalized(s).len() <= if s.len() > 14 { s.len() as int } else { 14 },
{
    lemma_trim_shape(s);
}

/// Whitespace characters are not letters, so case changes keep them apart.
proof fn lemma_case_keeps_space(c: char)
    ensures
        is_space(ascii_lower(c)) == is_space(c),
        is_space(ascii_upper(c)) == is_space(c),
{
}

/// Normalizing a canonical name changes nothing.
pub proof fn lemma_normalize_idempotent(s: Seq<char>)
    ensures
        normalized(normalized(s)) == normalized(s),
{
    let t = trim(s);
    lemma_trim_shape(s);
    let n = normalized(s);
    let apple = seq!['A', 'p', 'p', 'l', 'e'];
    let google = seq!['G', 'o', 'o', 'g', 'l', 'e'];
    let microsoft = seq!['M', 'i', 'c', 'r', 'o', 's', 'o', 'f', 't'];
    let tesla = seq!['T', 'e', 's', 'l', 'a'];
    assert forall|a: Seq<char>| a == apple || a == google || a == microsoft || a == tesla implies normalized(a) == a by {
        lemma_trim_fixed(a);
        assert(all_ascii(a));
        let la = lower_ascii(a);
        if a == apple {
            assert(la =~= seq!['a', 'p', 'p', 'l', 'e']);
            assert(capitalized(la) =~= a);
        } else if a == google {
            assert(la =~= seq!['g', 'o', 'o', 'g', 'l', 'e']);
        } else if a == microsoft {
            assert(la =~= seq!['m', 'i', 'c', 'r', 'o', 's', 'o', 'f', 't']);
        } else {
            assert(la =~= seq!['t', 'e', 's', 'l', 'a']);
        }
    }
    if all_ascii(t) {
        let l = lower_ascii(t);
        match alias_of(l) {
            Some(a) => {},
            None => {
                lemma_lower_idempotent_ascii(t);
                let c = capitalized(l);
                if c.len() > 0 {
                    lemma_case_keeps_space(t[0]);
                    lemma_case_keeps_space(t.last());
                    lemma_case_keeps_space(l[0]);
                    assert(c[0] == ascii_upper(l[0]));
                    assert(c.last() == if c.len() == 1 { ascii_upper(l[0]) } else { l.last() });
                }
                lemma_trim_fixed(c);
            },
        }
    } else {
        match alias_of(lower_of(t)) {
            Some(a) => {},
            None => {
                lemma_trim_fixed(t);
            },
        }
    }
}

/// Context words that suggest each entity type, checked in order: concept
/// before person before organization before place.
pub open spec fn context_type(c: Seq<char>) -> EntityType {
    if seq_contains(c, seq!['想', '法']) || seq_contains(c, seq!['概', '念']) || seq_contains(c, seq!['理', '论']) {
        EntityType::Concept
    } else if seq_contains(c, seq!['朋', '友']) || seq_contains(c, seq!['同', '事']) || seq_contains(c, seq!['先', '生'])
        || seq_contains(c, seq!['女', '士']) || seq_contains(c, seq!['医', '生']) || seq_contains(c, seq!['老', '师']) {
        EntityType::Person
    } else if seq_contains(c, seq!['公', '司']) || seq_contains(c, seq!['股', '票']) || seq_contains(c, seq!['企', '业'])
        || seq_contains(c, seq!['机', '构']) {
        EntityType::Organization
    } else if seq_contains(c, seq!['去']) || seq_contains(c, seq!['到']) || seq_contains(c, seq!['地', '方'])
        || seq_contains(c, seq!['城', '市']) || seq_contains(c, seq!['国', '家']) {
        EntityType::Place
    } else {
        EntityType::Object
    }
}

fn has(c: &[char], w: &[char]) -> (r: bool)
    ensures
        r == seq_contains(c@, w@),
{
    contains(c, w)
}

/// The entity type that the context of a mention suggests.
pub fn infer_entity_type(context: &str) -> (r: EntityType)
    ensures
        r == context_type(context@),
{
    let c = chars_of(context);
    let c = c.as_slice();
    let w1 = vec!['想', '法']; let w2 = vec!['概', '念']; let w3 = vec!['理', '论'];
    assert(w1@ =~= seq!['想', '法']); assert(w2@ =~= seq!['概', '念']); assert(w3@ =~= seq!['理', '论']);
    if has(c, w1.as_slice()) || has(c, w2.as_slice()) || has(c, w3.as_slice()) {
        return EntityType::Concept;
    }
    let p1 = vec!['朋', '友']; let p2 = vec!['同', '事']; let p3 = vec!['先', '生'];
    let p4 = vec!['女', '士']; let p5 = vec!['医', '生']; let p6 = vec!['老', '师'];
    assert(p1@ =~= seq!['朋', '友']); assert(p2@ =~= seq!['同', '事']); assert(p3@ =~= seq!['先', '生']);
    assert(p4@ =~= seq!['女', '士']); assert(p5@ =~= seq!['医', '生']); assert(p6@ =~= seq!['老', '师']);
    if has(c, p1.as_slice()) || has(c, p2.as_slice()) || has(c, p3.as_slice()) || has(c, p4.as_slice())
        || has(c, p5.as_slice()) || has(c, p6.as_slice()) {
        return EntityType::Person;
    }
    let o1 = vec!['公', '司']; let o2 = vec!['股', '票']; let o3 = vec!['企', '业']; let o4 = vec!['机', '构'];
    assert(o1@ =~= seq!['公', '司']); assert(o2@ =~= seq!['股', '票']); assert(o3@ =~= seq!['企', '业']);
    assert(o4@ =~= seq!['机', '构']);
    if has(c, o1.as_slice()) || has(c, o2.as_slice()) || has(c, o3.as_slice()) || has(c, o4.as_slice()) {
        return EntityType::Organization;
    }
    let l1 = vec!['去']; let l2 = vec!['到']; let l3 = vec!['地', '方']; let l4 = vec!['城', '市']; let l5 = vec!['国', '家'];
    assert(l1@ =~= seq!['去']); assert(l2@ =~= seq!['到']); assert(l3@ =~= seq!['地', '方']);
    assert(l4@ =~= seq!['城', '市']); assert(l5@ =~= seq!['国', '家']);
    if has(c, l1.as_slice()) || has(c, l2.as_slice()) || has(c, l3.as_slice()) || has(c, l4.as_slice()) || has(c, l5.as_slice()) {
        return EntityType::Place;
    }
    EntityType::Object
}

} // verus!
