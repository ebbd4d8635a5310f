//! The rule side of event extraction: the verb table, quantities written in
//! Chinese numerals or Arabic digits, and time keywords.
use vstd::prelude::*;

use crate::error::DirSoulError;
use crate::text::{chars_eq, chars_of, contains, seq_contains, string_of, trim, trimmed};

verus! {

/// The value of one Chinese numeral: 一 to 十, and 两 for two.
pub open spec fn numeral_value(c: char) -> Option<int> {
    if c == '一' { Some(1) }
    else if c == '二' || c == '两' { Some(2) }
    else if c == '三' { Some(3) }
    else if c == '四' { Some(4) }
    else if c == '五' { Some(5) }
    else if c == '六' { Some(6) }
    else if c == '七' { Some(7) }
    else if c == '八' { Some(8) }
    else if c == '九' { Some(9) }
    else if c == '十' { Some(10) }
    else { None }
}

fn numeral(c: char) -> (r: Option<u64>)
    ensures
        r is Some <==> numeral_value(c) is Some,
        r is Some ==> r->Some_0 == numeral_value(c)->Some_0,
{
    if c == '一' { Some(1) }
    else if c == '二' || c == '两' { Some(2) }
    else if c == '三' { Some(3) }
    else if c == '四' { Some(4) }
    else if c == '五' { Some(5) }
    else if c == '六' { Some(6) }
    else if c == '七' { Some(7) }
    else if c == '八' { Some(8) }
    else if c == '九' { Some(9) }
    else if c == '十' { Some(10) }
    else { None }
}

pub open spec fn is_digit(c: char) -> bool {
    '0' <= c <= '9'
}

/// The value of a run of decimal digits.
pub open spec fn digits_value(s: Seq<char>) -> int
    decreases s.len(),
{
    if s.len() == 0 { 0 } else { digits_value(s.drop_last()) * 10 + (s.last() as int - '0' as int) }
}

pub open spec fn all_digits(s: Seq<char>) -> bool {
    forall|i: int| 0 <= i < s.len() ==> is_digit(#[trigger] s[i])
}

/// What a quantity word means: Arabic digits, one Chinese numeral, or a
/// word ending in 十几 ("ten-odd"), which adds ten to the quantity before it.
/// Anything else has no value.
pub open spec fn quantity_value(s: Seq<char>) -> Option<int>
    decreases s.len(),
{
    if s.len() > 0 && all_digits(s) {
        Some(digits_value(s))
    } else if s.len() == 1 && numeral_value(s[0]) is Some {
        numeral_value(s[0])
    } else if s.len() >= 2 && s[s.len() - 2] == '十' && s[s.len() - 1] == '几' {
        match quantity_value(s.subrange(0, s.len() - 2)) {
            Some(v) => Some(v + 10),
            None => None,
        }
    } else {
        None
    }
}

fn digits_of(s: &[char]) -> (r: Option<u64>)
    ensures
        r is Some <==> (s@.len() > 0 && all_digits(s@) && digits_value(s@) <= u64::MAX),
        r is Some ==> r->Some_0 == digits_value(s@),
{
    if s.len() == 0 {
        return None;
    }
    let mut v: u64 = 0;
    let mut i: usize = 0;
    while i < s.len()
        invariant
            i <= s@.len(),
            all_digits(s@.subrange(0, i as int)),
            v == digits_value(s@.subrange(0, i as int)),
        decreases s@.len() - i,
    {
        let c = s[i];
        proof {
            assert(s@.subrange(0, i + 1).drop_last() =~= s@.subrange(0, i as int));
        }
        if !('0' <= c && c <= '9') {
            proof {
                assert(!is_digit(s@[i as int]));
            }
            return None;
        }
        let d = (c as u32 - '0' as u32) as u64;
        if v > (u64::MAX - d) / 10 {
            proof {
                lemma_digits_grow(s@, i as int + 1);
                assert(digits_value(s@.subrange(0, i + 1)) > u64::MAX);
            }
            return None;
        }
        v = v * 10 + d;
        i += 1;
        assert(all_digits(s@.subrange(0, i as int)));
    }
    assert(s@.subrange(0, s@.len() as int) =~= s@);
    Some(v)
}

proof fn lemma_digits_nonneg(s: Seq<char>)
    requires
        all_digits(s),
    ensures
        digits_value(s) >= 0,
    decreases s.len(),
{
    if s.len() > 0 {
        assert(all_digits(s.drop_last()));
        lemma_digits_nonneg(s.drop_last());
        assert(is_digit(s[s.len() - 1]));
    }
}

/// Digit values only grow as digits are appended.
proof fn lemma_digits_grow(s: Seq<char>, k: int)
    requires
        0 <= k <= s.len(),
        all_digits(s.subrange(0, k)),
    ensures
        all_digits(s) ==> digits_value(s) >= digits_value(s.subrange(0, k)),
    decreases s.len() - k,
{
    if k < s.len() && all_digits(s) {
        assert(s.subrange(0, k + 1).drop_last() =~= s.subrange(0, k));
        assert(all_digits(s.subrange(0, k + 1)));
        lemma_digits_grow(s, k + 1);
        lemma_digits_nonneg(s.subrange(0, k));
        assert(is_digit(s[k]));
        assert(s.subrange(0, k + 1).last() == s[k]);
    }
    if k == s.len() {
        assert(s.subrange(0, k) =~= s);
    }
}

/// Parses a quantity word. Words without a value, and digit runs too large
/// for `u64`, are refused with a validation error.
pub fn parse_quantity(text: &str) -> (r: Result<u64, DirSoulError>)
    ensures
        r is Ok ==> quantity_value(text@) == Some(r->Ok_0 as int),
        quantity_value(text@) is None ==> r is Err,
        r is Err ==> r->Err_0 is Validation,
        (text@.len() > 0 && all_digits(text@) && digits_value(text@) <= u64::MAX) ==> r is Ok,
        quantity_value(text@) is Some && quantity_value(text@)->Some_0 <= u64::MAX ==> r is Ok,
{
    let cs = chars_of(text);
    parse_quantity_chars(cs.as_slice())
}

fn parse_quantity_chars(s: &[char]) -> (r: Result<u64, DirSoulError>)
    ensures
        r is Ok ==> quantity_value(s@) == Some(r->Ok_0 as int),
        quantity_value(s@) is None ==> r is Err,
        r is Err ==> r->Err_0 is Validation,
        (s@.len() > 0 && all_digits(s@) && digits_value(s@) <= u64::MAX) ==> r is Ok,
        quantity_value(s@) is Some && quantity_value(s@)->Some_0 <= u64::MAX ==> r is Ok,
    decreases s@.len(),
{
    let n = s.len();
    if n > 0 {
        let mut all = true;
        let mut i: usize = 0;
        while i < n
            invariant
                n == s@.len(),
                i <= n,
                all == forall|j: int| 0 <= j < i ==> is_digit(#[trigger] s@[j]),
            decreases n - i,
        {
            if !('0' <= s[i] && s[i] <= '9') {
                all = false;
            }
            i += 1;
        }
        if all {
            return match digits_of(s) {
                Some(v) => Ok(v),
                None => Err(DirSoulError::Validation("quantity too large".to_string())),
            };
        }
    }
    if n == 1 {
        if let Some(v) = numeral(s[0]) {
            return Ok(v);
        }
    }
    if n >= 2 && s[n - 2] == '十' && s[n - 1] == '几' {
        let head = &s[0..n - 2];
        assert(head@ =~= s@.subrange(0, n - 2));
        return match parse_quantity_chars(head) {
            Ok(v) => {
                if v <= u64::MAX - 10 {
                    Ok(v + 10)
                } else {
                    Err(DirSoulError::Validation("quantity too large".to_string()))
                }
            },
            Err(e) => Err(e),
        };
    }
    Err(DirSoulError::Validation("unknown quantity word".to_string()))
}

/// The verb table: a verb and the action it is recorded as.
pub open spec fn verb_table() -> Seq<(Seq<char>, Seq<char>)> {
    seq![
        (seq!['吃'], seq!['吃']), (seq!['喝'], seq!['喝']), (seq!['买'], seq!['购', '买']), (seq!['购'], seq!['购', '买']),
        (seq!['去'], seq!['去']), (seq!['来'], seq!['来']), (seq!['做'], seq!['做']), (seq!['完', '成'], seq!['完', '成']),
        (seq!['开', '始'], seq!['开', '始']), (seq!['结', '束'], seq!['结', '束']), (seq!['看'], seq!['看']),
        (seq!['读'], seq!['阅', '读']), (seq!['写'], seq!['写']), (seq!['听'], seq!['听']), (seq!['说'], seq!['说']),
        (seq!['玩'], seq!['玩']), (seq!['运', '动'], seq!['运', '动']), (seq!['跑', '步'], seq!['跑', '步']),
        (seq!['睡', '觉'], seq!['睡', '觉']), (seq!['起', '床'], seq!['起', '床']), (seq!['工', '作'], seq!['工', '作']),
        (seq!['学', '习'], seq!['学', '习']), (seq!['消', '费'], seq!['消', '费']), (seq!['支', '付'], seq!['支', '付'])
    ]
}

/// The action a verb is recorded as: its entry in the table, or the verb
/// itself.
pub open spec fn normalized_action(v: Seq<char>) -> Seq<char> {
    if exists|k: int| 0 <= k < verb_table().len() && verb_table()[k].0 == v {
        let k = choose|k: int| 0 <= k < verb_table().len() && verb_table()[k].0 == v;
        verb_table()[k].1
    } else {
        v
    }
}

/// Maps a verb to the action it is recorded as.
pub fn normalize_action(verb: &str) -> (r: String)
    ensures
        r@ == normalized_action(verb@),
{
    let v = chars_of(verb);
    assert(v@ == verb@);
    let table: Vec<(Vec<char>, Vec<char>)> = vec![
        (vec!['吃'], vec!['吃']), (vec!['喝'], vec!['喝']), (vec!['买'], vec!['购', '买']), (vec!['购'], vec!['购', '买']),
        (vec!['去'], vec!['去']), (vec!['来'], vec!['来']), (vec!['做'], vec!['做']), (vec!['完', '成'], vec!['完', '成']),
        (vec!['开', '始'], vec!['开', '始']), (vec!['结', '束'], vec!['结', '束']), (vec!['看'], vec!['看']),
        (vec!['读'], vec!['阅', '读']), (vec!['写'], vec!['写']), (vec!['听'], vec!['听']), (vec!['说'], vec!['说']),
        (vec!['玩'], vec!['玩']), (vec!['运', '动'], vec!['运', '动']), (vec!['跑', '步'], vec!['跑', '步']),
        (vec!['睡', '觉'], vec!['睡', '觉']), (vec!['起', '床'], vec!['起', '床']), (vec!['工', '作'], vec!['工', '作']),
        (vec!['学', '习'], vec!['学', '习']), (vec!['消', '费'], vec!['消', '费']), (vec!['支', '付'], vec!['支', '付'])
    ];
    let ghost vt = verb_table();
    proof {
        assert forall|k: int| 0 <= k < 24 implies (#[trigger] table@[k]).0@ == vt[k].0 && table@[k].1@ == vt[k].1 by {
            assert(table@[k].0@ =~= vt[k].0);
            assert(table@[k].1@ =~= vt[k].1);
        }
    }
    let mut k: usize = 0;
    while k < table.len()
        invariant
            table@.len() == 24,
            v@ == verb@,
            vt == verb_table(),
            forall|m: int| 0 <= m < 24 ==> (#[trigger] table@[m]).0@ == vt[m].0 && table@[m].1@ == vt[m].1,
            k <= 24,
            forall|m: int| 0 <= m < k ==> vt[m].0 != v@,
        decreases 24 - k,
    {
        if chars_eq(table[k].0.as_slice(), v.as_slice()) {
            proof {
                assert(table@[k as int].0@ == vt[k as int].0);
                assert(vt[k as int].0 == v@);
                assert(0 <= k < verb_table().len() && verb_table()[k as int].0 == v@);
                let c = choose|m: int| 0 <= m < verb_table().len() && verb_table()[m].0 == v@;
                lemma_verb_table_distinct(c, k as int);
                assert(normalized_action(verb@) == vt[k as int].1);
            }
            return string_of(table[k].1.as_slice());
        }
        k += 1;
    }
    string_of(v.as_slice())
}

/// Verbs of the table are distinct.
proof fn lemma_verb_table_distinct(a: int, b: int)
    requires
        0 <= a < 24,
        0 <= b < 24,
        verb_table()[a].0 == verb_table()[b].0,
    ensures
        verb_table()[a].1 == verb_table()[b].1,
{
    let vt = verb_table();
    if vt[a].0.len() == 1 && vt[b].0.len() == 1 {
        assert(vt[a].0[0] == vt[b].0[0]);
    } else if vt[a].0.len() == 2 && vt[b].0.len() == 2 {
        assert(vt[a].0[0] == vt[b].0[0]);
        assert(vt[a].0[1] == vt[b].0[1]);
    }
}

/// The keywords that mark a phrase as carrying time information.
pub open spec fn time_keywords() -> Seq<Seq<char>> {
    seq![
        seq!['今', '天'], seq!['昨', '天'], seq!['前', '天'], seq!['明', '天'], seq!['后', '天'],
        seq!['上', '午'], seq!['下', '午'], seq!['早', '上'], seq!['晚', '上'], seq!['夜', '里'], seq!['中', '午'],
        seq!['本', '周'], seq!['上', '周'], seq!['下', '周'],
        seq!['天', '前'], seq!['周', '前'], seq!['月', '前']
    ]
}

/// Whether the text mentions a time keyword.
pub fn has_time_info(text: &str) -> (r: bool)
    ensures
        r == exists|k: int| 0 <= k < time_keywords().len() && seq_contains(text@, #[trigger] time_keywords()[k]),
{
    let t = chars_of(text);
    assert(t@ == text@);
    let kws: Vec<Vec<char>> = vec![
        vec!['今', '天'], vec!['昨', '天'], vec!['前', '天'], vec!['明', '天'], vec!['后', '天'],
        vec!['上', '午'], vec!['下', '午'], vec!['早', '上'], vec!['晚', '上'], vec!['夜', '里'], vec!['中', '午'],
        vec!['本', '周'], vec!['上', '周'], vec!['下', '周'],
        vec!['天', '前'], vec!['周', '前'], vec!['月', '前']
    ];
    let ghost tk = time_keywords();
    proof {
        assert forall|k: int| 0 <= k < 17 implies (#[trigger] kws@[k])@ == tk[k] by {
            assert(kws@[k]@ =~= tk[k]);
        }
    }
    let mut k: usize = 0;
    while k < kws.len()
        invariant
            kws@.len() == 17,
            t@ == text@,
            tk == time_keywords(),
            forall|m: int| 0 <= m < 17 ==> (#[trigger] kws@[m])@ == tk[m],
            k <= 17,
            forall|m: int| 0 <= m < k ==> !seq_contains(t@, #[trigger] tk[m]),
        decreases 17 - k,
    {
        assert(kws@[k as int]@ == tk[k as int]);
        let found = contains(t.as_slice(), kws[k].as_slice());
        assert(found == seq_contains(t@, tk[k as int]));
        if found {
            assert(seq_contains(text@, tk[k as int]));
            return true;
        }
        k += 1;
    }
    false
}


/// Relies on chrono's `Local::now` and `FixedOffset::local_minus_utc`: the
/// install's current offset from UTC in seconds, which chrono keeps under a
/// day in size. It depends on the machine's time zone and the date.
#[verifier::external_body]
fn local_offset_secs() -> (r: i32)
    ensures
        -86400 < r < 86400,
{
    chrono::Local::now().offset().local_minus_utc()
}

/// The weekday number of a day character: 一 (Monday, 1) to 六 (6), and
/// 日 or 天 for Sunday (7).
pub open spec fn weekday_number(c: char) -> Option<int> {
    if c == '一' { Some(1) }
    else if c == '二' { Some(2) }
    else if c == '三' { Some(3) }
    else if c == '四' { Some(4) }
    else if c == '五' { Some(5) }
    else if c == '六' { Some(6) }
    else if c == '日' || c == '天' { Some(7) }
    else { None }
}

/// Largest count of days that `N天前` accepts.
pub const MAX_DAYS_AGO: u64 = 1_000_000;

/// The day shift of a weekday phrase's prefix, given the target and current
/// weekday numbers: 今天/昨天/明天 name the day itself, 上周/下周 move a week,
/// 本周 or no prefix stay in this week.
pub open spec fn prefix_shift(p: Seq<char>, target: int, current: int) -> Option<int> {
    if p == seq!['今', '天'] { Some(0) }
    else if p == seq!['昨', '天'] { Some(-1) }
    else if p == seq!['明', '天'] { Some(1) }
    else if p == seq!['上', '周'] { Some(target - current - 7) }
    else if p == seq!['下', '周'] { Some(target - current + 7) }
    else if p == seq!['本', '周'] || p.len() == 0 { Some(target - current) }
    else { None }
}

/// A weekday phrase: an optional prefix, an optional 周, and a day character.
pub open spec fn weekday_phrase(t: Seq<char>, current: int) -> Option<int> {
    if t.len() == 0 || weekday_number(t.last()) is None {
        None
    } else {
        let target = weekday_number(t.last())->Some_0;
        let body = t.drop_last();
        if prefix_shift(body, target, current) is Some {
            prefix_shift(body, target, current)
        } else if body.len() > 0 && body.last() == '周' {
            prefix_shift(body.drop_last(), target, current)
        } else {
            None
        }
    }
}

/// What a time phrase means, as a shift in days from today and an hour of
/// that day, given today's weekday number (Monday is 1).
pub open spec fn phrase_meaning(t: Seq<char>, current: int) -> Option<(int, int)> {
    if t == seq!['今', '天'] { Some((0, 0)) }
    else if t == seq!['昨', '天'] { Some((-1, 0)) }
    else if t == seq!['前', '天'] { Some((-2, 0)) }
    else if t.len() > 2 && t[t.len() - 2] == '天' && t[t.len() - 1] == '前'
        && all_digits(t.subrange(0, t.len() - 2)) {
        let n = digits_value(t.subrange(0, t.len() - 2));
        if n <= MAX_DAYS_AGO { Some((-n, 0)) } else { None }
    }
    else if t == seq!['今', '天', '上', '午'] || t == seq!['今', '天', '早', '上'] { Some((0, 9)) }
    else if t == seq!['今', '天', '下', '午'] { Some((0, 14)) }
    else if t == seq!['今', '天', '晚', '上'] || t == seq!['今', '天', '夜', '里'] { Some((0, 20)) }
    else {
        match weekday_phrase(t, current) {
            Some(d) => Some((d, 0)),
            None => None,
        }
    }
}

/// The local day number of a UTC time, and its weekday (Monday is 1).
pub open spec fn local_day(now: i64, offset: i32) -> int {
    (now as int + offset as int) / 86400
}

pub open spec fn local_weekday(now: i64, offset: i32) -> int {
    (local_day(now, offset) + 3) % 7 + 1
}

/// The UTC time a phrase names: the local day shifted as the phrase says,
/// at the phrase's hour in local time, converted to UTC.
pub open spec fn phrase_time(t: Seq<char>, now: i64, offset: i32) -> Option<int> {
    match phrase_meaning(trim(t), local_weekday(now, offset)) {
        Some((d, h)) => Some((local_day(now, offset) + d) * 86400 + h * 3600 - offset as int),
        None => None,
    }
}

fn weekday_of(c: char) -> (r: Option<i64>)
    ensures
        r is Some <==> weekday_number(c) is Some,
        r is Some ==> r->Some_0 == weekday_number(c)->Some_0,
{
    if c == '一' { Some(1) }
    else if c == '二' { Some(2) }
    else if c == '三' { Some(3) }
    else if c == '四' { Some(4) }
    else if c == '五' { Some(5) }
    else if c == '六' { Some(6) }
    else if c == '日' || c == '天' { Some(7) }
    else { None }
}

fn is_word(t: &[char], a: char, b: char) -> (r: bool)
    ensures
        r == (t@ == seq![a, b]),
{
    let r = t.len() == 2 && t[0] == a && t[1] == b;
    if r {
        assert(t@ =~= seq![a, b]);
    }
    r
}

fn is_word4(t: &[char], a: char, b: char, c: char, d: char) -> (r: bool)
    ensures
        r == (t@ == seq![a, b, c, d]),
{
    let r = t.len() == 4 && t[0] == a && t[1] == b && t[2] == c && t[3] == d;
    if r {
        assert(t@ =~= seq![a, b, c, d]);
    }
    r
}

/// What a trimmed phrase means, as a day shift and an hour.
fn meaning(t: &[char], current: i64) -> (r: Option<(i64, i64)>)
    requires
        1 <= current <= 7,
    ensures
        r is None <==> phrase_meaning(t@, current as int) is None,
        r is Some ==> phrase_meaning(t@, current as int) == Some((r->Some_0.0 as int, r->Some_0.1 as int)),
        r is Some ==> -1_000_000 <= r->Some_0.0 <= 14 && 0 <= r->Some_0.1 <= 20,
{
    let n = t.len();
    if is_word(t, '今', '天') { return Some((0, 0)); }
    if is_word(t, '昨', '天') { return Some((-1, 0)); }
    if is_word(t, '前', '天') { return Some((-2, 0)); }
    if n > 2 && t[n - 2] == '天' && t[n - 1] == '前' {
        let head = &t[0..n - 2];
        assert(head@ =~= t@.subrange(0, n - 2));
        let mut all = true;
        let mut i: usize = 0;
        while i < head.len()
            invariant
                i <= head@.len(),
                all == forall|j: int| 0 <= j < i ==> is_digit(#[trigger] head@[j]),
            decreases head@.len() - i,
        {
            if !('0' <= head[i] && head[i] <= '9') {
                all = false;
            }
            i += 1;
        }
        if all {
            match digits_of(head) {
                Some(v) => {
                    if v <= MAX_DAYS_AGO {
                        return Some((-(v as i64), 0));
                    }
                    return None;
                },
                None => {
                    return None;
                },
            }
        }
    }
    if is_word4(t, '今', '天', '上', '午') || is_word4(t, '今', '天', '早', '上') { return Some((0, 9)); }
    if is_word4(t, '今', '天', '下', '午') { return Some((0, 14)); }
    if is_word4(t, '今', '天', '晚', '上') || is_word4(t, '今', '天', '夜', '里') { return Some((0, 20)); }
    if n == 0 {
        return None;
    }
    let target = match weekday_of(t[n - 1]) {
        Some(w) => w,
        None => {
            return None;
        },
    };
    let body = &t[0..n - 1];
    assert(body@ =~= t@.drop_last());
    if let Some(d) = shift_of(body, target, current) {
        return Some((d, 0));
    }
    if body.len() > 0 && body[body.len() - 1] == '周' {
        let p = &body[0..body.len() - 1];
        assert(p@ =~= body@.drop_last());
        if let Some(d) = shift_of(p, target, current) {
            return Some((d, 0));
        }
    }
    None
}

fn shift_of(p: &[char], target: i64, current: i64) -> (r: Option<i64>)
    requires
        1 <= target <= 7,
        1 <= current <= 7,
    ensures
        r is None <==> prefix_shift(p@, target as int, current as int) is None,
        r is Some ==> prefix_shift(p@, target as int, current as int) == Some(r->Some_0 as int),
        r is Some ==> -13 <= r->Some_0 <= 13,
{
    if is_word(p, '今', '天') { return Some(0); }
    if is_word(p, '昨', '天') { return Some(-1); }
    if is_word(p, '明', '天') { return Some(1); }
    if is_word(p, '上', '周') { return Some(target - current - 7); }
    if is_word(p, '下', '周') { return Some(target - current + 7); }
    if is_word(p, '本', '周') || p.len() == 0 { return Some(target - current); }
    None
}

/// The UTC time that a time phrase names, for the current time `now` and the
/// install's offset from UTC; `None` for an unknown phrase.
pub fn parse_time_at(text: &str, now: i64, offset: i32) -> (r: Option<i64>)
    requires
        0 <= now < 0x2_0000_0000,
        -86400 < offset < 86400,
    ensures
        r is None <==> phrase_time(text@, now, offset) is None,
        r is Some ==> phrase_time(text@, now, offset) == Some(r->Some_0 as int),
{
    let all = chars_of(text);
    let t = trimmed(all.as_slice());
    let day = (now as i64 + offset as i64 + 86400) / 86400 - 1;
    proof {
        assert(day == local_day(now, offset));
    }
    let current = (day + 3) % 7 + 1;
    match meaning(t.as_slice(), current) {
        Some((d, h)) => Some((day + d) * 86400 + h * 3600 - offset as i64),
        None => None,
    }
}

/// Whether a phrase is understood does not depend on the weekday.
proof fn lemma_meaning_defined_alike(t: Seq<char>, c1: int, c2: int)
    ensures
        phrase_meaning(t, c1) is None <==> phrase_meaning(t, c2) is None,
{
}

/// Parses time phrases against a fixed current time.
pub struct TimeParser {
    pub now: i64,
}

impl TimeParser {
    /// A parser for the current time.
    pub fn new() -> (r: TimeParser)
    {
        TimeParser { now: crate::clock::now_timestamp() }
    }

    pub fn with_time(now: i64) -> (r: TimeParser)
        ensures
            r.now == now,
    {
        TimeParser { now }
    }

    /// The UTC time a phrase names, in the install's current time zone.
    pub fn parse(&self, text: &str) -> (r: Option<i64>)
        requires
            0 <= self.now < 0x2_0000_0000,
        ensures
            r is Some ==> exists|offset: i32| -86400 < offset < 86400 && phrase_time(text@, self.now, offset) == Some(r->Some_0 as int),
            forall|o: i32| -86400 < o < 86400 ==> (r is None <==> phrase_time(text@, self.now, o) is None),
    {
        let offset = local_offset_secs();
        proof {
            assert forall|o: i32| -86400 < o < 86400 implies (phrase_time(text@, self.now, o) is None
                <==> phrase_time(text@, self.now, offset) is None) by {
                lemma_meaning_defined_alike(trim(text@), local_weekday(self.now, o), local_weekday(self.now, offset));
            }
        }
        parse_time_at(text, self.now, offset)
    }
}


/// Characters that may form the verb of a quantity phrase.
pub open spec fn verb_class() -> Seq<char> {
    seq!['动', '词', '去', '来', '吃', '买', '做', '看', '读', '写', '听', '说', '玩', '运', '跑', '睡', '起', '工', '作', '学', '习', '消', '费', '支', '付']
}

/// Characters that may form a unit.
pub open spec fn unit_class() -> Seq<char> {
    seq!['个', '只', '件', '台', '本', '张', '次', '分', '钟', '小', '时', '天', '周', '月', '年', '公', '斤', '克', '两', '毫', '升', '米', '里', '元', '块', '百', '千', '万']
}

/// The verbs of a plain phrase, tried in this order at each position.
pub open spec fn plain_verbs() -> Seq<Seq<char>> {
    seq![
        seq!['去'], seq!['来'], seq!['吃'], seq!['喝'], seq!['买'], seq!['做'], seq!['看'], seq!['读'], seq!['写'],
        seq!['听'], seq!['说'], seq!['玩'], seq!['运', '动'], seq!['跑'], seq!['睡'], seq!['起'],
        seq!['工', '作'], seq!['学', '习']
    ]
}

/// The end of the run of characters of `cls` starting at `i`.
pub open spec fn class_end(s: Seq<char>, i: int, cls: Seq<char>) -> int
    decreases s.len() - i,
{
    if i < 0 || i >= s.len() || !cls.contains(s[i]) { i } else { class_end(s, i + 1, cls) }
}

/// The end of the run of ASCII digits starting at `i`.
pub open spec fn digit_end(s: Seq<char>, i: int) -> int
    decreases s.len() - i,
{
    if i < 0 || i >= s.len() || !is_digit(s[i]) { i } else { digit_end(s, i + 1) }
}

/// The end of the line holding position `i`.
pub open spec fn eol(s: Seq<char>, i: int) -> int
    decreases s.len() - i,
{
    if i < 0 || i >= s.len() || s[i] == '\n' { i } else { eol(s, i + 1) }
}

pub open spec fn is_marker(c: char) -> bool {
    c == '了' || c == '过'
}

/// Where the rest of a phrase starts after position `j`: past an aspect
/// marker (了 or 过) when one stands there and something follows it.
pub open spec fn after_marker(s: Seq<char>, j: int) -> int {
    if 0 <= j < s.len() && is_marker(s[j]) && eol(s, j + 1) > j + 1 { j + 1 } else { j }
}

/// The parts of a quantity phrase starting at `i`: verb end, digits start,
/// digits end, units end; the rest runs to the end of the line.
pub open spec fn quantity_parts(s: Seq<char>, i: int) -> (int, int, int, int) {
    let v = class_end(s, i, verb_class());
    let j = if 0 <= v < s.len() && is_marker(s[v]) { v + 1 } else { v };
    let d = digit_end(s, j);
    let u = class_end(s, d, unit_class());
    (v, j, d, u)
}

/// A quantity phrase starts at `i`: verb characters, an optional marker,
/// digits, unit characters, and at least one more character on the line.
pub open spec fn quantity_at(s: Seq<char>, i: int) -> bool {
    let (v, j, d, u) = quantity_parts(s, i);
    0 <= i < s.len() && v > i && d > j && u > d && eol(s, u) > u
}

/// Plain verb `k` starts at `i`, followed by at least one more character on
/// the line.
pub open spec fn plain_at(s: Seq<char>, i: int, k: int) -> bool {
    let w = plain_verbs()[k];
    &&& 0 <= k < plain_verbs().len()
    &&& 0 <= i && i + w.len() <= s.len()
    &&& s.subrange(i, i + w.len()) == w
    &&& eol(s, after_marker(s, i + w.len())) > after_marker(s, i + w.len())
}

/// Some plain verb starts a phrase at `i`.
pub open spec fn plain_somewhere(s: Seq<char>, i: int) -> bool {
    exists|k: int| plain_at(s, i, k)
}

/// One event found by extraction.
#[derive(Debug, Clone)]
pub struct ExtractedEvent {
    pub action: String,
    pub target: String,
    pub quantity: Option<u64>,
    pub unit: Option<String>,
    /// Thousandths.
    pub confidence: u32,
    /// `rule` or `provider`.
    pub method: String,
}

/// What the rule engine finds in a text: the leftmost quantity phrase, else
/// the leftmost plain phrase (the first verb of the list at that position),
/// as (action, target, quantity and unit, confidence).
pub open spec fn rule_result(s: Seq<char>) -> Option<(Seq<char>, Seq<char>, Option<(int, Seq<char>)>, int)> {
    if exists|i: int| quantity_at(s, i) {
        let i = choose|i: int| quantity_at(s, i) && forall|j: int| 0 <= j < i ==> !quantity_at(s, j);
        let (v, j, d, u) = quantity_parts(s, i);
        Some((
            normalized_action(s.subrange(i, v)),
            trim(s.subrange(u, eol(s, u))),
            Some((digits_value(s.subrange(j, d)), s.subrange(d, u))),
            700,
        ))
    } else if exists|i: int| plain_somewhere(s, i) {
        let i = choose|i: int| plain_somewhere(s, i) && forall|j: int| 0 <= j < i ==> !plain_somewhere(s, j);
        let k = choose|k: int| plain_at(s, i, k) && forall|m: int| 0 <= m < k ==> !plain_at(s, i, m);
        let w = plain_verbs()[k];
        let st = after_marker(s, i + w.len());
        Some((normalized_action(w), trim(s.subrange(st, eol(s, st))), None, 500))
    } else {
        None
    }
}


fn has_char(cls: &Vec<char>, c: char) -> (r: bool)
    ensures
        r == cls@.contains(c),
{
    let mut k: usize = 0;
    while k < cls.len()
        invariant
            k <= cls@.len(),
            forall|m: int| 0 <= m < k ==> cls@[m] != c,
        decreases cls@.len() - k,
    {
        if cls[k] == c {
            assert(cls@[k as int] == c);
            return true;
        }
        k += 1;
    }
    false
}

fn class_end_of(s: &[char], i: usize, cls: &Vec<char>) -> (r: usize)
    requires
        i <= s@.len(),
    ensures
        r == class_end(s@, i as int, cls@),
        i <= r <= s@.len(),
{
    let mut e = i;
    while e < s.len() && has_char(cls, s[e])
        invariant
            i <= e <= s@.len(),
            class_end(s@, i as int, cls@) == class_end(s@, e as int, cls@),
        decreases s@.len() - e,
    {
        e += 1;
    }
    e
}

fn digit_end_of(s: &[char], i: usize) -> (r: usize)
    requires
        i <= s@.len(),
    ensures
        r == digit_end(s@, i as int),
        i <= r <= s@.len(),
{
    let mut e = i;
    while e < s.len() && '0' <= s[e] && s[e] <= '9'
        invariant
            i <= e <= s@.len(),
            digit_end(s@, i as int) == digit_end(s@, e as int),
        decreases s@.len() - e,
    {
        e += 1;
    }
    e
}

fn eol_of(s: &[char], i: usize) -> (r: usize)
    requires
        i <= s@.len(),
    ensures
        r == eol(s@, i as int),
        i <= r <= s@.len(),
{
    let mut e = i;
    while e < s.len() && s[e] != '\n'
        invariant
            i <= e <= s@.len(),
            eol(s@, i as int) == eol(s@, e as int),
        decreases s@.len() - e,
    {
        e += 1;
    }
    e
}

fn copy_chars(s: &[char], lo: usize, hi: usize) -> (r: Vec<char>)
    requires
        lo <= hi <= s@.len(),
    ensures
        r@ == s@.subrange(lo as int, hi as int),
{
    let mut out: Vec<char> = Vec::new();
    let mut i: usize = lo;
    while i < hi
        invariant
            lo <= i <= hi,
            hi <= s@.len(),
            out@ == s@.subrange(lo as int, i as int),
        decreases hi - i,
    {
        out.push(s[i]);
        i += 1;
        assert(out@ =~= s@.subrange(lo as int, i as int));
    }
    out
}

fn after_marker_of(s: &[char], j: usize) -> (r: usize)
    requires
        j <= s@.len(),
    ensures
        r == after_marker(s@, j as int),
        j <= r <= s@.len(),
{
    if j < s.len() && (s[j] == '了' || s[j] == '过') && eol_of(s, j + 1) > j + 1 {
        j + 1
    } else {
        j
    }
}

fn rule_event(action: Vec<char>, target: Vec<char>, quantity: Option<(u64, Vec<char>)>, confidence: u32) -> (r: ExtractedEvent)
    ensures
        r.action@ == action@,
        r.target@ == target@,
        quantity is None ==> r.quantity is None && r.unit is None,
        quantity is Some ==> r.quantity == Some(quantity->Some_0.0) && r.unit is Some && r.unit->Some_0@ == quantity->Some_0.1@,
        r.confidence == confidence,
        r.method@ == "rule"@,
{
    let (q, u) = match quantity {
        Some((v, unit)) => (Some(v), Some(string_of(unit.as_slice()))),
        None => (None, None),
    };
    ExtractedEvent {
        action: string_of(action.as_slice()),
        target: string_of(target.as_slice()),
        quantity: q,
        unit: u,
        confidence,
        method: "rule".to_string(),
    }
}

/// The rule engine: the leftmost quantity phrase of the text, else its
/// leftmost plain phrase, as an event with confidence 0.7 or 0.5. A quantity
/// too large for `u64` is refused with a validation error.
pub fn rule_extract(text: &str) -> (r: Result<Option<ExtractedEvent>, DirSoulError>)
    ensures
        rule_result(text@) is None ==> r == Ok::<Option<ExtractedEvent>, DirSoulError>(None),
        r is Err ==> r->Err_0 is Validation && rule_result(text@) is Some && rule_result(text@)->Some_0.2 is Some,
        r is Ok && r->Ok_0 is Some ==> ({
            let e = r->Ok_0->Some_0;
            let (a, t, q, c) = rule_result(text@)->Some_0;
            &&& rule_result(text@) is Some
            &&& e.action@ == a
            &&& e.target@ == t
            &&& e.confidence == c
            &&& e.method@ == "rule"@
            &&& (q is None ==> e.quantity is None && e.unit is None)
            &&& (q is Some ==> e.quantity is Some && e.quantity->Some_0 == q->Some_0.0 && e.unit is Some && e.unit->Some_0@ == q->Some_0.1)
        }),
        r is Ok && r->Ok_0 is None ==> rule_result(text@) is None,
{
    let sv = chars_of(text);
    let s = sv.as_slice();
    let verbs = vec!['动', '词', '去', '来', '吃', '买', '做', '看', '读', '写', '听', '说', '玩', '运', '跑', '睡', '起', '工', '作', '学', '习', '消', '费', '支', '付'];
    let units = vec!['个', '只', '件', '台', '本', '张', '次', '分', '钟', '小', '时', '天', '周', '月', '年', '公', '斤', '克', '两', '毫', '升', '米', '里', '元', '块', '百', '千', '万'];
    assert(verbs@ =~= verb_class());
    assert(units@ =~= unit_class());
    let n = s.len();
    let mut i: usize = 0;
    while i < n
        invariant
            n == s@.len(),
            s@ == text@,
            verbs@ == verb_class(),
            units@ == unit_class(),
            i <= n,
            forall|j: int| 0 <= j < i ==> !quantity_at(s@, j),
        decreases n - i,
    {
        let v = class_end_of(s, i, &verbs);
        let j = if v < n && (s[v] == '了' || s[v] == '过') { v + 1 } else { v };
        let d = digit_end_of(s, j);
        let u = class_end_of(s, d, &units);
        let e = eol_of(s, u);
        if v > i && d > j && u > d && e > u {
            proof {
                assert(quantity_at(s@, i as int));
                let f = choose|f: int| quantity_at(s@, f) && forall|g: int| 0 <= g < f ==> !quantity_at(s@, g);
                if f < i as int {
                } else if f > i as int {
                    assert(!quantity_at(s@, i as int));
                }
                assert(f == i as int);
            }
            let verb = copy_chars(s, i, v);
            let vs = string_of(verb.as_slice());
            let action = chars_of(normalize_action(vs.as_str()).as_str());
            let digits = copy_chars(s, j, d);
            let value = match digits_of(digits.as_slice()) {
                Some(x) => x,
                None => {
                    proof {
                        assert(forall|k: int| 0 <= k < digits@.len() ==> is_digit(#[trigger] digits@[k])) by {
                            lemma_digit_run(s@, j as int, d as int);
                        }
                    }
                    return Err(DirSoulError::Validation("quantity too large".to_string()));
                },
            };
            let unit = copy_chars(s, d, u);
            let rest = copy_chars(s, u, e);
            let target = crate::text::trimmed(rest.as_slice());
            return Ok(Some(rule_event(action, target, Some((value, unit)), 700)));
        }
        i += 1;
    }
    proof {
        assert forall|j: int| !quantity_at(s@, j) by {}
    }
    let plain: Vec<Vec<char>> = vec![
        vec!['去'], vec!['来'], vec!['吃'], vec!['喝'], vec!['买'], vec!['做'], vec!['看'], vec!['读'], vec!['写'],
        vec!['听'], vec!['说'], vec!['玩'], vec!['运', '动'], vec!['跑'], vec!['睡'], vec!['起'],
        vec!['工', '作'], vec!['学', '习']
    ];
    let ghost pv = plain_verbs();
    proof {
        assert forall|k: int| 0 <= k < 18 implies (#[trigger] plain@[k])@ == pv[k] by {
            assert(plain@[k]@ =~= pv[k]);
        }
    }
    let mut i: usize = 0;
    while i < n
        invariant
            n == s@.len(),
            s@ == text@,
            plain@.len() == 18,
            pv == plain_verbs(),
            forall|k: int| 0 <= k < 18 ==> (#[trigger] plain@[k])@ == pv[k],
            i <= n,
            forall|j: int| !quantity_at(s@, j),
            forall|j: int| 0 <= j < i ==> !plain_somewhere(s@, j),
        decreases n - i,
    {
        let mut k: usize = 0;
        while k < 18
            invariant
                n == s@.len(),
                s@ == text@,
                plain@.len() == 18,
                pv == plain_verbs(),
                forall|m: int| 0 <= m < 18 ==> (#[trigger] plain@[m])@ == pv[m],
                i < n,
                k <= 18,
                forall|j: int| !quantity_at(s@, j),
                forall|j: int| 0 <= j < i ==> !plain_somewhere(s@, j),
                forall|m: int| 0 <= m < k ==> !plain_at(s@, i as int, m),
            decreases 18 - k,
        {
            let w = plain[k].as_slice();
            assert(w@ == pv[k as int]);
            if w.len() <= n - i {
                let seg = copy_chars(s, i, i + w.len());
                if crate::text::chars_eq(seg.as_slice(), w) {
                    let st = after_marker_of(s, i + w.len());
                    let e = eol_of(s, st);
                    if e > st {
                        proof {
                            assert(plain_at(s@, i as int, k as int));
                            assert(plain_somewhere(s@, i as int));
                            let f = choose|f: int| plain_somewhere(s@, f) && forall|g: int| 0 <= g < f ==> !plain_somewhere(s@, g);
                            if f < i as int {
                            } else if f > i as int {
                                assert(!plain_somewhere(s@, i as int));
                            }
                            assert(f == i as int);
                            let kk = choose|kk: int| plain_at(s@, i as int, kk) && forall|m: int| 0 <= m < kk ==> !plain_at(s@, i as int, m);
                            if kk < k as int {
                            } else if kk > k as int {
                                assert(!plain_at(s@, i as int, k as int));
                            }
                            assert(kk == k as int);
                            assert(!(exists|j: int| quantity_at(s@, j)));
                        }
                        let vs = string_of(w);
                        let action = chars_of(normalize_action(vs.as_str()).as_str());
                        let rest = copy_chars(s, st, e);
                        let target = crate::text::trimmed(rest.as_slice());
                        return Ok(Some(rule_event(action, target, None, 500)));
                    }
                }
            }
            k += 1;
        }
        proof {
            assert forall|m: int| !plain_at(s@, i as int, m) by {
                if 0 <= m < 18 {}
            }
            assert(!plain_somewhere(s@, i as int));
        }
        i += 1;
    }
    proof {
        assert forall|j: int| !plain_somewhere(s@, j) by {
            if 0 <= j < n {} else {
                assert forall|m: int| !plain_at(s@, j, m) by {}
            }
        }
    }
    Ok(None)
}

proof fn lemma_digit_run(s: Seq<char>, j: int, d: int)
    requires
        0 <= j <= d <= s.len(),
        d == digit_end(s, j),
    ensures
        forall|k: int| 0 <= k < d - j ==> is_digit(#[trigger] s.subrange(j, d)[k]),
    decreases d - j,
{
    if j < d {
        lemma_digit_run(s, j + 1, d);
        assert forall|k: int| 0 <= k < d - j implies is_digit(#[trigger] s.subrange(j, d)[k]) by {
            if k > 0 {
                assert(s.subrange(j, d)[k] == s.subrange(j + 1, d)[k - 1]);
            }
        }
    }
}

} // verus!
