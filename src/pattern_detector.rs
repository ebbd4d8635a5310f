//! Windowed statistics over the event stream: high-frequency behaviour,
//! trends, anomalies against a baseline, and weekly routines.
//!
//! All thresholds and results are exact integer arithmetic: frequencies,
//! ratios and confidences are thousandths.
use vstd::prelude::*;

use crate::clock::SECONDS_PER_DAY;
use crate::models::EventMemory;

verus! {

/// Timestamps the detector accepts lie in `[0, TIMESTAMP_LIMIT)` (up to the
/// year 2242).
pub const TIMESTAMP_LIMIT: i64 = 0x2_0000_0000;

/// Most events one detection pass accepts in each window.
pub const EVENT_LIMIT: usize = 0x10_0000;

/// The grouping key of an event.
pub open spec fn key_of(e: EventMemory) -> (Seq<char>, Seq<char>) {
    (e.action@, e.target@)
}

/// The distinct `(action, target)` keys of `evs`, in order of first occurrence.
pub open spec fn group_keys(evs: Seq<EventMemory>) -> Seq<(Seq<char>, Seq<char>)>
    decreases evs.len(),
{
    if evs.len() == 0 {
        Seq::empty()
    } else {
        let prev = group_keys(evs.drop_last());
        if prev.contains(key_of(evs.last())) {
            prev
        } else {
            prev.push(key_of(evs.last()))
        }
    }
}

/// The timestamps of the events of `evs` with key `k`, in order.
pub open spec fn times_for(evs: Seq<EventMemory>, k: (Seq<char>, Seq<char>)) -> Seq<i64>
    decreases evs.len(),
{
    if evs.len() == 0 {
        Seq::empty()
    } else {
        let prev = times_for(evs.drop_last(), k);
        if key_of(evs.last()) == k {
            prev.push(evs.last().timestamp)
        } else {
            prev
        }
    }
}

/// Events of one `(action, target)` pair.
#[derive(Debug, Clone)]
pub struct EventGroup {
    pub action: String,
    pub target: String,
    pub times: Vec<i64>,
}

impl EventGroup {
    pub open spec fn key(&self) -> (Seq<char>, Seq<char>) {
        (self.action@, self.target@)
    }
}

/// The groups of `evs` are exactly its keys in order of first occurrence,
/// each with its timestamps.
pub open spec fn groups_match(gs: Seq<EventGroup>, evs: Seq<EventMemory>) -> bool {
    &&& gs.len() == group_keys(evs).len()
    &&& forall|g: int| 0 <= g < gs.len() ==> (#[trigger] gs[g]).key() == group_keys(evs)[g]
        && gs[g].times@ == times_for(evs, group_keys(evs)[g])
}

proof fn lemma_group_keys_distinct(evs: Seq<EventMemory>)
    ensures
        group_keys(evs).no_duplicates(),
    decreases evs.len(),
{
    if evs.len() > 0 {
        lemma_group_keys_distinct(evs.drop_last());
    }
}

proof fn lemma_times_absent(evs: Seq<EventMemory>, k: (Seq<char>, Seq<char>))
    requires
        !group_keys(evs).contains(k),
    ensures
        times_for(evs, k) == Seq::<i64>::empty(),
    decreases evs.len(),
{
    if evs.len() > 0 {
        let prev = group_keys(evs.drop_last());
        if prev.contains(key_of(evs.last())) {
        } else {
            assert(prev.push(key_of(evs.last())).last() == key_of(evs.last()));
        }
        if prev.contains(k) {
            let idx = choose|idx: int| 0 <= idx < prev.len() && prev[idx] == k;
            if !prev.contains(key_of(evs.last())) {
                assert(prev.push(key_of(evs.last()))[idx] == k);
            }
            assert(group_keys(evs).contains(k));
        }
        lemma_times_absent(evs.drop_last(), k);
    }
}

fn find_group(groups: &Vec<EventGroup>, action: &String, target: &String) -> (r: Option<usize>)
    ensures
        r is Some ==> r->Some_0 < groups@.len() && groups@[r->Some_0 as int].key() == (action@, target@),
        r is None ==> forall|g: int| 0 <= g < groups@.len() ==> groups@[g].key() != (action@, target@),
{
    let mut g: usize = 0;
    while g < groups.len()
        invariant
            g <= groups@.len(),
            forall|h: int| 0 <= h < g ==> groups@[h].key() != (action@, target@),
        decreases groups@.len() - g,
    {
        if groups[g].action == *action && groups[g].target == *target {
            return Some(g);
        }
        g += 1;
    }
    None
}

/// Groups `events` by `(action, target)`, in order of first occurrence.
pub fn group_events(events: &[EventMemory]) -> (r: Vec<EventGroup>)
    ensures
        groups_match(r@, events@),
{
    let mut groups: Vec<EventGroup> = Vec::new();
    let mut i: usize = 0;
    while i < events.len()
        invariant
            i <= events@.len(),
            groups_match(groups@, events@.subrange(0, i as int)),
        decreases events@.len() - i,
    {
        let ghost pre = events@.subrange(0, i as int);
        let ghost post = events@.subrange(0, i + 1);
        let e = &events[i];
        proof {
            assert(post.drop_last() =~= pre);
            assert(post.last() == events@[i as int]);
            lemma_group_keys_distinct(pre);
        }
        match find_group(&groups, &e.action, &e.target) {
            Some(g) => {
                let ghost before = groups@;
                let mut grp = groups.remove(g);
                grp.times.push(e.timestamp);
                groups.insert(g, grp);
                proof {
                    assert(group_keys(pre)[g as int] == key_of(*e));
                    assert(group_keys(pre).contains(key_of(*e)));
                    assert(group_keys(post) == group_keys(pre));
                    assert forall|h: int| 0 <= h < groups@.len() implies (#[trigger] groups@[h]).key() == group_keys(post)[h]
                        && groups@[h].times@ == times_for(post, group_keys(post)[h]) by {
                        if h != g as int {
                            assert(groups@[h] == before[h]);
                            assert(group_keys(pre)[h] != group_keys(pre)[g as int]);
                        }
                    }
                }
            },
            None => {
                let grp = EventGroup { action: e.action.clone(), target: e.target.clone(), times: vec![e.timestamp] };
                let ghost before = groups@;
                groups.push(grp);
                proof {
                    assert(!group_keys(pre).contains(key_of(*e))) by {
                        if group_keys(pre).contains(key_of(*e)) {
                            let idx = choose|idx: int| 0 <= idx < group_keys(pre).len() && group_keys(pre)[idx] == key_of(*e);
                            assert(before[idx].key() == key_of(*e));
                        }
                    }
                    assert(group_keys(post) == group_keys(pre).push(key_of(*e)));
                    lemma_times_absent(pre, key_of(*e));
                    assert forall|h: int| 0 <= h < groups@.len() implies (#[trigger] groups@[h]).key() == group_keys(post)[h]
                        && groups@[h].times@ == times_for(post, group_keys(post)[h]) by {
                        if h < before.len() {
                            assert(groups@[h] == before[h]);
                            assert(group_keys(pre)[h] != key_of(*e));
                        } else {
                            assert(groups@[h].times@ =~= Seq::<i64>::empty().push(e.timestamp));
                        }
                    }
                }
            },
        }
        i += 1;
    }
    assert(events@.subrange(0, events@.len() as int) =~= events@);
    groups
}


/// Every timestamp lies in `[0, TIMESTAMP_LIMIT)`.
pub open spec fn times_in_range(ts: Seq<i64>) -> bool {
    forall|j: int| 0 <= j < ts.len() ==> 0 <= #[trigger] ts[j] < TIMESTAMP_LIMIT
}

/// The gap between consecutive timestamps `j` and `j + 1`.
pub open spec fn gap(ts: Seq<i64>, j: int) -> int {
    ts[j + 1] as int - ts[j] as int
}

/// The sum of the first `k` gaps.
pub open spec fn gap_sum(ts: Seq<i64>, k: int) -> int
    decreases k,
{
    if k <= 0 { 0 } else { gap_sum(ts, k - 1) + gap(ts, k - 1) }
}

/// The sum of the squares of the first `k` gaps.
pub open spec fn gap_square_sum(ts: Seq<i64>, k: int) -> int
    decreases k,
{
    if k <= 0 { 0 } else { gap_square_sum(ts, k - 1) + gap(ts, k - 1) * gap(ts, k - 1) }
}

/// The consistency score `clamp(1 - std(gaps) / mean(gaps), 0, 1)` is at
/// least `c` thousandths, where the coefficient of variation counts as zero
/// when the mean gap is not positive and the score is zero with fewer than
/// two events. With `m` gaps of sum `s` and square sum `q`, for
/// `0 < c <= 1000` and `s > 0` this is `10^6 (m q - s^2) <= (1000 - c)^2 s^2`.
pub open spec fn consistency_at_least(ts: Seq<i64>, c: int) -> bool {
    if ts.len() < 2 {
        c <= 0
    } else {
        let m = ts.len() - 1;
        let s = gap_sum(ts, m);
        let q = gap_square_sum(ts, m);
        if c <= 0 {
            true
        } else if c > 1000 {
            false
        } else if s <= 0 {
            true
        } else {
            1_000_000 * (m * q - s * s) <= (1000 - c) * (1000 - c) * (s * s)
        }
    }
}

/// The largest `c <= from` (and at least zero) for which the score is at
/// least `c` thousandths.
pub open spec fn best_consistency(ts: Seq<i64>, from: int) -> int
    decreases from,
{
    if from <= 0 {
        0
    } else if consistency_at_least(ts, from) {
        from
    } else {
        best_consistency(ts, from - 1)
    }
}

/// The consistency score in thousandths, rounded down.
pub open spec fn consistency_milli(ts: Seq<i64>) -> int {
    best_consistency(ts, 1000)
}

proof fn lemma_gap_bounds(ts: Seq<i64>, k: int)
    requires
        times_in_range(ts),
        0 <= k < ts.len(),
    ensures
        -(k * TIMESTAMP_LIMIT) <= gap_sum(ts, k) <= k * TIMESTAMP_LIMIT,
        0 <= gap_square_sum(ts, k) <= k * (TIMESTAMP_LIMIT * TIMESTAMP_LIMIT),
    decreases k,
{
    if k > 0 {
        lemma_gap_bounds(ts, k - 1);
        let g = gap(ts, k - 1);
        assert(ts[k] < TIMESTAMP_LIMIT && ts[k - 1] >= 0 && ts[k] >= 0 && ts[k - 1] < TIMESTAMP_LIMIT);
        assert(-TIMESTAMP_LIMIT < g < TIMESTAMP_LIMIT);
        assert(0 <= g * g <= TIMESTAMP_LIMIT * TIMESTAMP_LIMIT) by (nonlinear_arith)
            requires
                -TIMESTAMP_LIMIT < g < TIMESTAMP_LIMIT,
        ;
    }
}

/// The consistency score of `times` in thousandths, rounded down.
pub fn consistency_score(times: &[i64]) -> (r: u32)
    requires
        times_in_range(times@),
        times@.len() <= EVENT_LIMIT,
    ensures
        r == consistency_milli(times@),
        r <= 1000,
{
    let n = times.len();
    if n < 2 {
        proof {
            assert forall|c: int| 0 < c <= 1000 implies !consistency_at_least(times@, c) by {}
            lemma_best_consistency_none(times@, 1000);
        }
        return 0;
    }
    let m = n - 1;
    let mut s: i128 = 0;
    let mut q: i128 = 0;
    let mut j: usize = 0;
    while j < m
        invariant
            m == times@.len() - 1,
            times@.len() <= EVENT_LIMIT,
            times_in_range(times@),
            j <= m,
            s == gap_sum(times@, j as int),
            q == gap_square_sum(times@, j as int),
        decreases m - j,
    {
        proof {
            lemma_gap_bounds(times@, j as int);
            assert(j * TIMESTAMP_LIMIT <= EVENT_LIMIT * TIMESTAMP_LIMIT) by (nonlinear_arith)
                requires j <= EVENT_LIMIT;
            assert(j * (TIMESTAMP_LIMIT * TIMESTAMP_LIMIT) <= EVENT_LIMIT * (TIMESTAMP_LIMIT * TIMESTAMP_LIMIT)) by (nonlinear_arith)
                requires j <= EVENT_LIMIT;
            lemma_gap_bounds(times@, j + 1);
            assert((j + 1) * TIMESTAMP_LIMIT <= EVENT_LIMIT * TIMESTAMP_LIMIT) by (nonlinear_arith)
                requires j + 1 <= EVENT_LIMIT;
            assert((j + 1) * (TIMESTAMP_LIMIT * TIMESTAMP_LIMIT) <= EVENT_LIMIT * (TIMESTAMP_LIMIT * TIMESTAMP_LIMIT)) by (nonlinear_arith)
                requires j + 1 <= EVENT_LIMIT;
        }
        let g: i128 = times[j + 1] as i128 - times[j] as i128;
        s = s + g;
        q = q + g * g;
        j += 1;
    }
    proof {
        lemma_gap_bounds(times@, m as int);
        assert(m * TIMESTAMP_LIMIT <= EVENT_LIMIT * TIMESTAMP_LIMIT) by (nonlinear_arith)
            requires m <= EVENT_LIMIT;
        assert(m * (TIMESTAMP_LIMIT * TIMESTAMP_LIMIT) <= EVENT_LIMIT * (TIMESTAMP_LIMIT * TIMESTAMP_LIMIT)) by (nonlinear_arith)
            requires m <= EVENT_LIMIT;
    }
    proof {
        assert(EVENT_LIMIT * TIMESTAMP_LIMIT == 0x20_0000_0000_0000int);
        assert(EVENT_LIMIT * (TIMESTAMP_LIMIT * TIMESTAMP_LIMIT) == 0x40_0000_0000_0000_0000_0000int);
        assert(0 <= s * s <= 0x400_0000_0000_0000_0000_0000_0000int) by (nonlinear_arith)
            requires -0x20_0000_0000_0000int <= s <= 0x20_0000_0000_0000int;
        assert(0 <= (m as int) * q <= 0x400_0000_0000_0000_0000_0000_0000int) by (nonlinear_arith)
            requires 0 <= q <= 0x40_0000_0000_0000_0000_0000int, 0 <= m <= 0x10_0000int;
    }
    let ss: i128 = s * s;
    let mq: i128 = (m as i128) * q;
    let mut c: u32 = 1000;
    while c > 0
        invariant
            c <= 1000,
            times@.len() >= 2,
            m == times@.len() - 1,
            s == gap_sum(times@, m as int),
            q == gap_square_sum(times@, m as int),
            ss == s * s,
            mq == m * q,
            0 <= ss <= 0x400_0000_0000_0000_0000_0000_0000int,
            0 <= mq <= 0x400_0000_0000_0000_0000_0000_0000int,
            best_consistency(times@, 1000) == best_consistency(times@, c as int),
        decreases c,
    {
        let k: i128 = (1000 - c) as i128;
        proof {
            assert(0 <= k * k <= 1_000_000) by (nonlinear_arith)
                requires 0 <= k <= 1000;
            assert(0 <= (k * k) * ss <= 1_000_000 * 0x400_0000_0000_0000_0000_0000_0000int) by (nonlinear_arith)
                requires 0 <= k * k <= 1_000_000, 0 <= ss <= 0x400_0000_0000_0000_0000_0000_0000int;
        }
        proof {
            assert(-1_000_000 * 0x400_0000_0000_0000_0000_0000_0000int <= 1_000_000 * (mq - ss) <= 1_000_000 * 0x400_0000_0000_0000_0000_0000_0000int) by (nonlinear_arith)
                requires
                    0 <= ss <= 0x400_0000_0000_0000_0000_0000_0000int,
                    0 <= mq <= 0x400_0000_0000_0000_0000_0000_0000int,
            ;
        }
        let holds = s <= 0 || 1_000_000 * (mq - ss) <= (k * k) * ss;
        if holds {
            proof {
                assert(consistency_at_least(times@, c as int));
            }
            return c;
        }
        c -= 1;
    }
    0
}

proof fn lemma_best_consistency_none(ts: Seq<i64>, from: int)
    requires
        forall|c: int| 0 < c <= from ==> !consistency_at_least(ts, c),
    ensures
        best_consistency(ts, from) == 0,
    decreases from,
{
    if from > 0 {
        lemma_best_consistency_none(ts, from - 1);
    }
}


/// Most days a detection window or baseline may span.
pub const DAY_LIMIT: i64 = 0x2_0000;

/// Every event's timestamp lies in `[0, TIMESTAMP_LIMIT)`.
pub open spec fn events_in_range(evs: Seq<EventMemory>) -> bool {
    forall|j: int| 0 <= j < evs.len() ==> 0 <= #[trigger] evs[j].timestamp < TIMESTAMP_LIMIT
}

proof fn lemma_times_for_props(evs: Seq<EventMemory>, k: (Seq<char>, Seq<char>))
    requires
        events_in_range(evs),
    ensures
        times_for(evs, k).len() <= evs.len(),
        times_in_range(times_for(evs, k)),
    decreases evs.len(),
{
    if evs.len() > 0 {
        let pre = evs.drop_last();
        assert(events_in_range(pre)) by {
            assert forall|j: int| 0 <= j < pre.len() implies 0 <= #[trigger] pre[j].timestamp < TIMESTAMP_LIMIT by {
                assert(pre[j] == evs[j]);
            }
        }
        lemma_times_for_props(pre, k);
        assert(0 <= evs[evs.len() - 1].timestamp < TIMESTAMP_LIMIT);
    }
}

proof fn lemma_mul_bound(a: int, b: int, x: int, y: int)
    requires
        0 <= a <= x,
        0 <= b <= y,
    ensures
        0 <= a * b <= x * y,
{
    assert(0 <= a * b <= x * y) by (nonlinear_arith)
        requires 0 <= a <= x, 0 <= b <= y;
}

/// The four kinds of pattern.
#[derive(Debug, Clone, Copy, PartialEq, Eq, Structural)]
pub enum PatternType {
    HighFrequency,
    Trend,
    Anomaly,
    Temporal,
}

impl PatternType {
    pub fn as_str(&self) -> (r: &'static str)
    {
        match self {
            PatternType::HighFrequency => "high_frequency",
            PatternType::Trend => "trend",
            PatternType::Anomaly => "anomaly",
            PatternType::Temporal => "temporal",
        }
    }
}

#[derive(Debug, Clone, Copy, PartialEq, Eq, Structural)]
pub enum TrendDirection {
    Increasing,
    Decreasing,
    Stable,
}

/// What each kind of pattern reports besides its common fields. Rates are
/// thousandths of an event per day; changes and deviations are signed
/// thousandths.
#[derive(Debug, Clone, Copy, PartialEq, Eq, Structural)]
pub enum PatternMetadata {
    HighFrequency { per_day_milli: u64, consistency_milli: u32 },
    Trend { direction: TrendDirection, change_milli: i64, start_per_day_milli: u64, end_per_day_milli: u64 },
    Anomaly { expected_per_day_milli: u64, actual_per_day_milli: u64, deviation_milli: i64, baseline_window_days: i64, stopped: bool },
    /// `weekday` counts from Monday (0) to Sunday (6).
    Temporal { weekday: u8, occurrences: u64, weeks_observed: u64 },
}

/// One detected regularity.
#[derive(Debug, Clone)]
pub struct DetectedPattern {
    pub pattern_type: PatternType,
    pub user_id: String,
    pub action: String,
    pub target: String,
    /// Thousandths.
    pub confidence: u32,
    pub evidence_count: u64,
    pub time_span_days: i64,
    pub metadata: PatternMetadata,
    pub detected_at: i64,
}

/// What a pattern says, without its owner and detection time.
pub struct PatternView {
    pub pattern_type: PatternType,
    pub action: Seq<char>,
    pub target: Seq<char>,
    pub confidence: int,
    pub evidence_count: int,
    pub time_span_days: int,
    pub metadata: PatternMetadata,
}

impl View for DetectedPattern {
    type V = PatternView;

    open spec fn view(&self) -> PatternView {
        PatternView {
            pattern_type: self.pattern_type,
            action: self.action@,
            target: self.target@,
            confidence: self.confidence as int,
            evidence_count: self.evidence_count as int,
            time_span_days: self.time_span_days as int,
            metadata: self.metadata,
        }
    }
}

pub open spec fn views_of(ps: Seq<DetectedPattern>) -> Seq<PatternView> {
    ps.map_values(|p: DetectedPattern| p@)
}

/// Settings of the detector; rates and confidences in thousandths.
#[derive(Debug, Clone, Copy)]
pub struct PatternDetectorConfig {
    /// Events per day a pair needs to be frequent (0.5).
    pub min_frequency_threshold: u32,
    /// Least consistency of a frequent pair (0.6).
    pub min_confidence: u32,
    /// Least window, in days, for trends (7).
    pub min_trend_days: i64,
    /// Least relative deviation of an anomaly (0.5).
    pub min_anomaly_deviation: u32,
    /// Length of the baseline before the window, in days (30).
    pub anomaly_baseline_days: i64,
}

impl PatternDetectorConfig {
    pub open spec fn wf(&self) -> bool {
        &&& self.min_frequency_threshold <= 1000
        &&& self.min_confidence <= 1000
        &&& self.min_anomaly_deviation <= 1000
        &&& 0 <= self.anomaly_baseline_days <= DAY_LIMIT
    }

    pub fn default() -> (r: PatternDetectorConfig)
        ensures
            r.wf(),
            r.min_frequency_threshold == 500,
            r.min_confidence == 600,
            r.min_trend_days == 7,
            r.min_anomaly_deviation == 500,
            r.anomaly_baseline_days == 30,
    {
        PatternDetectorConfig {
            min_frequency_threshold: 500,
            min_confidence: 600,
            min_trend_days: 7,
            min_anomaly_deviation: 500,
            anomaly_baseline_days: 30,
        }
    }
}

/// The high-frequency pattern of one pair over a window of `days` days, if
/// the pair is frequent and consistent enough.
pub open spec fn high_frequency_view(k: (Seq<char>, Seq<char>), ts: Seq<i64>, days: int, cfg: PatternDetectorConfig) -> Seq<PatternView> {
    let n = ts.len() as int;
    if 1000 * n >= cfg.min_frequency_threshold as int * days && consistency_at_least(ts, cfg.min_confidence as int) {
        let c = consistency_milli(ts);
        seq![PatternView {
            pattern_type: PatternType::HighFrequency,
            action: k.0,
            target: k.1,
            confidence: c,
            evidence_count: n,
            time_span_days: days,
            metadata: PatternMetadata::HighFrequency {
                per_day_milli: (if days > 0 { n * 1000 / days } else { n * 1000 }) as u64,
                consistency_milli: c as u32,
            },
        }]
    } else {
        Seq::empty()
    }
}

/// High-frequency patterns of the first `j` groups of `evs`.
pub open spec fn high_frequency_upto(evs: Seq<EventMemory>, days: int, cfg: PatternDetectorConfig, j: int) -> Seq<PatternView>
    decreases j,
{
    if j <= 0 {
        Seq::empty()
    } else {
        let k = group_keys(evs)[j - 1];
        high_frequency_upto(evs, days, cfg, j - 1) + high_frequency_view(k, times_for(evs, k), days, cfg)
    }
}

fn pattern_of(
    pattern_type: PatternType,
    user_id: &String,
    group: &EventGroup,
    confidence: u32,
    evidence_count: u64,
    time_span_days: i64,
    metadata: PatternMetadata,
    now: i64,
) -> (r: DetectedPattern)
    ensures
        r@ == (PatternView {
            pattern_type,
            action: group.action@,
            target: group.target@,
            confidence: confidence as int,
            evidence_count: evidence_count as int,
            time_span_days: time_span_days as int,
            metadata,
        }),
        r.user_id@ == user_id@,
        r.detected_at == now,
{
    DetectedPattern {
        pattern_type,
        user_id: user_id.clone(),
        action: group.action.clone(),
        target: group.target.clone(),
        confidence,
        evidence_count,
        time_span_days,
        metadata,
        detected_at: now,
    }
}

/// The high-frequency pattern of one group, if any.
fn high_frequency_of(group: &EventGroup, days: i64, cfg: &PatternDetectorConfig, user_id: &String, now: i64) -> (r: Option<DetectedPattern>)
    requires
        times_in_range(group.times@),
        group.times@.len() <= EVENT_LIMIT,
        0 <= days <= DAY_LIMIT,
        cfg.wf(),
    ensures
        r is None ==> high_frequency_view(group.key(), group.times@, days as int, *cfg) == Seq::<PatternView>::empty(),
        r is Some ==> high_frequency_view(group.key(), group.times@, days as int, *cfg) == seq![r->Some_0@]
            && r->Some_0.user_id@ == user_id@ && r->Some_0.detected_at == now,
{
    let n = group.times.len() as u64;
    proof {
        lemma_mul_bound(cfg.min_frequency_threshold as int, days as int, 1000, DAY_LIMIT as int);
    }
    if 1000 * n < (cfg.min_frequency_threshold as u64) * (days as u64) {
        return None;
    }
    let c = consistency_score(group.times.as_slice());
    let meets = if cfg.min_confidence == 0 {
        true
    } else {
        proof {
            lemma_best_consistency_monotone(group.times@, 1000, cfg.min_confidence as int);
        }
        c >= cfg.min_confidence
    };
    if !meets {
        return None;
    }
    let per_day = if days > 0 { n * 1000 / (days as u64) } else { n * 1000 };
    Some(pattern_of(
        PatternType::HighFrequency,
        user_id,
        group,
        c,
        n,
        days,
        PatternMetadata::HighFrequency { per_day_milli: per_day, consistency_milli: c },
        now,
    ))
}

/// For `0 < c <= from <= 1000`: the score is at least `c` exactly when the
/// best score found from `from` down is at least `c`.
proof fn lemma_best_consistency_monotone(ts: Seq<i64>, from: int, c: int)
    requires
        0 < c <= from <= 1000,
    ensures
        consistency_at_least(ts, c) <==> best_consistency(ts, from) >= c,
    decreases from,
{
    lemma_consistency_monotone(ts, c, from);
    if from > c {
        if consistency_at_least(ts, from) {
        } else {
            lemma_best_consistency_monotone(ts, from - 1, c);
        }
    } else {
        lemma_best_below(ts, from - 1);
    }
}

proof fn lemma_best_below(ts: Seq<i64>, from: int)
    ensures
        best_consistency(ts, from) <= if from < 0 { 0 } else { from },
        best_consistency(ts, from) >= 0,
    decreases from,
{
    if from > 0 {
        lemma_best_below(ts, from - 1);
    }
}

/// The score being at least `b` implies it is at least any smaller `a`.
proof fn lemma_consistency_monotone(ts: Seq<i64>, a: int, b: int)
    requires
        0 < a <= b,
    ensures
        consistency_at_least(ts, b) ==> consistency_at_least(ts, a),
{
    if ts.len() >= 2 && b <= 1000 {
        let m = ts.len() - 1;
        let s = gap_sum(ts, m);
        let q = gap_square_sum(ts, m);
        if s > 0 {
            let ss = s * s;
            assert(0 <= (1000 - b) * (1000 - b) <= (1000 - a) * (1000 - a)) by (nonlinear_arith)
                requires 0 < a <= b <= 1000;
            assert(ss >= 0) by (nonlinear_arith)
                requires ss == s * s;
            assert((1000 - b) * (1000 - b) * ss <= (1000 - a) * (1000 - a) * ss) by (nonlinear_arith)
                requires 0 <= (1000 - b) * (1000 - b) <= (1000 - a) * (1000 - a), ss >= 0;
        }
    }
}


pub open spec fn abs(x: int) -> int {
    if x < 0 { -x } else { x }
}

/// `num / den` in signed thousandths, rounded toward zero.
pub open spec fn signed_milli(num: int, den: int) -> int {
    if num < 0 { -(abs(num) * 1000 / den) } else { num * 1000 / den }
}

/// `|num / den|` in thousandths, rounded down, at most 1000.
pub open spec fn capped_milli(num: int, den: int) -> int {
    let v = abs(num) * 1000 / den;
    if v > 1000 { 1000 } else { v }
}

/// Days covered by one half of a group: whole days between its first and
/// last event, at least one.
pub open spec fn half_days(h: Seq<i64>) -> int {
    if h.len() < 2 {
        1
    } else {
        let d = abs(h.last() as int - h[0] as int) / SECONDS_PER_DAY as int;
        if d < 1 { 1 } else { d }
    }
}

/// The trend pattern of one pair: its events split in half by order, each
/// half's rate `count / days`, and a change `(f2 - f1) / f1` above 0.3 or
/// below -0.3.
pub open spec fn trend_view(k: (Seq<char>, Seq<char>), ts: Seq<i64>, days: int) -> Seq<PatternView> {
    let n = ts.len() as int;
    let mid = n / 2;
    let h1 = mid;
    let h2 = n - mid;
    let d1 = half_days(ts.subrange(0, mid));
    let d2 = half_days(ts.subrange(mid, n));
    let num = h2 * d1 - h1 * d2;
    let den = h1 * d2;
    if n >= 3 && (10 * num > 3 * den || 10 * num < -3 * den) {
        seq![PatternView {
            pattern_type: PatternType::Trend,
            action: k.0,
            target: k.1,
            confidence: capped_milli(num, den),
            evidence_count: n,
            time_span_days: days,
            metadata: PatternMetadata::Trend {
                direction: if 10 * num > 3 * den { TrendDirection::Increasing } else { TrendDirection::Decreasing },
                change_milli: signed_milli(num, den) as i64,
                start_per_day_milli: (h1 * 1000 / d1) as u64,
                end_per_day_milli: (h2 * 1000 / d2) as u64,
            },
        }]
    } else {
        Seq::empty()
    }
}

fn half_days_of(ts: &[i64], lo: usize, hi: usize) -> (r: i64)
    requires
        lo <= hi <= ts@.len(),
        times_in_range(ts@),
    ensures
        r == half_days(ts@.subrange(lo as int, hi as int)),
        1 <= r <= DAY_LIMIT,
{
    if hi - lo < 2 {
        return 1;
    }
    let first = ts[lo];
    let last = ts[hi - 1];
    let diff: i64 = if last >= first { last - first } else { first - last };
    let d = diff / SECONDS_PER_DAY;
    assert(ts@.subrange(lo as int, hi as int).last() == last);
    assert(ts@.subrange(lo as int, hi as int)[0] == first);
    if d < 1 { 1 } else { d }
}

fn signed_milli_of(num: i64, den: i64) -> (r: i64)
    requires
        den > 0,
        -0x20_0000_0000 <= num <= 0x20_0000_0000,
    ensures
        r == signed_milli(num as int, den as int),
{
    if num < 0 {
        -((-num) * 1000 / den)
    } else {
        num * 1000 / den
    }
}

fn capped_milli_of(num: i64, den: i64) -> (r: u32)
    requires
        den > 0,
        -0x20_0000_0000 <= num <= 0x20_0000_0000,
    ensures
        r == capped_milli(num as int, den as int),
{
    let a = if num < 0 { -num } else { num };
    let v = a * 1000 / den;
    if v > 1000 { 1000 } else { v as u32 }
}

/// The trend pattern of one group, if any.
fn trend_of(group: &EventGroup, days: i64, user_id: &String, now: i64) -> (r: Option<DetectedPattern>)
    requires
        times_in_range(group.times@),
        group.times@.len() <= EVENT_LIMIT,
        0 <= days <= DAY_LIMIT,
    ensures
        r is None ==> trend_view(group.key(), group.times@, days as int) == Seq::<PatternView>::empty(),
        r is Some ==> trend_view(group.key(), group.times@, days as int) == seq![r->Some_0@]
            && r->Some_0.user_id@ == user_id@ && r->Some_0.detected_at == now,
{
    let n = group.times.len();
    if n < 3 {
        return None;
    }
    let mid = n / 2;
    let h1 = mid as i64;
    let h2 = (n - mid) as i64;
    let d1 = half_days_of(group.times.as_slice(), 0, mid);
    let d2 = half_days_of(group.times.as_slice(), mid, n);
    proof {
        lemma_mul_bound(h2 as int, d1 as int, EVENT_LIMIT as int, DAY_LIMIT as int);
        lemma_mul_bound(h1 as int, d2 as int, EVENT_LIMIT as int, DAY_LIMIT as int);
        assert(EVENT_LIMIT * DAY_LIMIT == 0x20_0000_0000int);
        assert(h1 * d2 >= 1) by (nonlinear_arith)
            requires h1 >= 1, d2 >= 1;
    }
    let num = h2 * d1 - h1 * d2;
    let den = h1 * d2;
    let up = 10 * num > 3 * den;
    let down = 10 * num + 3 * den < 0;
    if !(up || down) {
        return None;
    }
    let conf = capped_milli_of(num, den);
    let change = signed_milli_of(num, den);
    let meta = PatternMetadata::Trend {
        direction: if up { TrendDirection::Increasing } else { TrendDirection::Decreasing },
        change_milli: change,
        start_per_day_milli: (h1 * 1000 / d1) as u64,
        end_per_day_milli: (h2 * 1000 / d2) as u64,
    };
    Some(pattern_of(PatternType::Trend, user_id, group, conf, n as u64, days, meta, now))
}

/// The anomaly of one pair present in the current window: current count
/// `cc` over `dc` days against baseline count `cb` over `db` days. The
/// baseline rate must be at least 0.1 per day and the relative deviation
/// `(cc/dc - cb/db) / (cb/db)` at least the configured one in size.
pub open spec fn anomaly_view(k: (Seq<char>, Seq<char>), cc: int, cb: int, dc: int, db: int, cfg: PatternDetectorConfig) -> Seq<PatternView> {
    let num = cc * db - cb * dc;
    let den = cb * dc;
    if 10 * cb >= db && 1000 * abs(num) >= cfg.min_anomaly_deviation as int * den {
        seq![PatternView {
            pattern_type: PatternType::Anomaly,
            action: k.0,
            target: k.1,
            confidence: capped_milli(num, den),
            evidence_count: cc,
            time_span_days: dc,
            metadata: PatternMetadata::Anomaly {
                expected_per_day_milli: (cb * 1000 / db) as u64,
                actual_per_day_milli: (cc * 1000 / dc) as u64,
                deviation_milli: signed_milli(num, den) as i64,
                baseline_window_days: cfg.anomaly_baseline_days,
                stopped: false,
            },
        }]
    } else {
        Seq::empty()
    }
}

/// The "stopped" anomaly of one baseline pair: a baseline rate at least the
/// frequency threshold, and a current rate below `baseline * (1 - deviation)`.
pub open spec fn stopped_view(k: (Seq<char>, Seq<char>), cc: int, cb: int, dc: int, db: int, cfg: PatternDetectorConfig) -> Seq<PatternView> {
    let num = cc * db - cb * dc;
    let den = cb * dc;
    if cb > 0 && 1000 * cb >= cfg.min_frequency_threshold as int * db
        && 1000 * cc * db < den * (1000 - cfg.min_anomaly_deviation as int) {
        seq![PatternView {
            pattern_type: PatternType::Anomaly,
            action: k.0,
            target: k.1,
            confidence: capped_milli(num, den),
            evidence_count: 0,
            time_span_days: dc,
            metadata: PatternMetadata::Anomaly {
                expected_per_day_milli: (cb * 1000 / db) as u64,
                actual_per_day_milli: (cc * 1000 / dc) as u64,
                deviation_milli: signed_milli(num, den) as i64,
                baseline_window_days: cfg.anomaly_baseline_days,
                stopped: true,
            },
        }]
    } else {
        Seq::empty()
    }
}

/// The anomaly patterns of one group, ordinary (`stopped == false`) or
/// stopped, given the count of its pair in the other window.
fn anomaly_of(group: &EventGroup, cc: u64, cb: u64, dc: i64, db: i64, cfg: &PatternDetectorConfig, stopped: bool, user_id: &String, now: i64) -> (r: Option<DetectedPattern>)
    requires
        cc <= EVENT_LIMIT,
        cb <= EVENT_LIMIT,
        1 <= dc <= DAY_LIMIT,
        1 <= db <= DAY_LIMIT,
        cfg.wf(),
    ensures
        ({
            let spec_v = if stopped {
                stopped_view(group.key(), cc as int, cb as int, dc as int, db as int, *cfg)
            } else {
                anomaly_view(group.key(), cc as int, cb as int, dc as int, db as int, *cfg)
            };
            &&& r is None ==> spec_v == Seq::<PatternView>::empty()
            &&& r is Some ==> spec_v == seq![r->Some_0@] && r->Some_0.user_id@ == user_id@ && r->Some_0.detected_at == now
        }),
{
    proof {
        lemma_mul_bound(cc as int, db as int, EVENT_LIMIT as int, DAY_LIMIT as int);
        lemma_mul_bound(cb as int, dc as int, EVENT_LIMIT as int, DAY_LIMIT as int);
        assert(EVENT_LIMIT * DAY_LIMIT == 0x20_0000_0000int);
    }
    let cci = cc as i64;
    let cbi = cb as i64;
    let num = cci * db - cbi * dc;
    let den = cbi * dc;
    let anum = if num < 0 { -num } else { num };
    proof {
        lemma_mul_bound(cfg.min_anomaly_deviation as int, den as int, 1000, 0x20_0000_0000int);
        lemma_mul_bound(den as int, (1000 - cfg.min_anomaly_deviation) as int, 0x20_0000_0000int, 1000);
        lemma_mul_bound(cfg.min_frequency_threshold as int, db as int, 1000, DAY_LIMIT as int);
        assert(1000 * cc * db == 1000 * (cc * db)) by (nonlinear_arith);
    }
    let emit = if stopped {
        cbi > 0 && 1000 * cbi >= (cfg.min_frequency_threshold as i64) * db
            && 1000 * (cci * db) < den * (1000 - cfg.min_anomaly_deviation as i64)
    } else {
        10 * cbi >= db && 1000 * anum >= (cfg.min_anomaly_deviation as i64) * den
    };
    if !emit {
        return None;
    }
    proof {
        assert(den >= 1) by (nonlinear_arith)
            requires den == cbi * dc, cbi >= 1, dc >= 1;
    }
    let conf = capped_milli_of(num, den);
    let dev = signed_milli_of(num, den);
    let meta = PatternMetadata::Anomaly {
        expected_per_day_milli: (cbi * 1000 / db) as u64,
        actual_per_day_milli: (cci * 1000 / dc) as u64,
        deviation_milli: dev,
        baseline_window_days: cfg.anomaly_baseline_days,
        stopped,
    };
    let evidence = if stopped { 0 } else { cc };
    Some(pattern_of(PatternType::Anomaly, user_id, group, conf, evidence, dc, meta, now))
}


/// Seconds in one week.
pub const SECONDS_PER_WEEK: i64 = 604800;

/// Day of the week of a timestamp, from Monday (0) to Sunday (6); the epoch
/// fell on a Thursday.
pub open spec fn weekday(t: i64) -> int {
    ((t as int / SECONDS_PER_DAY as int) + 3) % 7
}

/// How many of `ts` fall on weekday `d`.
pub open spec fn weekday_count(ts: Seq<i64>, d: int) -> int
    decreases ts.len(),
{
    if ts.len() == 0 {
        0
    } else {
        weekday_count(ts.drop_last(), d) + if weekday(ts.last()) == d { 1int } else { 0 }
    }
}

/// The weekly pattern of one pair on weekday `d`: at least four events in
/// all, and the weekday's events at least 60% of the weeks observed.
pub open spec fn temporal_one(k: (Seq<char>, Seq<char>), ts: Seq<i64>, days: int, weeks: int, d: int) -> Seq<PatternView> {
    let cnt = weekday_count(ts, d);
    if ts.len() >= 4 && cnt > 0 && 10 * cnt >= 6 * weeks {
        seq![PatternView {
            pattern_type: PatternType::Temporal,
            action: k.0,
            target: k.1,
            confidence: if weeks == 0 { 1000 } else if cnt * 1000 / weeks > 1000 { 1000 } else { cnt * 1000 / weeks },
            evidence_count: cnt,
            time_span_days: days,
            metadata: PatternMetadata::Temporal { weekday: d as u8, occurrences: cnt as u64, weeks_observed: weeks as u64 },
        }]
    } else {
        Seq::empty()
    }
}

/// Weekly patterns of one pair on the weekdays before `d`.
pub open spec fn temporal_days(k: (Seq<char>, Seq<char>), ts: Seq<i64>, days: int, weeks: int, d: int) -> Seq<PatternView>
    decreases d,
{
    if d <= 0 {
        Seq::empty()
    } else {
        temporal_days(k, ts, days, weeks, d - 1) + temporal_one(k, ts, days, weeks, d - 1)
    }
}

proof fn lemma_weekday_count_bound(ts: Seq<i64>, d: int)
    ensures
        0 <= weekday_count(ts, d) <= ts.len(),
    decreases ts.len(),
{
    if ts.len() > 0 {
        lemma_weekday_count_bound(ts.drop_last(), d);
    }
}

/// The weekly patterns of one group, Monday first.
fn temporal_of(group: &EventGroup, days: i64, weeks: i64, user_id: &String, now: i64) -> (r: Vec<DetectedPattern>)
    requires
        times_in_range(group.times@),
        group.times@.len() <= EVENT_LIMIT,
        0 <= days <= DAY_LIMIT,
        0 <= weeks <= DAY_LIMIT,
    ensures
        views_of(r@) == temporal_days(group.key(), group.times@, days as int, weeks as int, 7),
        forall|q: int| 0 <= q < r@.len() ==> (#[trigger] r@[q]).user_id@ == user_id@ && r@[q].detected_at == now,
{
    let ts = group.times.as_slice();
    let mut counts: Vec<u64> = vec![0, 0, 0, 0, 0, 0, 0];
    let mut i: usize = 0;
    while i < ts.len()
        invariant
            i <= ts@.len(),
            ts@ == group.times@,
            times_in_range(ts@),
            ts@.len() <= EVENT_LIMIT,
            counts@.len() == 7,
            forall|d: int| 0 <= d < 7 ==> #[trigger] counts@[d] == weekday_count(ts@.subrange(0, i as int), d),
        decreases ts@.len() - i,
    {
        let t = ts[i];
        let wd = ((t / SECONDS_PER_DAY + 3) % 7) as usize;
        proof {
            let post = ts@.subrange(0, i + 1);
            assert(post.drop_last() =~= ts@.subrange(0, i as int));
            assert(post.last() == t);
            assert forall|d: int| 0 <= d < 7 implies weekday_count(post, d) == weekday_count(ts@.subrange(0, i as int), d) + if d == wd { 1int } else { 0 } by {}
            lemma_weekday_count_bound(ts@.subrange(0, i as int), wd as int);
        }
        let c = counts[wd];
        counts.set(wd, c + 1);
        i += 1;
    }
    assert(ts@.subrange(0, ts@.len() as int) =~= ts@);
    let mut out: Vec<DetectedPattern> = Vec::new();
    let mut d: usize = 0;
    while d < 7
        invariant
            d <= 7,
            ts@ == group.times@,
            ts@.len() <= EVENT_LIMIT,
            counts@.len() == 7,
            forall|e: int| 0 <= e < 7 ==> #[trigger] counts@[e] == weekday_count(ts@, e),
            views_of(out@) == temporal_days(group.key(), ts@, days as int, weeks as int, d as int),
            forall|q: int| 0 <= q < out@.len() ==> (#[trigger] out@[q]).user_id@ == user_id@ && out@[q].detected_at == now,
            0 <= weeks <= DAY_LIMIT,
        decreases 7 - d,
    {
        let cnt = counts[d];
        proof {
            lemma_weekday_count_bound(ts@, d as int);
        }
        if ts.len() >= 4 && cnt > 0 && 10 * cnt >= 6 * (weeks as u64) {
            let w = weeks as u64;
            let conf: u32 = if w == 0 { 1000 } else if cnt * 1000 / w > 1000 { 1000 } else { (cnt * 1000 / w) as u32 };
            let meta = PatternMetadata::Temporal { weekday: d as u8, occurrences: cnt, weeks_observed: w };
            let p = pattern_of(PatternType::Temporal, user_id, group, conf, cnt, days, meta, now);
            let ghost before = out@;
            out.push(p);
            assert(views_of(out@) =~= views_of(before) + seq![p@]);
        } else {
            assert(temporal_one(group.key(), ts@, days as int, weeks as int, d as int) =~= Seq::<PatternView>::empty());
            assert(views_of(out@) =~= views_of(out@) + Seq::<PatternView>::empty());
        }
        d += 1;
    }
    out
}


/// Trend patterns of the first `j` groups of `evs`.
pub open spec fn trend_upto(evs: Seq<EventMemory>, days: int, j: int) -> Seq<PatternView>
    decreases j,
{
    if j <= 0 {
        Seq::empty()
    } else {
        let k = group_keys(evs)[j - 1];
        trend_upto(evs, days, j - 1) + trend_view(k, times_for(evs, k), days)
    }
}

/// Anomalies of the first `j` groups of the current window `cur`.
pub open spec fn anomaly_upto(cur: Seq<EventMemory>, base: Seq<EventMemory>, dc: int, db: int, cfg: PatternDetectorConfig, j: int) -> Seq<PatternView>
    decreases j,
{
    if j <= 0 {
        Seq::empty()
    } else {
        let k = group_keys(cur)[j - 1];
        anomaly_upto(cur, base, dc, db, cfg, j - 1)
            + anomaly_view(k, times_for(cur, k).len() as int, times_for(base, k).len() as int, dc, db, cfg)
    }
}

/// Stopped anomalies of the first `j` groups of the baseline `base`.
pub open spec fn stopped_upto(cur: Seq<EventMemory>, base: Seq<EventMemory>, dc: int, db: int, cfg: PatternDetectorConfig, j: int) -> Seq<PatternView>
    decreases j,
{
    if j <= 0 {
        Seq::empty()
    } else {
        let k = group_keys(base)[j - 1];
        stopped_upto(cur, base, dc, db, cfg, j - 1)
            + stopped_view(k, times_for(cur, k).len() as int, times_for(base, k).len() as int, dc, db, cfg)
    }
}

/// Weekly patterns of the first `j` groups of `evs`.
pub open spec fn temporal_upto(evs: Seq<EventMemory>, days: int, weeks: int, j: int) -> Seq<PatternView>
    decreases j,
{
    if j <= 0 {
        Seq::empty()
    } else {
        let k = group_keys(evs)[j - 1];
        temporal_upto(evs, days, weeks, j - 1) + temporal_days(k, times_for(evs, k), days, weeks, 7)
    }
}

/// Everything one detection pass reports for the window `[start, end]`
/// holding the events `cur`, with the baseline events `base` of the days
/// before it: high-frequency patterns, then trends (for windows of at least
/// the configured days), then anomalies, stopped anomalies, and weekly
/// patterns, each in order of first occurrence of the pair.
pub open spec fn detected(cur: Seq<EventMemory>, base: Seq<EventMemory>, start: i64, end: i64, cfg: PatternDetectorConfig) -> Seq<PatternView> {
    let days = (end - start) / SECONDS_PER_DAY as int;
    let weeks = (end - start) / SECONDS_PER_WEEK as int;
    let dc = if days < 1 { 1 } else { days };
    let db = if cfg.anomaly_baseline_days < 1 { 1 } else { cfg.anomaly_baseline_days as int };
    let nc = group_keys(cur).len() as int;
    let nb = group_keys(base).len() as int;
    high_frequency_upto(cur, days, cfg, nc)
        + (if days >= cfg.min_trend_days { trend_upto(cur, days, nc) } else { Seq::empty() })
        + anomaly_upto(cur, base, dc, db, cfg, nc)
        + stopped_upto(cur, base, dc, db, cfg, nb)
        + temporal_upto(cur, days, weeks, nc)
}

/// Detection is a function of its inputs: two passes over the same window
/// and events report the same patterns, whatever their ids and times.
pub proof fn lemma_detection_repeatable(
    cur: Seq<EventMemory>,
    base: Seq<EventMemory>,
    start: i64,
    end: i64,
    cfg: PatternDetectorConfig,
    first: Seq<DetectedPattern>,
    second: Seq<DetectedPattern>,
)
    requires
        views_of(first) == detected(cur, base, start, end, cfg),
        views_of(second) == detected(cur, base, start, end, cfg),
    ensures
        views_of(first) == views_of(second),
{
}

/// The result of one detection pass.
#[derive(Debug, Clone)]
pub struct PatternDetectionResult {
    pub patterns: Vec<DetectedPattern>,
    pub events_analyzed: u64,
    pub time_range_start: i64,
    pub time_range_end: i64,
    pub detection_timestamp: i64,
}

/// The pattern detector and its settings.
pub struct PatternDetector {
    pub config: PatternDetectorConfig,
}

/// What a detection pass needs of its inputs: at most `EVENT_LIMIT` events
/// in each window, every timestamp in range, and `start <= end`.
pub open spec fn detection_inputs_ok(cur: Seq<EventMemory>, base: Seq<EventMemory>, start: i64, end: i64) -> bool {
    &&& cur.len() <= EVENT_LIMIT
    &&& base.len() <= EVENT_LIMIT
    &&& events_in_range(cur)
    &&& events_in_range(base)
    &&& 0 <= start <= end < TIMESTAMP_LIMIT
}

impl PatternDetector {
    pub fn new() -> (r: PatternDetector)
        ensures
            r.config.wf(),
            r.config.min_frequency_threshold == 500,
            r.config.min_confidence == 600,
    {
        PatternDetector { config: PatternDetectorConfig::default() }
    }

    pub fn with_config(config: PatternDetectorConfig) -> (r: PatternDetector)
        ensures
            r.config == config,
    {
        PatternDetector { config }
    }

    /// Runs every kind of detection over the events of the window
    /// `[start, end]`, `events`, against the events of the baseline days
    /// before it, `baseline`. Every pattern is stamped with `user_id` and `now`.
    #[verifier::rlimit(40)]
    pub fn detect_patterns(&self, user_id: &String, events: &[EventMemory], baseline: &[EventMemory], start: i64, end: i64, now: i64) -> (r: PatternDetectionResult)
        requires
            self.config.wf(),
            detection_inputs_ok(events@, baseline@, start, end),
        ensures
            views_of(r.patterns@) == detected(events@, baseline@, start, end, self.config),
            forall|q: int| 0 <= q < r.patterns@.len() ==> (#[trigger] r.patterns@[q]).user_id@ == user_id@ && r.patterns@[q].detected_at == now,
            r.events_analyzed == events@.len(),
            r.time_range_start == start,
            r.time_range_end == end,
            r.detection_timestamp == now,
    {
        let cfg = &self.config;
        let days = (end - start) / SECONDS_PER_DAY;
        let weeks = (end - start) / SECONDS_PER_WEEK;
        let dc = if days < 1 { 1 } else { days };
        let db = if cfg.anomaly_baseline_days < 1 { 1 } else { cfg.anomaly_baseline_days };
        let groups = group_events(events);
        let base_groups = group_events(baseline);
        proof {
            assert forall|k: (Seq<char>, Seq<char>)| times_for(events@, k).len() <= EVENT_LIMIT && times_in_range(#[trigger] times_for(events@, k)) by {
                lemma_times_for_props(events@, k);
            }
            assert forall|k: (Seq<char>, Seq<char>)| times_for(baseline@, k).len() <= EVENT_LIMIT && times_in_range(#[trigger] times_for(baseline@, k)) by {
                lemma_times_for_props(baseline@, k);
            }
        }
        let mut out: Vec<DetectedPattern> = Vec::new();
        let mut j: usize = 0;
        while j < groups.len()
            invariant
                groups_match(groups@, events@),
                forall|k: (Seq<char>, Seq<char>)| times_for(events@, k).len() <= EVENT_LIMIT && times_in_range(#[trigger] times_for(events@, k)),
                j <= groups@.len(),
                0 <= days <= DAY_LIMIT,
                cfg.wf(),
                views_of(out@) == high_frequency_upto(events@, days as int, *cfg, j as int),
                forall|q: int| 0 <= q < out@.len() ==> (#[trigger] out@[q]).user_id@ == user_id@ && out@[q].detected_at == now,
            decreases groups@.len() - j,
        {
            let ghost before = out@;
            match high_frequency_of(&groups[j], days, cfg, user_id, now) {
                Some(p) => {
                    out.push(p);
                    assert(views_of(out@) =~= views_of(before) + seq![p@]);
                },
                None => {
                    assert(views_of(out@) =~= views_of(before) + Seq::<PatternView>::empty());
                },
            }
            j += 1;
        }
        let ghost after_hf = views_of(out@);
        if days >= cfg.min_trend_days {
            let mut j: usize = 0;
            while j < groups.len()
                invariant
                    groups_match(groups@, events@),
                    forall|k: (Seq<char>, Seq<char>)| times_for(events@, k).len() <= EVENT_LIMIT && times_in_range(#[trigger] times_for(events@, k)),
                    j <= groups@.len(),
                    0 <= days <= DAY_LIMIT,
                    views_of(out@) == after_hf + trend_upto(events@, days as int, j as int),
                    forall|q: int| 0 <= q < out@.len() ==> (#[trigger] out@[q]).user_id@ == user_id@ && out@[q].detected_at == now,
                decreases groups@.len() - j,
            {
                let ghost before = out@;
                match trend_of(&groups[j], days, user_id, now) {
                    Some(p) => {
                        out.push(p);
                        assert(views_of(out@) =~= views_of(before) + seq![p@]);
                    },
                    None => {
                        assert(views_of(out@) =~= views_of(before) + Seq::<PatternView>::empty());
                    },
                }
                j += 1;
            }
        } else {
            assert(views_of(out@) =~= after_hf + Seq::<PatternView>::empty());
        }
        let ghost after_trend = views_of(out@);
        let mut j: usize = 0;
        while j < groups.len()
            invariant
                groups_match(groups@, events@),
                groups_match(base_groups@, baseline@),
                forall|k: (Seq<char>, Seq<char>)| times_for(events@, k).len() <= EVENT_LIMIT && times_in_range(#[trigger] times_for(events@, k)),
                forall|k: (Seq<char>, Seq<char>)| times_for(baseline@, k).len() <= EVENT_LIMIT && times_in_range(#[trigger] times_for(baseline@, k)),
                j <= groups@.len(),
                1 <= dc <= DAY_LIMIT,
                1 <= db <= DAY_LIMIT,
                cfg.wf(),
                views_of(out@) == after_trend + anomaly_upto(events@, baseline@, dc as int, db as int, *cfg, j as int),
                forall|q: int| 0 <= q < out@.len() ==> (#[trigger] out@[q]).user_id@ == user_id@ && out@[q].detected_at == now,
            decreases groups@.len() - j,
        {
            let ghost before = out@;
            let g = &groups[j];
            let cb = count_in(&base_groups, &g.action, &g.target, Ghost(baseline@));
            let cc = g.times.len() as u64;
            match anomaly_of(g, cc, cb, dc, db, cfg, false, user_id, now) {
                Some(p) => {
                    out.push(p);
                    assert(views_of(out@) =~= views_of(before) + seq![p@]);
                },
                None => {
                    assert(views_of(out@) =~= views_of(before) + Seq::<PatternView>::empty());
                },
            }
            j += 1;
        }
        let ghost after_anomaly = views_of(out@);
        let mut j: usize = 0;
        while j < base_groups.len()
            invariant
                groups_match(groups@, events@),
                groups_match(base_groups@, baseline@),
                forall|k: (Seq<char>, Seq<char>)| times_for(events@, k).len() <= EVENT_LIMIT && times_in_range(#[trigger] times_for(events@, k)),
                forall|k: (Seq<char>, Seq<char>)| times_for(baseline@, k).len() <= EVENT_LIMIT && times_in_range(#[trigger] times_for(baseline@, k)),
                j <= base_groups@.len(),
                1 <= dc <= DAY_LIMIT,
                1 <= db <= DAY_LIMIT,
                cfg.wf(),
                views_of(out@) == after_anomaly + stopped_upto(events@, baseline@, dc as int, db as int, *cfg, j as int),
                forall|q: int| 0 <= q < out@.len() ==> (#[trigger] out@[q]).user_id@ == user_id@ && out@[q].detected_at == now,
            decreases base_groups@.len() - j,
        {
            let ghost before = out@;
            let g = &base_groups[j];
            let cc = count_in(&groups, &g.action, &g.target, Ghost(events@));
            let cb = g.times.len() as u64;
            match anomaly_of(g, cc, cb, dc, db, cfg, true, user_id, now) {
                Some(p) => {
                    out.push(p);
                    assert(views_of(out@) =~= views_of(before) + seq![p@]);
                },
                None => {
                    assert(views_of(out@) =~= views_of(before) + Seq::<PatternView>::empty());
                },
            }
            j += 1;
        }
        let ghost after_stopped = views_of(out@);
        let mut j: usize = 0;
        while j < groups.len()
            invariant
                groups_match(groups@, events@),
                forall|k: (Seq<char>, Seq<char>)| times_for(events@, k).len() <= EVENT_LIMIT && times_in_range(#[trigger] times_for(events@, k)),
                j <= groups@.len(),
                0 <= days <= DAY_LIMIT,
                0 <= weeks <= DAY_LIMIT,
                views_of(out@) == after_stopped + temporal_upto(events@, days as int, weeks as int, j as int),
                forall|q: int| 0 <= q < out@.len() ==> (#[trigger] out@[q]).user_id@ == user_id@ && out@[q].detected_at == now,
            decreases groups@.len() - j,
        {
            let ghost before = out@;
            let mut found = temporal_of(&groups[j], days, weeks, user_id, now);
            let ghost fv = found@;
            out.append(&mut found);
            assert(out@ =~= before + fv);
            assert(views_of(out@) =~= views_of(before) + views_of(fv));
            j += 1;
        }
        PatternDetectionResult {
            patterns: out,
            events_analyzed: events.len() as u64,
            time_range_start: start,
            time_range_end: end,
            detection_timestamp: now,
        }
    }
}

/// How many events of the grouped window carry the pair `(action, target)`.
fn count_in(groups: &Vec<EventGroup>, action: &String, target: &String, evs: Ghost<Seq<EventMemory>>) -> (r: u64)
    requires
        groups_match(groups@, evs@),
        forall|k: (Seq<char>, Seq<char>)| times_for(evs@, k).len() <= EVENT_LIMIT && times_in_range(#[trigger] times_for(evs@, k)),
    ensures
        r == times_for(evs@, (action@, target@)).len(),
        r <= EVENT_LIMIT,
{
    let ghost k = (action@, target@);
    match find_group(groups, action, target) {
        Some(g) => {
            proof {
                assert(groups@[g as int].key() == group_keys(evs@)[g as int]);
            }
            groups[g].times.len() as u64
        },
        None => {
            proof {
                if group_keys(evs@).contains(k) {
                    let idx = choose|idx: int| 0 <= idx < group_keys(evs@).len() && group_keys(evs@)[idx] == k;
                    assert(groups@[idx].key() == k);
                }
                lemma_times_absent(evs@, k);
            }
            0
        },
    }
}

} // verus!
