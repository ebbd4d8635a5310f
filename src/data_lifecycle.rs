//! Hot, warm and cold tiers of stored memory, by age.
use vstd::prelude::*;

use std::io::{Read, Write};

use crate::error::DirSoulError;
use crate::export::{base64_decoded, decode_base64};
use crate::input::{base64_len, encode_base64};
use vstd::string::StringSliceAdditionalSpecFns;
use crate::models::EventMemory;

verus! {

/// Storage tier of a row.
#[derive(Debug, Clone, Copy, PartialEq, Eq, Structural)]
pub enum DataTier {
    /// Younger than three months.
    Hot,
    /// Three months to two years; compressed.
    Warm,
    /// Older; summarized and exported.
    Cold,
}

impl DataTier {
    /// The age, in months, at which a row leaves this tier.
    pub fn age_threshold_months(&self) -> (r: i64)
        ensures
            *self == DataTier::Hot ==> r == 3,
            *self == DataTier::Warm ==> r == 24,
            *self == DataTier::Cold ==> r == i64::MAX,
    {
        match self {
            DataTier::Hot => 3,
            DataTier::Warm => 24,
            DataTier::Cold => i64::MAX,
        }
    }

    /// Whether a row of this age should move to the next tier.
    pub fn should_archive(&self, age_months: i64) -> (r: bool)
        ensures
            *self == DataTier::Hot ==> r == (age_months >= 3),
            *self == DataTier::Warm ==> r == (age_months >= 24),
            *self == DataTier::Cold ==> !r,
    {
        match self {
            DataTier::Hot => age_months >= 3,
            DataTier::Warm => age_months >= 24,
            DataTier::Cold => false,
        }
    }
}

/// Age limits of the tiers and the archiver's schedule.
#[derive(Debug, Clone)]
pub struct TieringConfig {
    pub hot_threshold_months: i64,
    pub warm_threshold_months: i64,
    pub enable_auto_archive: bool,
    pub archive_check_interval_hours: u64,
    pub enable_compression: bool,
}

impl Default for TieringConfig {
    /// Hot below 3 months, warm below 24, archived daily with compression.
    fn default() -> (r: TieringConfig)
        ensures
            r.hot_threshold_months == 3,
            r.warm_threshold_months == 24,
            r.enable_auto_archive,
            r.archive_check_interval_hours == 24,
            r.enable_compression,
    {
        TieringConfig {
            hot_threshold_months: 3,
            warm_threshold_months: 24,
            enable_auto_archive: true,
            archive_check_interval_hours: 24,
            enable_compression: true,
        }
    }
}

/// Age in whole months (of thirty days) of a row created at `created_at`,
/// seen at `now`; a row from the future counts as new.
pub open spec fn age_months(created_at: i64, now: i64) -> int {
    if now < created_at {
        0
    } else {
        let days = (now as int - created_at as int) / 86400;
        days / 30
    }
}

/// The tier of a row created at `created_at`, seen at `now`.
pub open spec fn tier_at(config: TieringConfig, created_at: i64, now: i64) -> DataTier {
    let m = age_months(created_at, now);
    if m < config.hot_threshold_months {
        DataTier::Hot
    } else if m < config.warm_threshold_months {
        DataTier::Warm
    } else {
        DataTier::Cold
    }
}

/// The tier of a row created at `created_at`, seen at `now`; rows from the
/// future count as new.
pub fn determine_tier(config: &TieringConfig, created_at: i64, now: i64) -> (r: DataTier)
    ensures
        r == tier_at(*config, created_at, now),
{
    let days = if now < created_at { 0 } else { ((now as i128) - (created_at as i128)) / 86400 };
    let months = (days / 30) as i64;
    if months < config.hot_threshold_months {
        DataTier::Hot
    } else if months < config.warm_threshold_months {
        DataTier::Warm
    } else {
        DataTier::Cold
    }
}


/// Most entity names a summary lists.
pub const SUMMARY_ENTITY_LIMIT: usize = 10;

/// The names an event mentions: its actor, if any, then its target.
pub open spec fn event_names(e: EventMemory) -> Seq<Seq<char>> {
    match e.actor {
        Some(a) => seq![a@, e.target@],
        None => seq![e.target@],
    }
}

/// `seen` extended by the names of `xs` not in it yet, in order.
pub open spec fn add_new(seen: Seq<Seq<char>>, xs: Seq<Seq<char>>) -> Seq<Seq<char>>
    decreases xs.len(),
{
    if xs.len() == 0 {
        seen
    } else {
        let next = if seen.contains(xs[0]) { seen } else { seen.push(xs[0]) };
        add_new(next, xs.drop_first())
    }
}

/// The distinct names the first `n` events mention, in order of first mention.
pub open spec fn distinct_names(evs: Seq<EventMemory>, n: int) -> Seq<Seq<char>>
    decreases n,
{
    if n <= 0 { Seq::empty() } else { add_new(distinct_names(evs, n - 1), event_names(evs[n - 1])) }
}

pub open spec fn min_time(evs: Seq<EventMemory>, n: int) -> int
    decreases n,
{
    if n <= 1 { evs[0].timestamp as int } else {
        let m = min_time(evs, n - 1);
        if (evs[n - 1].timestamp as int) < m { evs[n - 1].timestamp as int } else { m }
    }
}

pub open spec fn max_time(evs: Seq<EventMemory>, n: int) -> int
    decreases n,
{
    if n <= 1 { evs[0].timestamp as int } else {
        let m = max_time(evs, n - 1);
        if (evs[n - 1].timestamp as int) > m { evs[n - 1].timestamp as int } else { m }
    }
}

/// A summary of a cold tier's events.
#[derive(Debug, Clone)]
pub struct DataSummary {
    pub time_range_start: i64,
    pub time_range_end: i64,
    pub event_count: usize,
    /// The first ten distinct names mentioned, in order of first mention.
    pub top_entities: Vec<String>,
    /// Events per day over the covered days (at least one), in thousandths.
    pub avg_events_per_day_milli: u64,
}

fn add_names(seen: &mut Vec<String>, e: &EventMemory)
    ensures
        seen_views(final(seen)@) == add_new(seen_views(old(seen)@), event_names(*e)),
{
    proof {
        reveal_with_fuel(add_new, 3);
    }
    let ghost names = event_names(*e);
    if let Some(a) = &e.actor {
        add_one(seen, a);
        add_one(seen, &e.target);
        proof {
            assert(names.drop_first() =~= seq![e.target@]);
            assert(seq![e.target@].drop_first() =~= Seq::<Seq<char>>::empty());
        }
    } else {
        add_one(seen, &e.target);
        proof {
            assert(names.drop_first() =~= Seq::<Seq<char>>::empty());
        }
    }
}

pub open spec fn seen_views(v: Seq<String>) -> Seq<Seq<char>> {
    v.map_values(|s: String| s@)
}

fn add_one(seen: &mut Vec<String>, name: &String)
    ensures
        seen_views(final(seen)@) == if seen_views(old(seen)@).contains(name@) {
            seen_views(old(seen)@)
        } else {
            seen_views(old(seen)@).push(name@)
        },
{
    let mut k: usize = 0;
    while k < seen.len()
        invariant
            k <= seen@.len(),
            forall|m: int| 0 <= m < k ==> seen@[m]@ != name@,
        decreases seen@.len() - k,
    {
        if seen[k] == *name {
            assert(seen_views(seen@)[k as int] == name@);
            return;
        }
        k += 1;
    }
    proof {
        assert forall|m: int| 0 <= m < seen_views(seen@).len() implies seen_views(seen@)[m] != name@ by {}
    }
    let ghost before = seen@;
    seen.push(name.clone());
    assert(seen_views(seen@) =~= seen_views(before).push(name@));
}

/// Summarizes events: their time range, their count, the first ten distinct
/// names they mention, and their average per covered day. Summarizing no
/// events is refused.
pub fn generate_summary(events: &[EventMemory]) -> (r: Result<DataSummary, DirSoulError>)
    requires
        events@.len() <= 0x1_0000_0000,
    ensures
        events@.len() == 0 <==> r is Err,
        r is Ok ==> ({
            let s = r->Ok_0;
            let n = events@.len() as int;
            let days = (max_time(events@, n) - min_time(events@, n)) / 86400;
            &&& s.time_range_start == min_time(events@, n)
            &&& s.time_range_end == max_time(events@, n)
            &&& s.event_count == n
            &&& seen_views(s.top_entities@) == distinct_names(events@, n).take(
                if distinct_names(events@, n).len() > 10 { 10 } else { distinct_names(events@, n).len() as int })
            &&& s.avg_events_per_day_milli == n * 1000 / (if days < 1 { 1 } else { days })
        }),
{
    if events.len() == 0 {
        return Err(DirSoulError::Config("no events to summarize".to_string()));
    }
    let mut lo = events[0].timestamp;
    let mut hi = events[0].timestamp;
    let mut seen: Vec<String> = Vec::new();
    assert(seen_views(seen@) =~= Seq::<Seq<char>>::empty());
    add_names(&mut seen, &events[0]);
    assert(distinct_names(events@, 1) == add_new(distinct_names(events@, 0), event_names(events@[0])));
    let mut i: usize = 1;
    while i < events.len()
        invariant
            1 <= i <= events@.len(),
            events@.len() <= 0x1_0000_0000,
            lo == min_time(events@, i as int),
            hi == max_time(events@, i as int),
            seen_views(seen@) == distinct_names(events@, i as int),
        decreases events@.len() - i,
    {
        let t = events[i].timestamp;
        if t < lo {
            lo = t;
        }
        if t > hi {
            hi = t;
        }
        add_names(&mut seen, &events[i]);
        i += 1;
    }
    let mut top: Vec<String> = Vec::new();
    let limit = if seen.len() > SUMMARY_ENTITY_LIMIT { SUMMARY_ENTITY_LIMIT } else { seen.len() };
    let mut k: usize = 0;
    while k < limit
        invariant
            limit <= seen@.len(),
            k <= limit,
            seen_views(top@) == seen_views(seen@).take(k as int),
        decreases limit - k,
    {
        let ghost before = top@;
        top.push(seen[k].clone());
        assert(seen_views(top@) =~= seen_views(before).push(seen@[k as int]@));
        assert(seen_views(top@) =~= seen_views(seen@).take(k + 1));
        k += 1;
    }
    let span = ((hi as i128) - (lo as i128)) / 86400;
    let days: u64 = if span < 1 { 1 } else { span as u64 };
    Ok(DataSummary {
        time_range_start: lo,
        time_range_end: hi,
        event_count: events.len(),
        top_entities: top,
        avg_events_per_day_milli: (events.len() as u64) * 1000 / days,
    })
}


/// What gzip (default level) makes of some bytes; a function of the bytes.
pub uninterp spec fn gzip_of(data: Seq<u8>) -> Seq<u8>;

/// What gunzip gives back from some bytes: the original bytes, or nothing
/// for data that is not a gzip stream.
pub uninterp spec fn gunzip_of(data: Seq<u8>) -> Option<Seq<u8>>;

/// Relies on flate2's `GzEncoder` (default compression) writing into memory,
/// which cannot fail: the gzip stream of the bytes, which `GzDecoder` turns
/// back into them.
#[verifier::external_body]
fn gzip(data: &[u8]) -> (r: Option<Vec<u8>>)
    ensures
        r is Some,
        r is Some ==> r->Some_0@ == gzip_of(data@) && gunzip_of(r->Some_0@) == Some(data@),
{
    let mut encoder = flate2::write::GzEncoder::new(Vec::new(), flate2::Compression::default());
    match encoder.write_all(data) {
        Ok(()) => encoder.finish().ok(),
        Err(_) => None,
    }
}

/// Relies on flate2's `GzDecoder` reading from memory: the decompressed
/// bytes, or nothing for data that is not a gzip stream.
#[verifier::external_body]
fn gunzip(data: &[u8]) -> (r: Option<Vec<u8>>)
    ensures
        r is None <==> gunzip_of(data@) is None,
        r is Some ==> r->Some_0@ == gunzip_of(data@)->Some_0,
{
    let mut decoder = flate2::read::GzDecoder::new(data);
    let mut out = Vec::new();
    match decoder.read_to_end(&mut out) {
        Ok(_) => Some(out),
        Err(_) => None,
    }
}

/// Content of the warm tier: gzip-compressed and carried as base64.
#[derive(Debug, Clone)]
pub struct CompressedData {
    pub compressed_content: String,
    pub original_size: usize,
    pub compressed_size: usize,
    pub algorithm: String,
    pub compressed_at: i64,
}

/// Compresses raw content for the warm tier.
pub fn compress_data(data: &str, now: i64) -> (r: Result<CompressedData, DirSoulError>)
    ensures
        r is Ok,
        r is Ok ==> ({
            let c = r->Ok_0;
            &&& c.original_size == data.spec_bytes().len()
            &&& c.compressed_size == gzip_of(data.spec_bytes()).len()
            &&& c.compressed_content@.len() == base64_len(c.compressed_size as int)
            &&& base64_decoded(c.compressed_content@) == Some(gzip_of(data.spec_bytes()))
            &&& c.algorithm@ == "gzip"@
            &&& c.compressed_at == now
        }),
        r is Err ==> r->Err_0 is Storage,
{
    let bytes = data.as_bytes();
    match gzip(bytes) {
        Some(z) => Ok(CompressedData {
            compressed_content: encode_base64(z.as_slice()),
            original_size: bytes.len(),
            compressed_size: z.len(),
            algorithm: "gzip".to_string(),
            compressed_at: now,
        }),
        None => Err(DirSoulError::Storage("compression failed".to_string())),
    }
}

/// The content of a compressed row: content that is not base64, not a gzip
/// stream, or not UTF-8 is refused.
pub fn decompress_data(c: &CompressedData) -> (r: Result<String, DirSoulError>)
    ensures
        r is Ok <==> ({
            &&& base64_decoded(c.compressed_content@) is Some
            &&& gunzip_of(base64_decoded(c.compressed_content@)->Some_0) is Some
            &&& vstd::utf8::valid_utf8(gunzip_of(base64_decoded(c.compressed_content@)->Some_0)->Some_0)
        }),
        r is Ok ==> r->Ok_0@ == vstd::utf8::decode_utf8(gunzip_of(base64_decoded(c.compressed_content@)->Some_0)->Some_0),
        r is Err ==> r->Err_0 is Storage,
{
    let z = match decode_base64(c.compressed_content.as_str()) {
        Some(z) => z,
        None => {
            return Err(DirSoulError::Storage("compressed content is not base64".to_string()));
        },
    };
    let bytes = match gunzip(z.as_slice()) {
        Some(b) => b,
        None => {
            return Err(DirSoulError::Storage("compressed content is not gzip".to_string()));
        },
    };
    match crate::crypto::utf8_string(bytes) {
        Some(text) => Ok(text),
        None => Err(DirSoulError::Storage("decompressed content is not UTF-8".to_string())),
    }
}

} // verus!
