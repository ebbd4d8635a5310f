//! Turning detected patterns into candidate views.
use vstd::prelude::*;

use crate::clock::SECONDS_PER_DAY;
use crate::cognitive::CognitiveView;
use crate::error::DirSoulError;
use crate::pattern_detector::{DetectedPattern, PatternType};

verus! {

/// Shortest and longest lifetime of a generated view, in days.
pub const MIN_EXPIRATION_DAYS: i64 = 15;
pub const MAX_EXPIRATION_DAYS: i64 = 60;

/// Settings of view generation; multipliers and thresholds in thousandths.
#[derive(Debug, Clone, Copy)]
pub struct ViewGeneratorConfig {
    pub default_expiration_days: i64,
    pub high_frequency_confidence_multiplier: u32,
    pub trend_confidence_multiplier: u32,
    pub anomaly_confidence_multiplier: u32,
    pub temporal_confidence_multiplier: u32,
    pub min_confidence_threshold: u32,
}

impl Default for ViewGeneratorConfig {
    /// 30-day base expiry; multipliers 1.0, 0.9, 0.8 and 1.1; views below
    /// 0.5 are dropped.
    fn default() -> (r: ViewGeneratorConfig)
        ensures
            r.default_expiration_days == 30,
            r.high_frequency_confidence_multiplier == 1000,
            r.trend_confidence_multiplier == 900,
            r.anomaly_confidence_multiplier == 800,
            r.temporal_confidence_multiplier == 1100,
            r.min_confidence_threshold == 500,
    {
        ViewGeneratorConfig {
            default_expiration_days: 30,
            high_frequency_confidence_multiplier: 1000,
            trend_confidence_multiplier: 900,
            anomaly_confidence_multiplier: 800,
            temporal_confidence_multiplier: 1100,
            min_confidence_threshold: 500,
        }
    }
}

impl ViewGeneratorConfig {
    /// The multiplier of a pattern kind.
    pub fn multiplier(&self, kind: PatternType) -> (r: u32)
        ensures
            kind == PatternType::HighFrequency ==> r == self.high_frequency_confidence_multiplier,
            kind == PatternType::Trend ==> r == self.trend_confidence_multiplier,
            kind == PatternType::Anomaly ==> r == self.anomaly_confidence_multiplier,
            kind == PatternType::Temporal ==> r == self.temporal_confidence_multiplier,
    {
        match kind {
            PatternType::HighFrequency => self.high_frequency_confidence_multiplier,
            PatternType::Trend => self.trend_confidence_multiplier,
            PatternType::Anomaly => self.anomaly_confidence_multiplier,
            PatternType::Temporal => self.temporal_confidence_multiplier,
        }
    }
}

/// The view type of each pattern kind.
pub fn determine_view_type(kind: PatternType) -> (r: &'static str)
    ensures
        kind == PatternType::HighFrequency ==> r@ == "habit"@,
        kind == PatternType::Trend ==> r@ == "trend"@,
        kind == PatternType::Anomaly ==> r@ == "anomaly"@,
        kind == PatternType::Temporal ==> r@ == "routine"@,
{
    match kind {
        PatternType::HighFrequency => "habit",
        PatternType::Trend => "trend",
        PatternType::Anomaly => "anomaly",
        PatternType::Temporal => "routine",
    }
}

/// The lifetime of a view, in days: the base scaled by the pattern's
/// confidence (rounded toward zero), kept within 15 to 60 days.
pub open spec fn expiration_days_spec(base_days: int, confidence: int) -> int {
    let d = base_days * confidence / 1000;
    if d < MIN_EXPIRATION_DAYS { MIN_EXPIRATION_DAYS as int } else if d > MAX_EXPIRATION_DAYS { MAX_EXPIRATION_DAYS as int } else { d }
}

pub fn expiration_days(base_days: i64, confidence: u32) -> (r: i64)
    requires
        0 <= base_days <= 1_000_000,
    ensures
        r == expiration_days_spec(base_days as int, confidence as int),
        MIN_EXPIRATION_DAYS <= r <= MAX_EXPIRATION_DAYS,
{
    proof {
        assert(0 <= (base_days as int) * (confidence as int) <= 1_000_000 * 0xffff_ffff) by (nonlinear_arith)
            requires 0 <= base_days <= 1_000_000, 0 <= confidence <= 0xffff_ffff;
    }
    let d = base_days * (confidence as i64) / 1000;
    if d < MIN_EXPIRATION_DAYS { MIN_EXPIRATION_DAYS } else if d > MAX_EXPIRATION_DAYS { MAX_EXPIRATION_DAYS } else { d }
}

/// The view of a detected pattern, given the confidence computed for it:
/// patterns below the configured threshold give none (not found). The view
/// is active, states the pattern's description as its hypothesis, takes its
/// type from the pattern kind, and expires after `expiration_days` of the
/// pattern's own confidence.
pub fn generate_view(
    config: &ViewGeneratorConfig,
    pattern: &DetectedPattern,
    description: String,
    confidence: u32,
    derived_from: Vec<u64>,
    view_id: u64,
    now: i64,
) -> (r: Result<CognitiveView, DirSoulError>)
    requires
        0 <= config.default_expiration_days <= 1_000_000,
        0 <= now <= 0x2_0000_0000,
        derived_from@.len() <= u32::MAX,
        confidence <= 1000,
    ensures
        r is Err <==> confidence < config.min_confidence_threshold,
        r is Err ==> r->Err_0 is NotFound,
        r is Ok ==> ({
            let v = r->Ok_0;
            &&& v.wf()
            &&& v.status == crate::cognitive::ViewStatus::Active
            &&& v.user_id@ == pattern.user_id@
            &&& v.hypothesis@ == description@
            &&& v.confidence == confidence
            &&& v.created_at == now
            &&& v.expires_at == now + expiration_days_spec(config.default_expiration_days as int, pattern.confidence as int) * SECONDS_PER_DAY
            &&& v.evidence_count == derived_from@.len()
            &&& v.counter_evidence_count == 0
            &&& pattern.pattern_type == PatternType::HighFrequency ==> v.view_type@ == "habit"@
            &&& pattern.pattern_type == PatternType::Trend ==> v.view_type@ == "trend"@
            &&& pattern.pattern_type == PatternType::Anomaly ==> v.view_type@ == "anomaly"@
            &&& pattern.pattern_type == PatternType::Temporal ==> v.view_type@ == "routine"@
        }),
{
    if confidence < config.min_confidence_threshold {
        return Err(DirSoulError::NotFound("pattern confidence below threshold".to_string()));
    }
    let days = expiration_days(config.default_expiration_days, pattern.confidence);
    let view_type = determine_view_type(pattern.pattern_type).to_string();
    let mut v = CognitiveView::new(view_id, pattern.user_id.clone(), description.clone(), view_type, derived_from, now);
    v.confidence = confidence;
    v.expires_at = now + days * SECONDS_PER_DAY;
    v.description = Some(description);
    Ok(v)
}

} // verus!
