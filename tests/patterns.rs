use dirsoul::models::EventMemory;
use dirsoul::pattern_detector::{
    consistency_score, group_events, PatternDetector, PatternMetadata, PatternType, TrendDirection,
};
use dirsoul::view_generator::{determine_view_type, expiration_days, generate_view, ViewGeneratorConfig};

const DAY: i64 = 86400;
const T0: i64 = 1_699_833_600;

fn event(id: u64, action: &str, target: &str, t: i64) -> EventMemory {
    EventMemory::new(id, 1, "u".to_string(), t, None, action.to_string(), target.to_string(), None, None, 800).unwrap()
}

#[test]
fn test_consistency_calculation() {
    assert_eq!(consistency_score(&[T0, T0 + DAY, T0 + 2 * DAY, T0 + 3 * DAY]), 1000);
    assert_eq!(consistency_score(&[T0]), 0);
    // gaps 1 and 3 days: mean 2, std 1, consistency 0.5
    assert_eq!(consistency_score(&[T0, T0 + DAY, T0 + 4 * DAY]), 500);
}

#[test]
fn test_grouping_keeps_first_occurrence_order() {
    let evs = vec![event(1, "喝", "咖啡", T0), event(2, "吃", "苹果", T0 + 1), event(3, "喝", "咖啡", T0 + 2)];
    let groups = group_events(&evs);
    assert_eq!(groups.len(), 2);
    assert_eq!(groups[0].action, "喝");
    assert_eq!(groups[0].times, vec![T0, T0 + 2]);
    assert_eq!(groups[1].target, "苹果");
}

fn daily_coffee() -> Vec<EventMemory> {
    (0..35).map(|i| event(i as u64, "喝", "咖啡", T0 + i * DAY)).collect()
}

#[test]
fn test_daily_habit_detection() {
    let evs = daily_coffee();
    let detector = PatternDetector::new();
    let r = detector.detect_patterns(&"u".to_string(), &evs, &[], T0, T0 + 34 * DAY, T0 + 35 * DAY);
    let hf: Vec<_> = r.patterns.iter().filter(|p| p.pattern_type == PatternType::HighFrequency).collect();
    assert_eq!(hf.len(), 1);
    assert_eq!(hf[0].action, "喝");
    assert_eq!(hf[0].target, "咖啡");
    assert!(hf[0].confidence >= 600);
    assert_eq!(hf[0].evidence_count, 35);
    assert_eq!(r.events_analyzed, 35);
    assert!(r.patterns.iter().all(|p| p.pattern_type != PatternType::Trend));
}

#[test]
fn test_detection_is_repeatable() {
    let evs = daily_coffee();
    let detector = PatternDetector::new();
    let a = detector.detect_patterns(&"u".to_string(), &evs, &[], T0, T0 + 34 * DAY, T0 + 40 * DAY);
    let b = detector.detect_patterns(&"u".to_string(), &evs, &[], T0, T0 + 34 * DAY, T0 + 50 * DAY);
    assert_eq!(a.patterns.len(), b.patterns.len());
    for (p, q) in a.patterns.iter().zip(b.patterns.iter()) {
        assert_eq!(p.pattern_type, q.pattern_type);
        assert_eq!(p.action, q.action);
        assert_eq!(p.target, q.target);
        assert_eq!(p.confidence, q.confidence);
        assert_eq!(p.evidence_count, q.evidence_count);
        assert_eq!(p.metadata, q.metadata);
    }
}

#[test]
fn test_stopped_anomaly() {
    let start = T0 + 30 * DAY;
    let baseline: Vec<EventMemory> = (0..28).map(|i| event(i as u64, "吃", "苹果", T0 + i * DAY + 3600)).collect();
    let detector = PatternDetector::new();
    let r = detector.detect_patterns(&"u".to_string(), &[], &baseline, start, start + 7 * DAY, start + 7 * DAY);
    let stopped: Vec<_> = r
        .patterns
        .iter()
        .filter(|p| matches!(p.metadata, PatternMetadata::Anomaly { stopped: true, .. }))
        .collect();
    assert_eq!(stopped.len(), 1);
    assert_eq!(stopped[0].pattern_type, PatternType::Anomaly);
    assert_eq!(stopped[0].action, "吃");
    match stopped[0].metadata {
        PatternMetadata::Anomaly { expected_per_day_milli, actual_per_day_milli, deviation_milli, .. } => {
            assert!(expected_per_day_milli > actual_per_day_milli);
            assert!(deviation_milli <= -1000);
        }
        _ => unreachable!(),
    }
}

#[test]
fn test_trend_detection() {
    // two events a week apart, then six in three days
    let mut evs = vec![event(1, "跑", "步", T0), event(2, "跑", "步", T0 + 7 * DAY), event(3, "跑", "步", T0 + 14 * DAY)];
    for i in 0..5 {
        evs.push(event(10 + i as u64, "跑", "步", T0 + 20 * DAY + i * 12 * 3600));
    }
    let detector = PatternDetector::new();
    let r = detector.detect_patterns(&"u".to_string(), &evs, &[], T0, T0 + 30 * DAY, T0 + 30 * DAY);
    let trends: Vec<_> = r.patterns.iter().filter(|p| p.pattern_type == PatternType::Trend).collect();
    assert_eq!(trends.len(), 1);
    match trends[0].metadata {
        PatternMetadata::Trend { direction, .. } => assert_eq!(direction, TrendDirection::Increasing),
        _ => unreachable!(),
    }
}

#[test]
fn test_weekly_routine() {
    // every Monday for four weeks (T0 is a Monday)
    let evs: Vec<EventMemory> = (0..4).map(|w| event(w as u64, "去", "健身房", T0 + w * 7 * DAY)).collect();
    let detector = PatternDetector::new();
    let r = detector.detect_patterns(&"u".to_string(), &evs, &[], T0, T0 + 28 * DAY, T0 + 28 * DAY);
    let weekly: Vec<_> = r.patterns.iter().filter(|p| p.pattern_type == PatternType::Temporal).collect();
    assert_eq!(weekly.len(), 1);
    match weekly[0].metadata {
        PatternMetadata::Temporal { weekday, occurrences, weeks_observed } => {
            assert_eq!(weekday, 0);
            assert_eq!(occurrences, 4);
            assert_eq!(weeks_observed, 4);
        }
        _ => unreachable!(),
    }
}

#[test]
fn test_determine_view_type() {
    assert_eq!(determine_view_type(PatternType::HighFrequency), "habit");
    assert_eq!(determine_view_type(PatternType::Trend), "trend");
    assert_eq!(determine_view_type(PatternType::Anomaly), "anomaly");
    assert_eq!(determine_view_type(PatternType::Temporal), "routine");
}

#[test]
fn test_calculate_expiration() {
    assert_eq!(expiration_days(30, 1000), 30);
    assert_eq!(expiration_days(30, 100), 15);
    assert_eq!(expiration_days(100, 900), 60);
    assert_eq!(expiration_days(30, 800), 24);
}

#[test]
fn test_generate_view_low_confidence() {
    let evs = daily_coffee();
    let detector = PatternDetector::new();
    let r = detector.detect_patterns(&"u".to_string(), &evs, &[], T0, T0 + 34 * DAY, T0 + 35 * DAY);
    let p = &r.patterns[0];
    let config = ViewGeneratorConfig::default();
    assert!(generate_view(&config, p, "用户每天喝咖啡".to_string(), 400, vec![1, 2], 0, T0).is_err());
    let v = generate_view(&config, p, "用户每天喝咖啡".to_string(), 900, vec![1, 2], 0, T0).unwrap();
    assert_eq!(v.view_type, "habit");
    assert_eq!(v.confidence, 900);
    assert_eq!(v.expires_at, T0 + 30 * DAY);
    assert_eq!(v.hypothesis, "用户每天喝咖啡");
}
