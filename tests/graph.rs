use dirsoul::models::EventMemory;
use dirsoul::relations::{co_occurrence_strength, find_path, neighbors, EntityRelation, RelationType};

fn edge(id: u64, s: u64, t: u64, strength: u64) -> EntityRelation {
    EntityRelation {
        relation_id: id,
        user_id: "u".to_string(),
        source_entity_id: s,
        target_entity_id: t,
        relation_type: RelationType::RelatedTo,
        confidence: 800,
        strength,
        first_seen: 0,
        last_seen: 0,
    }
}

#[test]
fn test_find_path_over_both_directions() {
    let rels = vec![edge(0, 1, 2, 500), edge(1, 3, 2, 500), edge(2, 3, 4, 500)];
    assert_eq!(find_path(&rels, 1, 4, 5), vec![1, 2, 3, 4]);
    assert_eq!(find_path(&rels, 1, 4, 2), Vec::<u64>::new());
    assert_eq!(find_path(&rels, 7, 7, 0), vec![7]);
    assert_eq!(find_path(&rels, 1, 9, 5), Vec::<u64>::new());
}

#[test]
fn test_neighbors_filter_by_strength() {
    let rels = vec![edge(0, 1, 2, 500), edge(1, 3, 1, 100), edge(2, 3, 4, 900)];
    assert_eq!(neighbors(&rels, 1, 0), vec![0, 1]);
    assert_eq!(neighbors(&rels, 1, 200), vec![0]);
    assert_eq!(neighbors(&rels, 4, 0), vec![2]);
}

#[test]
fn test_reinforce_never_weakens() {
    let mut e = edge(0, 1, 2, 500);
    e.reinforce(100, 10);
    assert_eq!(e.strength, 600);
    assert_eq!(e.last_seen, 10);
    e.reinforce(u64::MAX, 5);
    assert_eq!(e.strength, u64::MAX);
    assert_eq!(e.last_seen, 10);
}

fn ev(t: i64, target: &str) -> EventMemory {
    EventMemory::new(0, 0, "u".to_string(), t, None, "吃".to_string(), target.to_string(), None, None, 500).unwrap()
}

#[test]
fn test_co_occurrence_strength() {
    let events = vec![ev(10, "Apple and Banana"), ev(20, "apple pie"), ev(30, "banana"), ev(1, "apple banana")];
    // since time 5: apple in 2, banana in 2, both in 1 → 1 / 3
    assert_eq!(co_occurrence_strength(&events, "apple", "banana", 5), 333);
    assert_eq!(co_occurrence_strength(&events, "apple", "cherry", 0), 0);
}

use dirsoul::event_aggregator::{aggregate_events, time_range_bounds, AggregationType, TimeRange};

fn qty(t: i64, action: &str, q: Option<u64>) -> EventMemory {
    let unit = q.map(|_| "个".to_string());
    EventMemory::new(0, 0, "u".to_string(), t, None, action.to_string(), "苹果".to_string(), q, unit, 500).unwrap()
}

#[test]
fn test_aggregate_events() {
    let evs = vec![qty(10, "吃", Some(3)), qty(20, "吃", None), qty(30, "吃", Some(4)), qty(40, "买", Some(9)), qty(500, "吃", Some(1))];
    let user = "u".to_string();
    let eat = "吃".to_string();
    let c = aggregate_events(&evs, &user, Some(&eat), None, 0, 100, AggregationType::Count);
    assert_eq!(c.count, 3);
    assert_eq!(c.value_milli, 3000);
    let s = aggregate_events(&evs, &user, Some(&eat), None, 0, 100, AggregationType::Sum);
    assert_eq!(s.value_milli, 7000);
    assert_eq!(s.count, 3);
    let a = aggregate_events(&evs, &user, Some(&eat), None, 0, 100, AggregationType::Avg);
    assert_eq!(a.count, 2);
    assert_eq!(a.value_milli, 3500);
    let none = aggregate_events(&evs, &"v".to_string(), None, None, 0, 1000, AggregationType::Avg);
    assert_eq!(none.count, 0);
    assert_eq!(none.value_milli, 0);
}

#[test]
fn test_time_range_bounds() {
    let monday = 1_699_833_600;
    let now = monday + 2 * 86400 + 3600; // Wednesday 01:00 UTC
    assert_eq!(time_range_bounds(TimeRange::Today, now, 0), (monday + 2 * 86400, monday + 3 * 86400 - 1));
    assert_eq!(time_range_bounds(TimeRange::Yesterday, now, 0), (monday + 86400, monday + 2 * 86400 - 1));
    assert_eq!(time_range_bounds(TimeRange::LastDays(7), now, 0), (monday - 5 * 86400, now));
    assert_eq!(time_range_bounds(TimeRange::ThisWeek, now, 0), (monday, monday + 7 * 86400 - 1));
    assert_eq!(time_range_bounds(TimeRange::LastWeek, now, 0), (monday - 7 * 86400, monday - 1));
    assert_eq!(time_range_bounds(TimeRange::Custom(5, 9), now, 0), (5, 9));
}

use dirsoul::relations::extract_relations_rule_based;

#[test]
fn test_extract_relations_rule_based() {
    let names = vec!["苹果".to_string(), "水果".to_string()];
    let r = extract_relations_rule_based("苹果是一种水果", &names);
    assert_eq!(r.len(), 1);
    assert_eq!(r[0].source, "苹果");
    assert_eq!(r[0].target, "水果");
    assert_eq!(r[0].relation_type, RelationType::BelongsTo);
    assert_eq!(r[0].confidence, 700);

    let places = vec!["公司".to_string(), "北京".to_string()];
    let r = extract_relations_rule_based("公司位于北京", &places);
    assert_eq!(r.len(), 1);
    assert_eq!(r[0].relation_type, RelationType::LocatedAt);
    assert_eq!(r[0].confidence, 850);

    let goods = vec!["苹果".to_string(), "香蕉".to_string(), "橙子".to_string()];
    let r = extract_relations_rule_based("我买了苹果和香蕉", &goods);
    assert_eq!(r.len(), 3);
    assert!(r.iter().all(|x| x.relation_type == RelationType::RelatedTo && x.confidence == 500));
    assert_eq!((r[2].source.as_str(), r[2].target.as_str()), ("香蕉", "橙子"));

    assert!(extract_relations_rule_based("今天天气很好", &names).is_empty());
}

use dirsoul::data_lifecycle::generate_summary;

#[test]
fn test_generate_summary() {
    assert!(generate_summary(&[]).is_err());
    let mut a = ev(86400 * 3, "苹果");
    a.actor = Some("我".to_string());
    let evs = vec![ev(86400 * 10, "咖啡"), a, ev(86400 * 7, "苹果"), ev(86400 * 5, "咖啡")];
    let s = generate_summary(&evs).unwrap();
    assert_eq!(s.time_range_start, 86400 * 3);
    assert_eq!(s.time_range_end, 86400 * 10);
    assert_eq!(s.event_count, 4);
    assert_eq!(s.top_entities, vec!["咖啡".to_string(), "我".to_string(), "苹果".to_string()]);
    assert_eq!(s.avg_events_per_day_milli, 571);
}

use dirsoul::attributes::{extract_attributes, AttributeType};
use dirsoul::data_lifecycle::{compress_data, decompress_data};

#[test]
fn test_extract_attributes() {
    let m = extract_attributes("这个苹果是红色的，很甜，口感脆，价格便宜", 7);
    let get = |t: AttributeType| m.entries.iter().find(|e| e.0 == t).map(|e| (e.1.value.clone(), e.1.confidence));
    assert_eq!(get(AttributeType::Color), Some(("红色".to_string(), 700)));
    assert_eq!(get(AttributeType::Taste), Some(("甜".to_string(), 700)));
    assert_eq!(get(AttributeType::Texture), Some(("脆".to_string(), 700)));
    assert_eq!(get(AttributeType::Category), Some(("水果".to_string(), 600)));
    assert_eq!(get(AttributeType::Price), Some(("便宜".to_string(), 600)));
    assert_eq!(get(AttributeType::Brand), None);
    assert!(m.entries.iter().all(|e| e.1.count == 1 && e.1.first_seen == 7));
}

#[test]
fn test_compress_decompress_data() {
    let text = "用户在 2024 年记录了很多事件。".repeat(20);
    let c = compress_data(&text, 9).unwrap();
    assert_eq!(c.original_size, text.len());
    assert!(c.compressed_size < c.original_size);
    assert_eq!(c.algorithm, "gzip");
    assert_eq!(decompress_data(&c).unwrap(), text);
    let mut bad = c.clone();
    bad.compressed_content = "AAAA".to_string();
    assert!(decompress_data(&bad).is_err());
}

#[test]
fn test_find_path_is_shortest() {
    let rels = vec![edge(0, 1, 2, 1), edge(1, 2, 3, 1), edge(2, 3, 4, 1), edge(3, 4, 1, 1)];
    assert_eq!(find_path(&rels, 1, 4, 5), vec![1, 4]);
    assert_eq!(find_path(&rels, 1, 3, 1), Vec::<u64>::new());
    assert_eq!(find_path(&rels, 1, 3, 2).len(), 3);
}
