use dirsoul::crypto::EncryptionManager;
use dirsoul::data_lifecycle::{determine_tier, DataTier, TieringConfig};
use dirsoul::entity_linker::{infer_entity_type, normalize_mention};
use dirsoul::entity_store::{domains_of, jaro_winkler_similarity, EntityStore};
use dirsoul::error::DirSoulError;
use dirsoul::export::{open_export, seal_export};
use dirsoul::event_extractor::{has_time_info, normalize_action, parse_quantity, parse_time_at, rule_extract, TimeParser};
use dirsoul::input::{binary_memory, DocumentFormat, InputProcessor, RawInput, VoiceFormat};
use dirsoul::models::{ContentType, EntityType, EventMemory, RawMemory};
use dirsoul::prompt_manager::PromptManager;

#[test]
fn test_normalize_mention_chinese() {
    assert_eq!(normalize_mention("  苹果  "), "Apple");
    assert_eq!(normalize_mention("  咖啡 "), "咖啡");
}

#[test]
fn test_normalize_mention_english() {
    assert_eq!(normalize_mention("  apple  "), "Apple");
    assert_eq!(normalize_mention("GOOGLE"), "Google");
    assert_eq!(normalize_mention("apple inc"), "Apple");
    assert_eq!(normalize_mention("  hello WORLD "), "Hello world");
}

#[test]
fn test_normalize_is_idempotent() {
    for s in ["  Apple Computer ", "微软", "hELLO", "咖啡 ", "", "tesla"] {
        let once = normalize_mention(s);
        assert_eq!(normalize_mention(&once), once);
    }
}

#[test]
fn test_infer_entity_type_person() {
    assert_eq!(infer_entity_type("我和朋友一起吃饭"), EntityType::Person);
}

#[test]
fn test_infer_entity_type_place() {
    assert_eq!(infer_entity_type("我们去了北京"), EntityType::Place);
}

#[test]
fn test_infer_entity_type_organization() {
    assert_eq!(infer_entity_type("这家公司很大"), EntityType::Organization);
}

#[test]
fn test_infer_entity_type_object() {
    assert_eq!(infer_entity_type("这个很好吃"), EntityType::Object);
}

#[test]
fn test_infer_entity_type_concept() {
    assert_eq!(infer_entity_type("人工智能是一个概念"), EntityType::Concept);
}

#[test]
fn test_extract_chinese_number() {
    assert_eq!(parse_quantity("三").unwrap(), 3);
    assert_eq!(parse_quantity("两").unwrap(), 2);
    assert_eq!(parse_quantity("十").unwrap(), 10);
    assert_eq!(parse_quantity("三十几").unwrap(), 13);
}

#[test]
fn test_extract_arabic_number() {
    assert_eq!(parse_quantity("42").unwrap(), 42);
    assert_eq!(parse_quantity("5").unwrap(), 5);
    assert_eq!(parse_quantity("120").unwrap(), 120);
}

#[test]
fn test_quantity_unknown_word_is_typed_error() {
    assert!(matches!(parse_quantity("几"), Err(DirSoulError::Validation(_))));
    assert!(matches!(parse_quantity(""), Err(DirSoulError::Validation(_))));
    assert!(matches!(parse_quantity("十几"), Err(DirSoulError::Validation(_))));
    assert!(matches!(parse_quantity("99999999999999999999999"), Err(DirSoulError::Validation(_))));
}

#[test]
fn test_normalize_action() {
    assert_eq!(normalize_action("买"), "购买");
    assert_eq!(normalize_action("读"), "阅读");
    assert_eq!(normalize_action("吃"), "吃");
    assert_eq!(normalize_action("飞"), "飞");
}

#[test]
fn test_has_time_info() {
    assert!(has_time_info("今天吃了苹果"));
    assert!(has_time_info("3天前去了北京"));
    assert!(!has_time_info("吃了苹果"));
}

#[test]
fn test_validate_bad_confidence_too_high() {
    let r = EventMemory::new(1, 1, "u".to_string(), 0, None, "吃".to_string(), "苹果".to_string(), None, None, 1500);
    assert!(matches!(r, Err(DirSoulError::Validation(_))));
}

#[test]
fn test_validate_quantity_without_unit() {
    let r = EventMemory::new(1, 1, "u".to_string(), 0, None, "吃".to_string(), "苹果".to_string(), Some(3), None, 700);
    assert!(matches!(r, Err(DirSoulError::Validation(_))));
    let ok = EventMemory::new(1, 1, "u".to_string(), 0, None, "吃".to_string(), "苹果".to_string(), Some(3), Some("个".to_string()), 700).unwrap();
    assert!(ok.has_quantity());
    assert!(ok.is_high_confidence(700));
    assert!(!ok.is_high_confidence(701));
}

#[test]
fn test_raw_memory_is_encrypted() {
    let plain = RawMemory::new_plaintext(1, "u".to_string(), 0, ContentType::Text, "hello".to_string());
    assert!(!plain.is_encrypted());
    assert!(plain.content().is_some());
    let sealed = RawMemory::new_encrypted(2, "u".to_string(), 0, ContentType::Voice, vec![1, 2, 3]);
    assert!(sealed.is_encrypted());
    assert!(sealed.content().is_none());
}

#[test]
fn test_voice_input_is_base64() {
    let m = binary_memory(1, "u".to_string(), 0, ContentType::Voice, &[1, 2, 3, 4], None).unwrap();
    assert_eq!(m.content.as_deref(), Some("AQIDBA=="));
    assert!(m.encrypted.is_none());
}

#[test]
fn test_encrypt_decrypt() {
    let (_key, manager) = EncryptionManager::generate().unwrap();
    let token = manager.encrypt(b"sensitive data");
    assert_ne!(token, b"sensitive data".to_vec());
    assert_eq!(manager.decrypt(&token).unwrap(), b"sensitive data".to_vec());
    let t = manager.encrypt_string("你好");
    assert_eq!(manager.decrypt_string(&t).unwrap(), "你好");
}

#[test]
fn test_decrypt_invalid_data() {
    let (_key, manager) = EncryptionManager::generate().unwrap();
    assert!(matches!(manager.decrypt(&[1, 2, 3]), Err(DirSoulError::Encryption(_))));
    assert!(manager.decrypt(b"invalid encrypted data that is not real").is_err());
    assert!(manager.decrypt(&[b'x'; 64]).is_err());
    assert!(EncryptionManager::from_key("not a key").is_err());
}

#[test]
fn test_decrypt_wrong_key() {
    let (_k1, a) = EncryptionManager::generate().unwrap();
    let (_k2, b) = EncryptionManager::generate().unwrap();
    let token = a.encrypt(b"secret");
    assert!(b.decrypt(&token).is_err());
}

#[test]
fn test_encrypted_voice_round_trip() {
    let (_key, manager) = EncryptionManager::generate().unwrap();
    let m = binary_memory(1, "u".to_string(), 0, ContentType::Image, &[9, 9], Some(&manager)).unwrap();
    let bytes = manager.decrypt(m.encrypted.as_ref().unwrap()).unwrap();
    assert_eq!(bytes, b"CQk=".to_vec());
}

#[test]
fn test_data_tier_age_threshold() {
    assert_eq!(DataTier::Hot.age_threshold_months(), 3);
    assert_eq!(DataTier::Warm.age_threshold_months(), 24);
}

#[test]
fn test_data_tier_should_archive() {
    assert!(!DataTier::Hot.should_archive(1));
    assert!(DataTier::Hot.should_archive(4));
    assert!(!DataTier::Warm.should_archive(12));
    assert!(DataTier::Warm.should_archive(30));
    assert!(!DataTier::Cold.should_archive(100));
}

#[test]
fn test_tiering_config_default() {
    let config = TieringConfig::default();
    assert_eq!(config.hot_threshold_months, 3);
    assert_eq!(config.warm_threshold_months, 24);
    assert!(config.enable_auto_archive);
}

#[test]
fn test_determine_tier() {
    let c = TieringConfig::default();
    let day = 86400;
    assert_eq!(determine_tier(&c, 0, 10 * day), DataTier::Hot);
    assert_eq!(determine_tier(&c, 0, 90 * day), DataTier::Warm);
    assert_eq!(determine_tier(&c, 0, 720 * day), DataTier::Cold);
}

#[test]
fn test_render_prompt_with_variables() {
    let mut m = PromptManager::with_dir("prompts");
    m.add_template("greet".to_string(), "Hello {{name}}, welcome to {{place}}! {{name}}!".to_string());
    let vars = vec![("name".to_string(), "Alice".to_string()), ("place".to_string(), "DirSoul".to_string())];
    assert_eq!(m.render_prompt("greet", &vars).unwrap(), "Hello Alice, welcome to DirSoul! Alice!");
}

#[test]
fn test_render_prompt_partial_variables() {
    let mut m = PromptManager::with_dir("prompts");
    m.add_template("t".to_string(), "{{a}} and {{b}}".to_string());
    let vars = vec![("a".to_string(), "x".to_string())];
    assert_eq!(m.render_prompt_string("t", &vars).unwrap(), "x and {{b}}");
}

#[test]
fn test_load_nonexistent_prompt() {
    let m = PromptManager::with_dir("prompts");
    assert!(matches!(m.render_prompt("missing", &vec![]), Err(DirSoulError::NotFound(_))));
}

#[test]
fn test_has_prompt() {
    let mut m = PromptManager::with_dir("prompts");
    assert!(!m.has_prompt("a"));
    m.add_template("a".to_string(), "x".to_string());
    assert!(m.has_prompt("a"));
}

#[test]
fn test_clear_cache() {
    let mut m = PromptManager::with_dir("prompts");
    m.add_template("a".to_string(), "x".to_string());
    m.clear_cache();
    assert!(!m.has_prompt("a"));
}

const MONDAY: i64 = 1_699_833_600;

#[test]
fn test_time_parser_today() {
    let now = MONDAY + 12 * 3600;
    assert_eq!(parse_time_at("今天", now, 0), Some(MONDAY));
    assert_eq!(parse_time_at(" 今天 ", now, 0), Some(MONDAY));
}

#[test]
fn test_time_parser_yesterday() {
    assert_eq!(parse_time_at("昨天", MONDAY + 5, 0), Some(MONDAY - 86400));
    assert_eq!(parse_time_at("前天", MONDAY + 5, 0), Some(MONDAY - 2 * 86400));
}

#[test]
fn test_time_parser_days_ago() {
    assert_eq!(parse_time_at("3天前", MONDAY + 5, 0), Some(MONDAY - 3 * 86400));
    assert_eq!(parse_time_at("天前", MONDAY + 5, 0), None);
}

#[test]
fn test_time_parser_today_afternoon() {
    assert_eq!(parse_time_at("今天下午", MONDAY + 5, 0), Some(MONDAY + 14 * 3600));
    assert_eq!(parse_time_at("今天早上", MONDAY + 5, 0), Some(MONDAY + 9 * 3600));
    assert_eq!(parse_time_at("今天晚上", MONDAY + 5, 0), Some(MONDAY + 20 * 3600));
}

#[test]
fn test_time_parser_this_week() {
    let now = MONDAY + 5;
    assert_eq!(parse_time_at("周三", now, 0), Some(MONDAY + 2 * 86400));
    assert_eq!(parse_time_at("本周三", now, 0), Some(MONDAY + 2 * 86400));
    assert_eq!(parse_time_at("上周三", now, 0), Some(MONDAY - 5 * 86400));
    assert_eq!(parse_time_at("下周一", now, 0), Some(MONDAY + 7 * 86400));
    assert_eq!(parse_time_at("周日", now, 0), Some(MONDAY + 6 * 86400));
    assert_eq!(parse_time_at("随便说说", now, 0), None);
    assert!(TimeParser::with_time(now).parse("周三").is_some());
}

#[test]
fn test_time_parser_local_zone() {
    // Monday 20:00 UTC is Tuesday 04:00 at UTC+8: local midnight is 16:00 UTC.
    let now = MONDAY + 20 * 3600;
    assert_eq!(parse_time_at("今天", now, 8 * 3600), Some(MONDAY + 16 * 3600));
}

fn chars(s: &str) -> Vec<char> {
    s.chars().collect()
}

#[test]
fn test_jaro_winkler_exact_match() {
    assert_eq!(jaro_winkler_similarity(&chars("Apple"), &chars("Apple")), 1000);
}

#[test]
fn test_jaro_winkler_no_match() {
    assert_eq!(jaro_winkler_similarity(&chars("ABC"), &chars("XYZ")), 0);
    assert_eq!(jaro_winkler_similarity(&chars(""), &chars("XYZ")), 0);
}

#[test]
fn test_jaro_winkler_partial_match() {
    let sim = jaro_winkler_similarity(&chars("Apple"), &chars("Apply"));
    assert!(sim > 800);
    assert!(sim < 1000);
    assert_eq!(sim, 920);
    // MARTHA / MARHTA: 6 matches, 2 transpositions, prefix 3
    assert_eq!(jaro_winkler_similarity(&chars("MARTHA"), &chars("MARHTA")), 961);
}

#[test]
fn test_extract_context_keywords_food() {
    assert!(domains_of("我今天吃了一个苹果").0);
}

#[test]
fn test_extract_context_keywords_company() {
    assert!(domains_of("我买了一些苹果公司的股票").1);
}

#[test]
fn test_link_entity_exact_fuzzy_and_new() {
    let mut store = EntityStore::new();
    let owner = "u".to_string();
    let a = store.link(&owner, "  apple ", "我今天吃了一个苹果", 100);
    assert_eq!(a, 0);
    assert_eq!(store.entities[0].canonical_name, "Apple");
    assert_eq!(store.entities[0].occurrence_count, 1);
    let b = store.link(&owner, "苹果", "又吃了", 200);
    assert_eq!(b, 0);
    assert_eq!(store.entities[0].occurrence_count, 2);
    assert_eq!(store.entities[0].last_seen, 200);
    let c = store.link(&owner, "apply", "吃", 300);
    assert_eq!(c, 0);
    let d = store.link(&owner, "咖啡", "和朋友一起", 400);
    assert_eq!(d, 1);
    assert_eq!(store.entities[1].entity_type, EntityType::Person);
    let other = store.link(&"v".to_string(), "apple", "", 500);
    assert_eq!(other, 2);
    assert!(store.entities.iter().all(|e| e.last_seen >= e.first_seen && e.occurrence_count >= 1));
}

#[test]
fn test_encrypted_export_round_trip() {
    let (_key, manager) = EncryptionManager::generate().unwrap();
    let json = "{\"user_id\":\"u\",\"events\":[]}";
    let export = seal_export("u".to_string(), json, 7, &manager);
    assert_eq!(export.user_id, "u");
    assert_eq!(export.checksum.len(), 32);
    assert_eq!(open_export(&export, &manager).unwrap(), json);

    let mut tampered = export.clone();
    tampered.checksum = "0".repeat(32);
    assert!(matches!(open_export(&tampered, &manager), Err(DirSoulError::Encryption(_))));

    let mut garbled = export.clone();
    garbled.encrypted_data = "***".to_string();
    assert!(open_export(&garbled, &manager).is_err());

    let hello = seal_export("u".to_string(), "hello", 7, &manager);
    assert_eq!(hello.checksum, "5d41402abc4b2a76b9719d911017c592");
}

#[test]
fn test_extract_with_quantity() {
    let e = rule_extract("今天吃了3个苹果").unwrap().unwrap();
    assert_eq!(e.action, "吃");
    assert_eq!(e.target, "苹果");
    assert_eq!(e.quantity, Some(3));
    assert_eq!(e.unit, Some("个".to_string()));
    assert_eq!(e.confidence, 700);
    assert_eq!(e.method, "rule");
}

#[test]
fn test_extract_without_quantity() {
    let e = rule_extract("去跑步").unwrap().unwrap();
    assert_eq!(e.action, "去");
    assert_eq!(e.target, "跑步");
    assert!(e.quantity.is_none());
    assert_eq!(e.confidence, 500);
}

#[test]
fn test_extract_buy_book() {
    let e = rule_extract("买了1本书").unwrap().unwrap();
    assert_eq!(e.action, "购买");
    assert_eq!(e.target, "书");
    assert_eq!(e.quantity, Some(1));
}

#[test]
fn test_extract_nothing() {
    assert!(rule_extract("天气很好").unwrap().is_none());
    assert!(matches!(rule_extract("吃了99999999999999999999999个苹果"), Err(DirSoulError::Validation(_))));
}

#[test]
fn test_input_processor_text() {
    let p = InputProcessor::new("u".to_string());
    let m = p.process_input(1, 5, RawInput::Text { content: "今天吃了苹果".to_string() });
    assert_eq!(m.content_type, ContentType::Text);
    assert_eq!(m.content.as_deref(), Some("今天吃了苹果"));
    assert!(!m.is_encrypted());
    assert_eq!(m.user_id, "u");
}

#[test]
fn test_input_processor_action() {
    let p = InputProcessor::new("u".to_string());
    let m = p.process_input(2, 5, RawInput::Action {
        action: "跑步".to_string(),
        target: "公园".to_string(),
        quantity: Some(5),
        unit: Some("公里".to_string()),
    });
    assert_eq!(m.content_type, ContentType::Action);
    assert_eq!(m.content.as_deref(), Some("跑步 5 公里 公园"));
    let plain = p.process_input(3, 5, RawInput::Action { action: "吃".to_string(), target: "饭".to_string(), quantity: None, unit: None });
    assert_eq!(plain.content.as_deref(), Some("吃 饭"));
}

#[test]
fn test_voice_input() {
    let p = InputProcessor::new("u".to_string());
    let m = p.process_input(4, 5, RawInput::Voice { audio_data: vec![1, 2, 3, 4, 5], format: VoiceFormat::WAV });
    assert_eq!(m.content_type, ContentType::Voice);
    assert_eq!(m.content.as_deref(), Some("AQIDBAU="));
}

#[test]
fn test_document_input_without_text() {
    let p = InputProcessor::new("u".to_string());
    let m = p.process_input(5, 5, RawInput::Document { file_path: "/tmp/a.pdf".to_string(), format: DocumentFormat::PDF, content: None });
    assert_eq!(m.content.as_deref(), Some("[Document: /tmp/a.pdf]"));
}

#[test]
fn test_input_processor_encrypts() {
    let (_k, key) = EncryptionManager::generate().unwrap();
    let (_k2, same) = (0, EncryptionManager::from_key(&_k).unwrap());
    let p = InputProcessor::with_encryption("u".to_string(), key);
    let m = p.process_input(6, 5, RawInput::Text { content: "secret".to_string() });
    assert!(m.is_encrypted());
    assert!(m.content.is_none());
    assert_eq!(same.decrypt(m.encrypted.as_ref().unwrap()).unwrap(), b"secret".to_vec());
}

#[test]
fn test_empty_data() {
    let (_k, manager) = EncryptionManager::generate().unwrap();
    let encrypted = manager.encrypt(b"");
    assert_eq!(manager.decrypt(&encrypted).unwrap(), Vec::<u8>::new());
}

#[test]
fn test_future_rows_are_hot() {
    assert_eq!(determine_tier(&TieringConfig::default(), 1000 * 86400, 0), DataTier::Hot);
}
