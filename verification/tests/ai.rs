use lexica::ai::{
    after_generation, batch_request, batch_result, chat_content, cache_key, cache_keys, cache_rows, cached_examples, chat_url,
    choose_sense, config_from_settings, config_rows, connection_failure, connection_target, gen_word,
    generation_plan, json_array_text, key_decision, missing_words, parse_json_items, system_prompt, user_prompt,
    validate_and_blank, AiConfig, AiExample, GenWord, KeyDecision, MemoryKeyStore, SenseRow, SYSTEM_PROMPT,
};
use lexica::error::AppError;

#[test]
fn memory_key_store_roundtrip() {
    let mut store = MemoryKeyStore::new();
    assert_eq!(store.get().unwrap(), None);
    store.set("sk-test").unwrap();
    assert_eq!(store.get().unwrap().as_deref(), Some("sk-test"));
    store.delete().unwrap();
    assert_eq!(store.get().unwrap(), None);
    store.delete().unwrap();
}

fn gen_words() -> Vec<GenWord> {
    vec![
        GenWord {
            word_id: 1,
            sense_id: Some(1),
            word: "meticulous".into(),
            english: "very careful about small details".into(),
            chinese: Some("一丝不苟的".into()),
        },
        GenWord {
            word_id: 3,
            sense_id: Some(4),
            word: "subtle".into(),
            english: "not obvious".into(),
            chinese: Some("微妙的".into()),
        },
    ]
}

#[test]
fn validate_and_blank_accepts_only_valid_entries() {
    let words = gen_words();
    let content = r#"[
        {"word_id": 1, "sense_id": 1, "sentence": "She was meticulous about checking every detail."},
        {"word_id": 1, "sense_id": 1, "sentence": "The report was meticulous and thorough."},
        {"word_id": 1, "sense_id": 1, "sentence": "It meticulousness quickly."},
        {"word_id": 1, "sense_id": 1, "sentence": "   "},
        {"word_id": 1, "sense_id": 1, "sentence": "Nothing relevant here."},
        {"word_id": 999, "sense_id": 1, "sentence": "Unknown id."},
        {"word_id": 3, "sense_id": 999, "sentence": "Wrong sense."},
        {"word_id": 3, "sense_id": 4, "sentence": "There was a subtle shift in the wind."}
    ]"#;
    let out = validate_and_blank(content, &words);
    assert_eq!(out.len(), 3, "{out:?}");
    assert_eq!(out[0].sentence, "She was ______ about checking every detail.");
    assert_eq!(out[2].sentence, "There was a ______ shift in the wind.");
    let multi = r#"[{"word_id": 1, "sense_id": 1, "sentence": "She was meticulous, always meticulous, about details."}]"#;
    let out = validate_and_blank(multi, &words);
    assert_eq!(out.len(), 1);
    assert_eq!(out[0].sentence, "She was ______, always ______, about details.");
}

#[test]
fn validate_and_blank_strips_fences_and_prose() {
    let words = gen_words();
    let fenced = "```json\n[{\"word_id\":3,\"sentence\":\"A subtle change came over her face.\"}]\n```";
    let out = validate_and_blank(fenced, &words);
    assert_eq!(out.len(), 1);
    assert_eq!(out[0].sense_id, Some(4));
    assert_eq!(out[0].sentence, "A ______ change came over her face.");
    let prose = "Here you go:\n[{\"word_id\":3,\"sentence\":\"A subtle hint of lemon.\"}] hope it helps";
    assert_eq!(validate_and_blank(prose, &words).len(), 1);
    assert!(validate_and_blank("no json at all", &words).is_empty());
}

#[test]
fn validate_and_blank_enforces_length_limits() {
    let words = gen_words();
    let short = r#"[{"word_id":3,"sentence":"So subtle."}]"#;
    assert!(validate_and_blank(short, &words).is_empty());
    let long = format!(
        r#"[{{"word_id":3,"sentence":"{}subtle"}}]"#,
        "word ".repeat(20)
    );
    assert!(validate_and_blank(&long, &words).is_empty());
}

fn test_cfg(base_url: &str) -> AiConfig {
    AiConfig { enabled: true, base_url: base_url.to_string(), model: "mock-model".into() }
}

fn chat_body(content: &str) -> String {
    format!(
        r#"{{"choices":[{{"message":{{"role":"assistant","content":{}}}}}]}}"#,
        serde_json::Value::String(content.to_string())
    )
}

fn settings(rows: &[(String, String)], key: &str) -> Option<String> {
    rows.iter().find(|(k, _)| k == key).map(|(_, v)| v.clone())
}

#[test]
fn config_defaults_to_disabled_and_roundtrips() {
    let cfg = config_from_settings(None, None, None);
    assert!(!cfg.enabled);
    assert_eq!(cfg.base_url, "https://api.deepseek.com/v1");
    assert_eq!(cfg.model, "deepseek-chat");

    let rows = config_rows(true, "https://api.example.com/v1/", "test-model");
    let cfg = config_from_settings(
        settings(&rows, "ai_enabled"),
        settings(&rows, "ai_base_url"),
        settings(&rows, "ai_model"),
    );
    assert!(cfg.enabled);
    assert_eq!(cfg.base_url, "https://api.example.com/v1/");
    assert_eq!(cfg.model, "test-model");

    let rows = config_rows(false, "https://api.example.com/v1/", "test-model");
    assert!(!config_from_settings(settings(&rows, "ai_enabled"), None, None).enabled);
}

#[test]
fn config_blank_settings_fall_back_and_saving_trims() {
    let cfg = config_from_settings(Some("yes".into()), Some("   ".into()), Some("".into()));
    assert!(!cfg.enabled);
    assert_eq!(cfg.base_url, "https://api.deepseek.com/v1");
    assert_eq!(cfg.model, "deepseek-chat");
    let rows = config_rows(true, "  https://x.test/v1  ", " m1 ");
    assert_eq!(rows[0], ("ai_enabled".to_string(), "1".to_string()));
    assert_eq!(rows[1].1, "https://x.test/v1");
    assert_eq!(rows[2].1, "m1");
}

fn sense_rows() -> Vec<SenseRow> {
    vec![
        (1, "very careful about small details".to_string(), Some("一丝不苟的".to_string())),
        (2, "precise".to_string(), None),
    ]
}

#[test]
fn load_gen_word_respects_sense_and_falls_back() {
    // The sense asked for (it belongs to the word).
    let rows = sense_rows();
    let w = gen_word(1, "meticulous".to_string(), rows[0].clone());
    assert_eq!(w.word, "meticulous");
    assert_eq!(w.sense_id, Some(1));
    assert!(w.english.contains("careful"));
    // No sense asked for: the first sense with a non-blank English definition.
    let k = choose_sense(&rows).unwrap();
    assert_eq!(rows[k].0, 1);
    // A word without senses has nothing to generate for.
    assert!(choose_sense(&Vec::new()).is_none());
}

#[test]
fn gen_word_skips_blank_english_and_drops_blank_chinese() {
    let rows: Vec<SenseRow> = vec![
        (7, "   ".to_string(), Some("中".to_string())),
        (8, "second".to_string(), Some("  ".to_string())),
    ];
    let k = choose_sense(&rows).unwrap();
    assert_eq!(k, 1);
    let w = gen_word(5, "w".to_string(), rows[k].clone());
    assert_eq!(w.sense_id, Some(8));
    assert_eq!(w.chinese, None);
    let blank: Vec<SenseRow> = vec![(9, "".to_string(), None), (10, " ".to_string(), None)];
    assert_eq!(choose_sense(&blank), Some(0));
}

fn cache_lookup(store: &[(String, i64, Option<i64>, String)], keys: &[String]) -> Vec<Option<(Option<i64>, String)>> {
    keys.iter()
        .map(|k| store.iter().find(|r| &r.0 == k).map(|r| (r.2, r.3.clone())))
        .collect()
}

#[test]
fn cache_roundtrip_and_key_sensitivity() {
    let words = gen_words();
    let cfg = test_cfg("https://api.example.com/v1");
    let mut store: Vec<(String, i64, Option<i64>, String)> = Vec::new();
    let hits = cached_examples(&words, &cache_lookup(&store, &cache_keys(&words, &cfg)));
    assert!(hits.is_empty());

    let examples = vec![AiExample {
        word_id: words[0].word_id,
        sense_id: words[0].sense_id,
        sentence: "The result was clearly ______ in the final data.".into(),
    }];
    store.extend(cache_rows(&words, &cfg, &examples));

    let hits = cached_examples(&words, &cache_lookup(&store, &cache_keys(&words, &cfg)));
    assert_eq!(hits.len(), 1);
    assert_eq!(hits[0].sentence, examples[0].sentence);

    let other = AiConfig { model: "other-model".into(), ..cfg.clone() };
    assert!(cached_examples(&words, &cache_lookup(&store, &cache_keys(&words, &other))).is_empty());
    let slash = AiConfig { base_url: "https://api.example.com/v1/".into(), ..cfg.clone() };
    assert_eq!(cached_examples(&words, &cache_lookup(&store, &cache_keys(&words, &slash))).len(), 1);
    let other_url = AiConfig { base_url: "https://other.example.com/v1".into(), ..cfg };
    assert!(cached_examples(&words, &cache_lookup(&store, &cache_keys(&words, &other_url))).is_empty());
}

#[test]
fn cache_key_layout() {
    let words = gen_words();
    let cfg = AiConfig { enabled: true, base_url: "https://h/v1//".into(), model: " m ".into() };
    assert_eq!(
        cache_key(&words[0], &cfg),
        "v2\u{1f}meticulous\u{1f}very careful about small details\u{1f}一丝不苟的\u{1f}https://h/v1\u{1f}m"
    );
    // Rows only for examples of requested words.
    let stray = vec![AiExample { word_id: 42, sense_id: None, sentence: "x".into() }];
    assert!(cache_rows(&words, &cfg, &stray).is_empty());
}

#[test]
fn parse_json_items_strips_fences_and_prose() {
    let fenced = "```json\n[{\"word_id\":1}]\n```";
    assert_eq!(parse_json_items(fenced).len(), 1);
    let prose = "Here you go:\n[{\"word_id\":1},{\"word_id\":2}] hope it helps";
    assert_eq!(parse_json_items(prose).len(), 2);
    assert!(parse_json_items("no json at all").is_empty());
    assert_eq!(json_array_text("```\n [1] \n```"), "[1]");
    assert_eq!(json_array_text("] before ["), "] before [");
}

#[test]
fn generate_batch_success_validates_and_returns() {
    let words = gen_words();
    let content = r#"[
        {"word_id": 1, "sense_id": 1, "sentence": "She was meticulous about checking every detail."},
        {"word_id": 3, "sense_id": 4, "sentence": "There was a subtle shift in the wind."}
    ]"#;
    let out = batch_result(&words, true, "200 OK", &chat_body(content)).unwrap();
    assert_eq!(out.len(), 2);
    assert!(out.iter().all(|e| e.sentence.contains("______")));
}

#[test]
fn generate_batch_rejects_bad_status_and_bad_payload() {
    let words = gen_words();
    let err = batch_result(&words, false, "401 Unauthorized", "{\"error\":\"bad key\"}").unwrap_err();
    assert!(err.message().contains("401"), "{:?}", err);
    assert_eq!(err, AppError::Network("AI service returned 401 Unauthorized".into()));
    assert!(batch_result(&words, true, "200 OK", "{\"choices\":[]}").is_err());
    assert!(batch_result(&words, true, "200 OK", "not json").is_err());
    let out = batch_result(&words, true, "200 OK", &chat_body("I cannot help with that.")).unwrap();
    assert!(out.is_empty());
}

#[test]
fn generate_batch_empty_words_skips_network() {
    let out = batch_request(&Vec::new(), &test_cfg("http://127.0.0.1:1"));
    assert!(out.unwrap().is_none());
}

#[test]
fn batch_request_targets_the_endpoint_with_both_messages() {
    let words = gen_words();
    let req = batch_request(&words, &test_cfg("https://api.example.com/v1/")).unwrap().unwrap();
    assert_eq!(req.url, "https://api.example.com/v1/chat/completions");
    let body: serde_json::Value = serde_json::from_str(&req.body).unwrap();
    assert_eq!(body["model"], "mock-model");
    assert_eq!(body["messages"][0]["role"], "system");
    assert_eq!(body["messages"][0]["content"], SYSTEM_PROMPT);
    assert_eq!(body["messages"][1]["content"].as_str().unwrap(), user_prompt(&words));
    assert!(batch_request(&words, &test_cfg("  ")).is_err());
}

#[test]
fn user_prompt_lists_ids_words_and_trimmed_definitions() {
    let mut words = gen_words();
    words[1].sense_id = None;
    words[1].chinese = None;
    words[1].english = "  not obvious  ".into();
    assert_eq!(
        user_prompt(&words),
        "Words:\n- word_id: 1 | sense_id: 1 | word: meticulous | english: very careful about small details | chinese: 一丝不苟的\n- word_id: 3 | sense_id: null | word: subtle | english: not obvious | chinese: "
    );
    assert!(system_prompt().starts_with("You write one short English example sentence"));
}

#[test]
fn test_connection_reports_bad_status() {
    let cfg = AiConfig { enabled: true, base_url: "http://127.0.0.1:1/v1".into(), model: "m".into() };
    let req = connection_target(&cfg).unwrap();
    assert_eq!(req.url, "http://127.0.0.1:1/v1/chat/completions");
    let body: serde_json::Value = serde_json::from_str(&req.body).unwrap();
    assert_eq!(body["max_tokens"], 8);
    let no_model = AiConfig { model: String::new(), ..cfg };
    assert!(connection_target(&no_model).is_err());
    let no_url = AiConfig { base_url: String::new(), ..no_model };
    assert!(connection_target(&no_url).is_err());
    assert_eq!(
        connection_failure("500 Internal Server Error", "boom\r\nsecond line"),
        AppError::Network("AI service returned 500 Internal Server Error: boom".into())
    );
    assert_eq!(
        connection_failure("404 Not Found", ""),
        AppError::Network("AI service returned 404 Not Found".into())
    );
    let long = "x".repeat(300);
    match connection_failure("400 Bad Request", &long) {
        AppError::Network(m) => assert_eq!(m.len(), "AI service returned 400 Bad Request: ".len() + 200),
        other => panic!("{:?}", other),
    }
}

#[test]
fn chat_url_trims_and_requires_an_address() {
    assert_eq!(chat_url(&test_cfg(" https://a.test/v1// ")).unwrap(), "https://a.test/v1/chat/completions");
    assert!(chat_url(&test_cfg("///")).is_err());
}

#[test]
fn generation_falls_back_to_cached_examples() {
    let words = gen_words();
    let cached = vec![AiExample { word_id: 1, sense_id: Some(1), sentence: "c ______".into() }];
    assert!(generation_plan(false, &words, &cached).is_none());
    assert!(generation_plan(true, &Vec::new(), &cached).is_none());
    let plan = generation_plan(true, &words, &cached).unwrap();
    assert_eq!(plan.len(), 1);
    assert_eq!(plan[0].word_id, 3);
    assert_eq!(missing_words(&words, &Vec::new()).len(), 2);

    assert_eq!(key_decision(Ok(Some("k".into())), true), KeyDecision::Generate("k".into()));
    assert_eq!(key_decision(Ok(None), true), KeyDecision::UseCached);
    assert_eq!(
        key_decision(Ok(None), false),
        KeyDecision::Fail(AppError::Network("No API key stored for AI".into()))
    );
    assert_eq!(key_decision(Err(AppError::Io("x".into())), true), KeyDecision::UseCached);
    assert_eq!(key_decision(Err(AppError::Io("x".into())), false), KeyDecision::Fail(AppError::Io("x".into())));

    let generated = vec![AiExample { word_id: 3, sense_id: Some(4), sentence: "g ______".into() }];
    let all = after_generation(cached.clone(), Ok(generated)).unwrap();
    assert_eq!(all.iter().map(|e| e.word_id).collect::<Vec<_>>(), vec![1, 3]);
    let kept = after_generation(cached.clone(), Err(AppError::Network("down".into()))).unwrap();
    assert_eq!(kept.len(), 1);
    assert!(after_generation(Vec::new(), Err(AppError::Network("down".into()))).is_err());
}

#[test]
fn chat_replies_are_read_or_reported() {
    assert_eq!(chat_content(&chat_body("[1]")), Ok("[1]".to_string()));
    assert_eq!(
        chat_content("{\"choices\":[]}"),
        Err("AI response missing choices[0].message.content".to_string())
    );
    let err = chat_content("not json").unwrap_err();
    assert!(err.starts_with("AI response is not JSON: "), "{err}");
    let err = batch_result(&gen_words(), true, "200 OK", "{\"choices\":[{\"message\":{\"content\":7}}]}")
        .unwrap_err();
    assert_eq!(err, AppError::Network("AI response missing choices[0].message.content".into()));
}

fn message(role: &str, content: &str) -> serde_json::Value {
    let mut m = serde_json::Map::new();
    m.insert("role".into(), serde_json::Value::from(role));
    m.insert("content".into(), serde_json::Value::from(content));
    serde_json::Value::Object(m)
}

#[test]
fn request_bodies_are_written_as_serde_json_writes_them() {
    let words = gen_words();
    let req = batch_request(&words, &test_cfg("https://a.test/v1")).unwrap().unwrap();
    let mut expected = serde_json::Map::new();
    expected.insert("model".into(), serde_json::Value::from("mock-model"));
    expected.insert(
        "messages".into(),
        serde_json::Value::Array(vec![message("system", &system_prompt()), message("user", &user_prompt(&words))]),
    );
    assert_eq!(req.body.as_bytes(), serde_json::to_vec(&serde_json::Value::Object(expected)).unwrap());
    assert!(req.body.starts_with("{\"messages\":[{\"content\":\"You write"));

    let mut cfg = test_cfg("https://a.test/v1");
    cfg.model = " m\"x ".into();
    let probe = connection_target(&cfg).unwrap();
    assert_eq!(
        probe.body,
        "{\"max_tokens\":8,\"messages\":[{\"content\":\"Reply with the single word: OK\",\"role\":\"user\"}],\"model\":\"m\\\"x\"}"
    );
    let mut expected = serde_json::Map::new();
    expected.insert("model".into(), serde_json::Value::from("m\"x"));
    expected.insert("messages".into(), serde_json::Value::Array(vec![message("user", "Reply with the single word: OK")]));
    expected.insert("max_tokens".into(), serde_json::Value::from(8));
    assert_eq!(probe.body.as_bytes(), serde_json::to_vec(&serde_json::Value::Object(expected)).unwrap());
}

#[test]
fn cache_keys_change_with_every_part() {
    let cfg = AiConfig { enabled: true, base_url: "https://h/v1".into(), model: "m".into() };
    let base = gen_words()[0].clone();
    let key = cache_key(&base, &cfg);
    let same = GenWord { word: " Meticulous ".into(), english: " very careful about small details ".into(), ..base.clone() };
    assert_eq!(cache_key(&same, &cfg), key);
    let changed = [
        GenWord { word: "careful".into(), ..base.clone() },
        GenWord { english: "careful".into(), ..base.clone() },
        GenWord { chinese: None, ..base.clone() },
        GenWord { chinese: Some("细致的".into()), ..base.clone() },
    ];
    for w in &changed {
        assert_ne!(cache_key(w, &cfg), key);
    }
    let other_model = AiConfig { model: "n".into(), ..cfg.clone() };
    assert_ne!(cache_key(&base, &other_model), key);
}
