use lexica::dictionary::bootstrap::{
    after_import, already_ready, dictionary_ready, is_database_entry, progress_due, READY_MIN_ENTRIES,
};
use lexica::dictionary::ecdict::{map_ecdict_row, split_lines, EcdictProvider, EcdictRow};
use lexica::dictionary::engine::{lookup_next, lookup_query, LookupAction, LookupStage};
use lexica::dictionary::model::{Collocation, Example, LookupOutcome, Sense, Suggestion, WordEntry};
use lexica::dictionary::seed::{seed_record, SeedCollocation, SeedExample, SeedProvider, SeedSense, SeedWord};
use lexica::dictionary::store::{assemble_entry, briefs_query, folded_pattern, merge_suggestions, EntryHead};
use lexica::domain::{ExampleId, SenseId, WordId};
use lexica::error::DictionaryError;

fn row(word: &str, phonetic: Option<&str>, definition: Option<&str>, translation: Option<&str>, bnc: Option<i64>, frq: Option<i64>, exchange: Option<&str>) -> EcdictRow {
    EcdictRow {
        word: Some(word.to_string()),
        phonetic: phonetic.map(|s| s.to_string()),
        definition: definition.map(|s| s.to_string()),
        translation: translation.map(|s| s.to_string()),
        frq,
        bnc,
        exchange: exchange.map(|s| s.to_string()),
    }
}

#[test]
fn ecdict_import_maps_fields_and_forms() {
    // The phonetic junk row "'a" and the real row "a" both claim the head word "a";
    // the import orders rows with a frequency first, so the real one wins.
    let junk = map_ecdict_row(&row("'a", None, None, None, None, None, None));
    assert!(junk.is_none(), "no definition and no translation");
    let a = map_ecdict_row(&row("a", None, Some("art. one of a set"), Some("art. 一个"), Some(5), Some(5), None)).unwrap();
    assert_eq!(a.word, "a");
    assert_eq!(a.display, "a");
    assert_eq!(a.frequency_rank, Some(5));

    let go = map_ecdict_row(&row(
        "go",
        Some("gou"),
        Some("v. move away\nv. proceed"),
        Some("vi. 去\nvt. 进行"),
        Some(21),
        Some(18),
        Some("i:going/p:went/d:gone/3:goes/s:goes"),
    ))
    .unwrap();
    assert_eq!(go.display, "go");
    assert_eq!(go.phonetic.as_deref(), Some("/gou/"));
    assert_eq!(go.frequency_rank, Some(18));
    assert_eq!(
        go.senses,
        vec![
            ("v. move away".to_string(), Some("vi. 去".to_string())),
            ("v. proceed".to_string(), Some("vt. 进行".to_string()))
        ]
    );
    for form in ["going", "went", "gone", "goes"] {
        assert!(go.forms.iter().any(|f| f == form), "form {form} maps to go");
    }

    let meticulous = map_ecdict_row(&row(
        "meticulous",
        Some("mә'tikjulәs"),
        Some("s. marked by precise accordance with details\ns. marked by extreme care"),
        Some("a. 一丝不苟的, 过细的"),
        Some(11166),
        Some(11107),
        Some(""),
    ))
    .unwrap();
    assert_eq!(meticulous.senses.len(), 1, "two English lines, one Chinese line: one sense");
    assert!(meticulous.forms.is_empty());

    assert!(map_ecdict_row(&row("emptyword", None, None, None, Some(0), Some(0), None)).is_none());
}

#[test]
fn ecdict_paired_lines_become_separate_senses() {
    let bank = map_ecdict_row(&row(
        "bank",
        None,
        Some("n. a financial institution\nn. sloping land beside water"),
        Some("n. 银行\nn. 河岸"),
        None,
        None,
        None,
    ))
    .unwrap();
    assert_eq!(bank.senses.len(), 2);

    let fast = map_ecdict_row(&row("fast", None, Some("adj. moving quickly\nadv. firmly fixed"), Some("adj. 快的"), None, None, None)).unwrap();
    assert_eq!(fast.senses.len(), 1);
    assert_eq!(fast.senses[0].0, "adj. moving quickly\nadv. firmly fixed");
    assert_eq!(fast.senses[0].1.as_deref(), Some("adj. 快的"));
    assert_eq!(fast.frequency_rank, None);
}

#[test]
fn ecdict_details_ranks_phonetics_and_lines() {
    let r = map_ecdict_row(&row("x", Some(" /ks/ "), Some(" one \n\n two "), None, Some(7), Some(0), Some("p:x/bad/d:Xs")))
        .unwrap();
    assert_eq!(r.phonetic.as_deref(), Some("/ks/"));
    assert_eq!(r.frequency_rank, Some(7), "bnc stands in for a missing frq");
    assert_eq!(r.senses, vec![("one\ntwo".to_string(), None)]);
    assert_eq!(r.forms, vec!["xs".to_string()], "the word itself and tokens without ':' are skipped");
    let lines = split_lines(&Some("a\r\n b \n\n".to_string()));
    assert_eq!(lines, vec![vec!['a'], vec!['b']]);
    assert!(map_ecdict_row(&EcdictRow { word: None, phonetic: None, definition: Some("d".into()), translation: None, frq: None, bnc: None, exchange: None }).is_none());
}

#[test]
fn lookup_normalizes_case_and_quotes() {
    for input in ["Meticulous", " METICULOUS ", "“Meticulous”"] {
        assert_eq!(lookup_query(input).as_deref(), Some("meticulous"));
    }
}

#[test]
fn suggest_empty_query_returns_empty() {
    assert!(lookup_query("").is_none());
    assert!(lookup_query("   ").is_none());
    assert!(lookup_query("\"\"").is_none());
}

fn sug(word: &str, rank: Option<u32>) -> Suggestion {
    Suggestion { word: word.into(), display: word.into(), phonetic: None, frequency_rank: rank }
}

#[test]
fn suggest_tops_up_and_prefers_exact() {
    // Exact match first; the rest keep their order.
    let ranked = vec![sug("subtler", Some(100)), sug("subtle", Some(200)), sug("subtlety", Some(300))];
    let s = merge_suggestions(ranked, Vec::new(), "subtle", 8);
    assert_eq!(s.first().unwrap().word, "subtle");
    assert_eq!(s.iter().map(|x| x.word.as_str()).collect::<Vec<_>>(), vec!["subtle", "subtler", "subtlety"]);

    // Words without a frequency come in alphabetically to top up.
    let s = merge_suggestions(Vec::new(), vec![sug("zephyrque", None)], "zephyr", 8);
    assert!(s.iter().any(|x| x.word == "zephyrque"), "{s:?}");

    // Already ranked words are not repeated, and the limit holds.
    let ranked = vec![sug("coa", Some(1))];
    let alpha = vec![sug("coa", Some(1)), sug("cob", None), sug("coc", None)];
    let s = merge_suggestions(ranked, alpha, "co", 2);
    assert_eq!(s.iter().map(|x| x.word.as_str()).collect::<Vec<_>>(), vec!["coa", "cob"]);
}

#[test]
fn sql_helpers_quote_and_list() {
    assert_eq!(folded_pattern("café"), "word:\"café\"");
    assert_eq!(briefs_query(3), "SELECT id, word, display, phonetic FROM words WHERE id IN (?,?,?)");
    assert_eq!(briefs_query(1), "SELECT id, word, display, phonetic FROM words WHERE id IN (?)");
}

fn sense(id: i64, pos: &str) -> Sense {
    Sense {
        id: SenseId(id),
        pos: Some(pos.into()),
        english_definition: format!("def {id}"),
        chinese_definition: None,
        level: None,
        examples: Vec::new(),
    }
}

fn example(id: i64, text: &str) -> Example {
    Example { id: ExampleId(id), text: text.into(), translation: None }
}

fn head(synonyms: &str) -> EntryHead {
    EntryHead {
        word: "elaborate".into(),
        display: "elaborate".into(),
        phonetic: Some("/ɪˈlæbərət/".into()),
        frequency_rank: Some(9000),
        synonyms: synonyms.into(),
        antonyms: "[]".into(),
        word_family: "[\"elaboration\"]".into(),
    }
}

#[test]
fn multi_sense_preserves_order() {
    let senses = vec![sense(10, "adj."), sense(11, "v.")];
    let examples = vec![(11, example(1, "first")), (10, example(2, "adj one")), (11, example(3, "second"))];
    let colls = vec![Collocation { text: "elaborate on".into(), gloss: None }];
    let e = assemble_entry(WordId(5), head("[\"detailed\",\"intricate\"]"), senses, examples, colls).unwrap();
    assert_eq!(e.id, WordId(5));
    assert_eq!(e.senses.len(), 2);
    assert_eq!(e.senses[0].pos.as_deref(), Some("adj."));
    assert_eq!(e.senses[1].pos.as_deref(), Some("v."));
    assert_eq!(e.senses[1].examples.len(), 2);
    assert_eq!(e.senses[1].examples[0].text, "first");
    assert_eq!(e.senses[0].examples.len(), 1);
    assert_eq!(e.synonyms, vec!["detailed".to_string(), "intricate".to_string()]);
    assert!(e.antonyms.is_empty());
    assert_eq!(e.word_family, vec!["elaboration".to_string()]);
    assert_eq!(e.frequency_rank, Some(9000));
    assert_eq!(e.collocations.len(), 1);
}

#[test]
fn bad_word_lists_are_data_errors() {
    let r = assemble_entry(WordId(5), head("not json"), Vec::new(), Vec::new(), Vec::new());
    assert!(matches!(r, Err(DictionaryError::Data(_))));
}

fn seed_word(word: &str) -> SeedWord {
    SeedWord {
        word: word.into(),
        phonetic: Some("/x/".into()),
        frequency_rank: Some(4700),
        senses: vec![SeedSense {
            pos: Some("adj.".into()),
            english: "convincing".into(),
            chinese: Some("令人信服的".into()),
            level: Some("B2".into()),
            examples: vec![SeedExample { text: "A compelling case.".into(), translation: None }],
        }],
        collocations: vec![SeedCollocation { text: "compelling evidence".into(), gloss: None }],
        synonyms: vec!["convincing".into(), "persuasive".into()],
        antonyms: vec![],
        word_family: vec!["compel".into()],
        forms: vec!["Compelling".into(), "compellingly".into(), " ".into()],
    }
}

#[test]
fn seed_words_map_to_rows_that_read_back() {
    let rec = seed_record(seed_word("Compelling")).unwrap();
    assert_eq!(rec.word, "compelling");
    assert_eq!(rec.display, "Compelling");
    assert_eq!(rec.synonyms, "[\"convincing\",\"persuasive\"]");
    assert_eq!(rec.antonyms, "[]");
    assert_eq!(rec.forms, vec!["compellingly".to_string()]);
    assert_eq!(rec.senses.len(), 1);

    // What the seed stores reads back as the same lists.
    let entry = assemble_entry(
        WordId(1),
        EntryHead {
            word: rec.word.clone(),
            display: rec.display.clone(),
            phonetic: rec.phonetic.clone(),
            frequency_rank: rec.frequency_rank,
            synonyms: rec.synonyms.clone(),
            antonyms: rec.antonyms.clone(),
            word_family: rec.word_family.clone(),
        },
        Vec::new(),
        Vec::new(),
        Vec::new(),
    )
    .unwrap();
    assert_eq!(entry.synonyms, vec!["convincing".to_string(), "persuasive".to_string()]);
    assert_eq!(entry.word_family, vec!["compel".to_string()]);

    let mut no_senses = seed_word("lonely");
    no_senses.senses.clear();
    assert!(seed_record(no_senses).is_none());
    assert!(seed_record(seed_word(" ' ")).is_none());
}

#[test]
fn setup_decisions() {
    assert!(dictionary_ready(true, 0));
    assert!(dictionary_ready(false, READY_MIN_ENTRIES));
    assert!(!dictionary_ready(false, READY_MIN_ENTRIES - 1));
    let r = already_ready(42);
    assert!(r.ready && r.skipped && r.imported == 0 && r.word_count == 42);
    let r = after_import(3_400_000, 3_399_000);
    assert!(r.ready && !r.skipped && r.imported == 3_399_000);
    assert!(progress_due(3 * 1024 * 1024, 0, None));
    assert!(!progress_due(2 * 1024 * 1024, 0, None));
    assert!(progress_due(100, 0, Some(100)));
    assert!(!progress_due(100, 0, Some(200)));
}

#[test]
fn archive_entries_are_recognised_by_name() {
    assert!(is_database_entry("stardict.db"));
    assert!(is_database_entry("ecdict-sqlite-28/STARDICT.DB"));
    assert!(is_database_entry("dir\\sub\\other.Db"));
    assert!(is_database_entry("dir/stardict.db/"));
    assert!(is_database_entry("dir/stardict.db/."));
    assert!(!is_database_entry("readme.txt"));
    assert!(!is_database_entry("db"));
    assert!(!is_database_entry("stardict.db/.."));
    assert!(!is_database_entry(""));
    assert!(!is_database_entry("/"));
}

#[test]
fn providers_name_their_source() {
    assert_eq!(SeedProvider.name(), "seed");
    assert_eq!(EcdictProvider { source_path: "stardict.db".into() }.name(), "ecdict");
}

#[test]
fn ecdict_import_rejects_foreign_source() {
    let provider = EcdictProvider { source_path: "other.db".into() };
    let err = provider.check_source(0).unwrap_err();
    assert!(matches!(err, DictionaryError::InvalidSource(_)));
    assert!(provider.check_source(1).is_ok());
}

#[test]
fn suggest_prefix_ranks_by_frequency() {
    // The ranked rows arrive by ascending frequency rank; merging keeps that order.
    let ranked = vec![sug("compelling", Some(4700)), sug("coherent", Some(6500)), sug("conspicuous", Some(12000))];
    let s = merge_suggestions(ranked, vec![sug("coalesce", None)], "co", 8);
    let words: Vec<&str> = s.iter().map(|x| x.word.as_str()).collect();
    assert!(words.contains(&"compelling"));
    assert!(words.contains(&"coherent"));
    assert!(words.contains(&"conspicuous"));
    let pos = |w: &str| words.iter().position(|x| *x == w).unwrap();
    assert!(pos("compelling") < pos("coherent"));
    assert!(pos("coherent") < pos("conspicuous"));
    assert_eq!(words.last(), Some(&"coalesce"));
}

fn run_entry() -> WordEntry {
    WordEntry {
        id: WordId(7),
        word: "run".into(),
        display: "run".into(),
        phonetic: None,
        frequency_rank: None,
        senses: vec![],
        collocations: vec![],
        synonyms: vec![],
        antonyms: vec![],
        word_family: vec![],
    }
}

#[test]
fn lookup_chain_falls_back_step_by_step() {
    assert!(matches!(lookup_next("running", LookupStage::Exact, None, None), LookupAction::QueryFolded(s) if s == "running"));
    assert!(matches!(lookup_next("running", LookupStage::Folded, None, None), LookupAction::QueryForm(s) if s == "running"));
    assert!(matches!(lookup_next("running", LookupStage::Form, None, Some(WordId(7))), LookupAction::LoadHeadWord(WordId(7))));
    for stage in [LookupStage::Exact, LookupStage::Folded, LookupStage::HeadWord] {
        match lookup_next("running", stage, Some(run_entry()), None) {
            LookupAction::Finish(LookupOutcome::Hit { entry }) => assert_eq!(entry.word, "run"),
            other => panic!("{other:?}"),
        }
    }
    assert!(matches!(lookup_next("runnin", LookupStage::Form, None, None), LookupAction::Suggest(s) if s == "runnin"));
    assert!(matches!(lookup_next("runnin", LookupStage::HeadWord, None, None), LookupAction::Suggest(s) if s == "runnin"));
}

#[test]
fn lookup_suggestions_normalise_the_query_again() {
    let q = lookup_query("' a").unwrap();
    assert_eq!(q, " a");
    assert!(matches!(lookup_next(&q, LookupStage::Form, None, None), LookupAction::Suggest(s) if s == "a"));
    assert!(matches!(
        lookup_next("''", LookupStage::HeadWord, None, None),
        LookupAction::Finish(LookupOutcome::Miss { suggestions }) if suggestions.is_empty()
    ));
}
