use lexica::domain::{ComprehensionLevel, SenseId, WordId};
use lexica::memory::model::{EncounterSource, RecallQuality};

#[test]
fn help_rank_orders_by_assistance_needed() {
    assert!(
        ComprehensionLevel::Context.help_rank()
            < ComprehensionLevel::EnglishDefinition.help_rank()
    );
    assert!(
        ComprehensionLevel::EnglishDefinition.help_rank()
            < ComprehensionLevel::ChineseDefinition.help_rank()
    );
}

#[test]
fn db_roundtrip() {
    for level in [
        ComprehensionLevel::Context,
        ComprehensionLevel::EnglishDefinition,
        ComprehensionLevel::ChineseDefinition,
        ComprehensionLevel::Unknown,
    ] {
        assert_eq!(ComprehensionLevel::from_db(level.as_str()), Some(level));
    }
    assert_eq!(ComprehensionLevel::from_db("nonsense"), None);
}

#[test]
fn ids_do_not_mix() {
    fn takes_sense(_: SenseId) {}
    takes_sense(SenseId(1));
    let _ = WordId(1);
}

#[test]
fn unknown_counts_like_chinese_and_names_are_short() {
    assert_eq!(ComprehensionLevel::Unknown.help_rank(), 2);
    assert_eq!(ComprehensionLevel::Context.as_str(), "context");
    assert_eq!(ComprehensionLevel::EnglishDefinition.as_str(), "english");
}

#[test]
fn quality_and_source_names_roundtrip() {
    for q in [
        RecallQuality::Excellent,
        RecallQuality::Good,
        RecallQuality::Hard,
        RecallQuality::Poor,
        RecallQuality::Forgotten,
    ] {
        assert_eq!(RecallQuality::from_db(q.as_str()), Some(q));
    }
    assert_eq!(RecallQuality::from_db("great"), None);
    assert_eq!(RecallQuality::Poor.index(), 1);
    assert_eq!(RecallQuality::Excellent.index(), 4);
    assert_eq!(RecallQuality::Forgotten.index(), 0);
    for s in [EncounterSource::Lookup, EncounterSource::Review] {
        assert_eq!(EncounterSource::from_db(s.as_str()), Some(s));
    }
    assert_eq!(EncounterSource::from_db("other"), None);
}
