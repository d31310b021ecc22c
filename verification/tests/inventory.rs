use syllabary::create_all_syllables;
use syllabary::SyllableHandler;

#[test]
fn test_create_syllables() {
    let syllables = create_all_syllables();
    for syllable in &syllables {
        println!("{}", syllable)
    }
    assert_ne!(syllables.len(), 0)
}

#[test]
fn fixed_inventory_counts_and_order() {
    let syllables = create_all_syllables();
    // 20 onsets x 36 nuclei, 36 nuclei x 13 codas, 20 x 36 x 13
    assert_eq!(syllables.len(), 20 * 36 + 36 * 13 + 20 * 36 * 13);
    assert_eq!(syllables[0], "pi");
    assert_eq!(syllables[35], "pwoi");
    assert_eq!(syllables[36], "bi");
    assert_eq!(syllables[20 * 36], "ing");
    assert_eq!(syllables[20 * 36 + 36 * 13], "ping");
    assert_eq!(syllables[syllables.len() - 1], "ngwoilm");
}

#[test]
fn handler_hands_out_what_it_was_given() {
    let rows = vec!["pa".to_string(), "ti".to_string(), "ku".to_string()];
    let handler = SyllableHandler::new(rows.clone());
    assert_eq!(handler.all(), rows);
}

#[test]
fn config_error_descriptions_are_nonempty() {
    let errors = [
        syllabary::ConfigError::DiphthongDataNotExpected,
        syllabary::ConfigError::DisabledDiphthongsNotExpected,
        syllabary::ConfigError::ClusterDataNotExpected,
        syllabary::ConfigError::DisabledClustersNotExpected,
        syllabary::ConfigError::DiphthongDataMissing,
        syllabary::ConfigError::DisabledDiphthongsMissing,
        syllabary::ConfigError::ClusterDerivationNotExpected,
        syllabary::ConfigError::DisabledClustersMissing,
        syllabary::ConfigError::ClusterLengthUnsupported,
    ];
    for error in errors {
        assert!(!error.describe().is_empty());
    }
}
