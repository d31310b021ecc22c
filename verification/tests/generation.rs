use syllabary::ConfigError;
use syllabary::ConsonantCluster;
use syllabary::ConsonantClusterLength;
use syllabary::Diphthongs;
use syllabary::Glides;
use syllabary::SyllableBuilder;
use syllabary::SyllableStructure;

fn strings(items: &[&str]) -> Vec<String> {
    items.iter().map(|s| s.to_string()).collect()
}

#[test]
fn diphthongs_all_yields_n_squared_with_self_pairs() {
    let mut builder = SyllableBuilder::new();
    builder.with_vowel_data(strings(&["a", "i"]));
    builder.create_diphthongs().unwrap();
    builder.create_nucleus();
    let all = builder.build().all();
    // two bare vowels plus 2 * 2 derived diphthongs, "aa" and "ii" included
    assert_eq!(all, strings(&["a", "i", "aa", "ai", "ia", "ii"]));
}

#[test]
fn diphthongs_no_long_yields_n_squared_minus_n() {
    let mut builder = SyllableBuilder::new();
    builder.with_diphthong_settings(Diphthongs::NoLong);
    builder.with_vowel_data(strings(&["a", "i", "u"]));
    builder.create_diphthongs().unwrap();
    builder.create_nucleus();
    let all = builder.build().all();
    assert_eq!(all.len(), 3 + (3 * 3 - 3));
    assert_eq!(all, strings(&["a", "i", "u", "ai", "au", "ia", "iu", "ua", "ui"]));
    for d in &all[3..] {
        let (first, second) = d.split_at(1);
        assert_ne!(first, second);
    }
}

#[test]
fn diphthongs_disable_given_drops_exact_matches() {
    let mut builder = SyllableBuilder::new();
    builder.with_diphthong_settings(Diphthongs::DisableGiven);
    builder.with_disabled_diphthongs(strings(&["ai"])).unwrap();
    builder.with_vowel_data(strings(&["a", "i"]));
    builder.create_diphthongs().unwrap();
    builder.create_nucleus();
    let all = builder.build().all();
    assert_eq!(all, strings(&["a", "i", "aa", "ia", "ii"]));
}

#[test]
fn diphthongs_only_given_are_taken_verbatim() {
    let mut builder = SyllableBuilder::new();
    builder.with_diphthong_settings(Diphthongs::OnlyGiven);
    builder.with_vowel_data(strings(&["a"]));
    builder.with_diphthong_data(strings(&["oi", "au"])).unwrap();
    builder.create_diphthongs().unwrap();
    builder.create_nucleus();
    let all = builder.build().all();
    assert_eq!(all, strings(&["a", "oi", "au"]));
}

#[test]
fn glides_prefix_vowels_then_diphthongs() {
    let mut builder = SyllableBuilder::new();
    builder.with_vowel_data(strings(&["a"]));
    builder.create_diphthongs().unwrap();
    builder.create_glides();
    builder.create_nucleus();
    let all = builder.build().all();
    assert_eq!(all, strings(&["a", "aa", "ya", "wa", "yaa", "waa"]));
}

#[test]
fn glides_only_u_and_only_y() {
    let mut only_u = SyllableBuilder::new();
    only_u.with_glide_settings(Glides::AllOnlyU);
    only_u.with_vowel_data(strings(&["a", "i"]));
    only_u.create_glides();
    only_u.create_nucleus();
    assert_eq!(only_u.build().all(), strings(&["a", "i", "wa", "wi"]));

    let mut only_y = SyllableBuilder::new();
    only_y.with_glide_settings(Glides::AllOnlyY);
    only_y.with_vowel_data(strings(&["a", "i"]));
    only_y.create_glides();
    only_y.create_nucleus();
    assert_eq!(only_y.build().all(), strings(&["a", "i", "ya", "yi"]));
}

#[test]
fn clusters_all_cc_pool_has_m_plus_m_squared_entries() {
    let mut builder = SyllableBuilder::new();
    builder.with_syllable_structure_settings(SyllableStructure::CV);
    builder.with_vowel_data(strings(&["a"]));
    builder.with_consonant_data(strings(&["p", "t"]));
    builder.create_consonant_cluster().unwrap();
    builder.create_nucleus();
    builder.create_init_cluster();
    let all = builder.build().all();
    // bare nucleus, then one onset shape per pool entry: 2 bare + 4 pairs
    assert_eq!(all.len(), 1 + 2 + 2 * 2);
    assert_eq!(all, strings(&["a", "pa", "ta", "ppa", "pta", "tpa", "tta"]));
}

#[test]
fn clusters_no_double_skips_adjacent_repeats_and_stays_inside_all() {
    let mut no_double = SyllableBuilder::new();
    no_double.with_syllable_structure_settings(SyllableStructure::VC);
    no_double.with_consonant_cluster_settings(
        ConsonantCluster::NoDouble,
        ConsonantClusterLength::CC,
    );
    no_double.with_vowel_data(strings(&["a"]));
    no_double.with_consonant_data(strings(&["b", "d"]));
    no_double.create_consonant_cluster().unwrap();
    no_double.create_nucleus();
    no_double.create_coda_cluster();
    let no_double_all = no_double.build().all();
    assert_eq!(no_double_all, strings(&["a", "ab", "ad", "abd", "adb"]));

    let mut all_mode = SyllableBuilder::new();
    all_mode.with_syllable_structure_settings(SyllableStructure::VC);
    all_mode.with_vowel_data(strings(&["a"]));
    all_mode.with_consonant_data(strings(&["b", "d"]));
    all_mode.create_consonant_cluster().unwrap();
    all_mode.create_nucleus();
    all_mode.create_coda_cluster();
    let all_mode_all = all_mode.build().all();
    // the NoDouble output is a strict subset of the All output
    for syllable in &no_double_all {
        assert!(all_mode_all.contains(syllable));
    }
    assert!(all_mode_all.contains(&"abb".to_string()));
    assert!(!no_double_all.contains(&"abb".to_string()));
}

#[test]
fn clusters_no_double_longer_lengths() {
    let mut builder = SyllableBuilder::new();
    builder.with_syllable_structure_settings(SyllableStructure::VC);
    builder.with_consonant_cluster_settings(
        ConsonantCluster::NoDouble,
        ConsonantClusterLength::CCC,
    );
    builder.with_vowel_data(strings(&["a"]));
    builder.with_consonant_data(strings(&["b", "d"]));
    builder.create_consonant_cluster().unwrap();
    builder.create_nucleus();
    builder.create_coda_cluster();
    let all = builder.build().all();
    assert_eq!(all, strings(&["a", "ab", "ad", "abd", "abdb", "adb", "adbd"]));
}

#[test]
fn clusters_disable_given_drops_exact_matches_only() {
    let mut builder = SyllableBuilder::new();
    builder.with_syllable_structure_settings(SyllableStructure::CV);
    builder.with_consonant_cluster_settings(
        ConsonantCluster::DisableGiven,
        ConsonantClusterLength::CC,
    );
    builder.with_disabled_consonant_cluster(strings(&["pt"])).unwrap();
    builder.with_vowel_data(strings(&["a"]));
    builder.with_consonant_data(strings(&["p", "t"]));
    builder.create_consonant_cluster().unwrap();
    builder.create_nucleus();
    builder.create_init_cluster();
    let all = builder.build().all();
    assert_eq!(all, strings(&["a", "pa", "ta", "ppa", "tpa", "tta"]));
}

#[test]
fn onset_exclusion_keeps_the_coda_position_open() {
    let mut builder = SyllableBuilder::new();
    builder.with_consonant_cluster_settings(ConsonantCluster::All, ConsonantClusterLength::C);
    builder.with_vowel_data(strings(&["a"]));
    builder.with_consonant_data(strings(&["x", "t"]));
    builder.with_disabled_init_cluster(strings(&["x"]));
    builder.create_consonant_cluster().unwrap();
    builder.create_nucleus();
    builder.create_init_cluster();
    builder.create_coda_cluster();
    let all = builder.build().all();
    // no syllable begins with the excluded onset "x"
    for syllable in &all {
        assert!(!syllable.starts_with('x'));
    }
    // but "x" still appears as a coda
    assert!(all.contains(&"ax".to_string()));
    assert_eq!(all, strings(&["a", "ta", "ax", "at", "tax", "tat"]));
}

#[test]
fn structure_vc_emits_no_onset_segment() {
    let mut builder = SyllableBuilder::new();
    builder.with_syllable_structure_settings(SyllableStructure::VC);
    builder.with_consonant_cluster_settings(ConsonantCluster::All, ConsonantClusterLength::C);
    builder.with_vowel_data(strings(&["a"]));
    builder.with_consonant_data(strings(&["p"]));
    builder.create_consonant_cluster().unwrap();
    builder.create_nucleus();
    builder.create_init_cluster();
    builder.create_coda_cluster();
    let all = builder.build().all();
    assert_eq!(all, strings(&["a", "ap"]));
}

#[test]
fn structure_cvc_emits_every_partition() {
    let mut builder = SyllableBuilder::new();
    builder.with_syllable_structure_settings(SyllableStructure::CVC);
    builder.with_consonant_cluster_settings(ConsonantCluster::All, ConsonantClusterLength::C);
    builder.with_vowel_data(strings(&["a"]));
    builder.with_consonant_data(strings(&["p", "t"]));
    builder.create_consonant_cluster().unwrap();
    builder.create_nucleus();
    builder.create_init_cluster();
    builder.create_coda_cluster();
    let all = builder.build().all();
    assert_eq!(
        all,
        strings(&["a", "pa", "ta", "ap", "at", "pap", "pat", "tap", "tat"])
    );
    // every three-segment syllable splits into onset, nucleus, coda from
    // the filtered sets
    for syllable in &all[5..] {
        assert_eq!(syllable.len(), 3);
        let onset = &syllable[0..1];
        let nucleus = &syllable[1..2];
        let coda = &syllable[2..3];
        assert!(onset == "p" || onset == "t");
        assert_eq!(nucleus, "a");
        assert!(coda == "p" || coda == "t");
    }
}

#[test]
fn end_to_end_cv_with_given_clusters() {
    let mut builder = SyllableBuilder::new();
    builder.with_syllable_structure_settings(SyllableStructure::CV);
    builder.with_consonant_cluster_settings(
        ConsonantCluster::OnlyGiven,
        ConsonantClusterLength::Unset,
    );
    builder.with_vowel_data(strings(&["a", "i"]));
    builder.with_consonant_data(strings(&["p", "t"]));
    builder.with_consonant_cluster_data(strings(&["p", "t"])).unwrap();
    builder.create_nucleus();
    builder.create_init_cluster();
    let all = builder.build().all();
    // the six expected strings, grouped per nucleus in generation order
    assert_eq!(all, strings(&["a", "pa", "ta", "i", "pi", "ti"]));
    for expected in ["a", "i", "pa", "pi", "ta", "ti"] {
        assert!(all.contains(&expected.to_string()));
    }
    assert_eq!(all.len(), 6);
}

#[test]
fn disabled_combinations_drop_assembled_syllables() {
    let mut builder = SyllableBuilder::new();
    builder.with_syllable_structure_settings(SyllableStructure::CV);
    builder.with_consonant_cluster_settings(ConsonantCluster::All, ConsonantClusterLength::C);
    builder.with_vowel_data(strings(&["a"]));
    builder.with_consonant_data(strings(&["p", "t"]));
    builder.with_disabled_combinations(strings(&["ta"]));
    builder.create_consonant_cluster().unwrap();
    builder.create_nucleus();
    builder.create_init_cluster();
    let all = builder.build().all();
    assert_eq!(all, strings(&["a", "pa"]));
}

#[test]
fn data_under_wrong_mode_is_refused() {
    let mut builder = SyllableBuilder::new();
    assert_eq!(
        builder.with_diphthong_data(strings(&["ai"])),
        Err(ConfigError::DiphthongDataNotExpected)
    );
    assert_eq!(
        builder.with_disabled_diphthongs(strings(&["ai"])),
        Err(ConfigError::DisabledDiphthongsNotExpected)
    );
    assert_eq!(
        builder.with_consonant_cluster_data(strings(&["pt"])),
        Err(ConfigError::ClusterDataNotExpected)
    );
    assert_eq!(
        builder.with_disabled_consonant_cluster(strings(&["pt"])),
        Err(ConfigError::DisabledClustersNotExpected)
    );
}

#[test]
fn derivation_without_required_data_is_refused() {
    let mut only_given = SyllableBuilder::new();
    only_given.with_diphthong_settings(Diphthongs::OnlyGiven);
    only_given.with_vowel_data(strings(&["a"]));
    assert_eq!(
        only_given.create_diphthongs(),
        Err(ConfigError::DiphthongDataMissing)
    );

    let mut disable_given = SyllableBuilder::new();
    disable_given.with_diphthong_settings(Diphthongs::DisableGiven);
    disable_given.with_vowel_data(strings(&["a"]));
    assert_eq!(
        disable_given.create_diphthongs(),
        Err(ConfigError::DisabledDiphthongsMissing)
    );

    let mut clusters = SyllableBuilder::new();
    clusters.with_consonant_cluster_settings(
        ConsonantCluster::DisableGiven,
        ConsonantClusterLength::CC,
    );
    clusters.with_consonant_data(strings(&["p"]));
    assert_eq!(
        clusters.create_consonant_cluster(),
        Err(ConfigError::DisabledClustersMissing)
    );
}

#[test]
fn invalid_cluster_stage_requests_are_refused() {
    let mut only_given = SyllableBuilder::new();
    only_given.with_consonant_cluster_settings(
        ConsonantCluster::OnlyGiven,
        ConsonantClusterLength::Unset,
    );
    assert_eq!(
        only_given.create_consonant_cluster(),
        Err(ConfigError::ClusterDerivationNotExpected)
    );

    let mut unset_all = SyllableBuilder::new();
    unset_all.with_consonant_cluster_settings(
        ConsonantCluster::All,
        ConsonantClusterLength::Unset,
    );
    assert_eq!(
        unset_all.create_consonant_cluster(),
        Err(ConfigError::ClusterLengthUnsupported)
    );

    let mut unset_no_double = SyllableBuilder::new();
    unset_no_double.with_consonant_cluster_settings(
        ConsonantCluster::NoDouble,
        ConsonantClusterLength::Unset,
    );
    assert_eq!(
        unset_no_double.create_consonant_cluster(),
        Err(ConfigError::ClusterLengthUnsupported)
    );
}

#[test]
fn cluster_length_cccc_reaches_four_symbols() {
    let mut builder = SyllableBuilder::new();
    builder.with_syllable_structure_settings(SyllableStructure::VC);
    builder.with_consonant_cluster_settings(
        ConsonantCluster::All,
        ConsonantClusterLength::CCCC,
    );
    builder.with_vowel_data(strings(&["a"]));
    builder.with_consonant_data(strings(&["p"]));
    builder.create_consonant_cluster().unwrap();
    builder.create_nucleus();
    builder.create_coda_cluster();
    let all = builder.build().all();
    assert_eq!(all, strings(&["a", "ap", "app", "appp", "apppp"]));
}
