//! Writing an inventory to the delimited format and reading it back
//! yields the same strings, one field per row, in the same order.

use syllabary::ConsonantCluster;
use syllabary::ConsonantClusterLength;
use syllabary::SyllableBuilder;
use syllabary::SyllableStructure;

fn write_rows(rows: &[String]) -> Vec<u8> {
    let mut writer = csv::Writer::from_writer(Vec::new());
    for row in rows {
        writer.write_record([row.as_str()]).unwrap();
    }
    writer.flush().unwrap();
    writer.into_inner().unwrap()
}

fn read_rows(bytes: &[u8]) -> Vec<String> {
    let mut reader = csv::ReaderBuilder::new().has_headers(false).from_reader(bytes);
    let mut rows = Vec::new();
    for record in reader.records() {
        let record = record.unwrap();
        assert_eq!(record.len(), 1);
        rows.push(record[0].to_string());
    }
    rows
}

#[test]
fn delimited_round_trip_preserves_rows_and_order() {
    let mut builder = SyllableBuilder::new();
    builder.with_syllable_structure_settings(SyllableStructure::CVC);
    builder.with_consonant_cluster_settings(ConsonantCluster::All, ConsonantClusterLength::CC);
    builder.with_vowel_data(vec!["a".to_string(), "i".to_string()]);
    builder.with_consonant_data(vec!["p".to_string(), "t".to_string()]);
    builder.create_diphthongs().unwrap();
    builder.create_glides();
    builder.create_consonant_cluster().unwrap();
    builder.create_nucleus();
    builder.create_init_cluster();
    builder.create_coda_cluster();
    let rows = builder.build().all();
    assert!(rows.len() > 0);

    let bytes = write_rows(&rows);
    let reread = read_rows(&bytes);
    assert_eq!(reread.len(), rows.len());
    assert_eq!(reread, rows);
}

#[test]
fn delimited_round_trip_of_plain_rows() {
    let rows = vec!["pa".to_string(), "ti".to_string(), "kwa".to_string()];
    let bytes = write_rows(&rows);
    assert_eq!(read_rows(&bytes), rows);
}
