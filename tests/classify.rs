use tracseq_rc::{classify_columns, find_identifier_column, ClassifierConfig, ColumnDescriptor};

fn row(cells: &[&str]) -> Vec<String> {
    cells.iter().map(|c| c.to_string()).collect()
}

fn desc(position: usize, name: &str, delimiter: bool) -> ColumnDescriptor {
    ColumnDescriptor { position, name: name.to_string(), delimiter }
}

#[test]
fn canonical_name_selects_its_column() {
    let header = row(&["Id", "IndexNtSequence", "Other"]);
    let data = vec![row(&["1", "AATTCCGG", "GGCCAATT"])];
    let found = classify_columns(&header, &data, &ClassifierConfig::standard());
    assert_eq!(found, vec![desc(1, "IndexNtSequence", true)]);
}

#[test]
fn canonical_names_in_priority_order() {
    let header = row(&["Index", "x", "Index 2", "IndexNtSequence2", "IndexNtSequence"]);
    let found = classify_columns(&header, &vec![], &ClassifierConfig::standard());
    assert_eq!(
        found,
        vec![
            desc(4, "IndexNtSequence", true),
            desc(3, "IndexNtSequence2", false),
            desc(2, "Index 2", false),
            desc(0, "Index", true),
        ]
    );
}

#[test]
fn heuristic_finds_plain_sequence_in_column_three() {
    let header = row(&["A", "B", "C", "D"]);
    let data = vec![row(&["1", "x", "y", "AATTCCGG"])];
    let found = classify_columns(&header, &data, &ClassifierConfig::standard());
    assert_eq!(found, vec![desc(3, "D", false)]);
}

#[test]
fn heuristic_finds_delimited_sequence() {
    let header = row(&["Sample", "Barcode"]);
    let data = vec![row(&["s1", "P7-ATGX"]), row(&["s2", "P7-ATGCA"])];
    // "ATGX" is 75% nucleotides; "ATGCA" is all of them.
    let found = classify_columns(&header, &data, &ClassifierConfig::standard());
    assert_eq!(found, vec![desc(1, "Barcode", true)]);
}

#[test]
fn heuristic_delimited_at_exactly_eighty_percent() {
    let header = row(&["Barcode"]);
    let data = vec![row(&["L-ATGCX"])];
    let found = classify_columns(&header, &data, &ClassifierConfig::standard());
    assert_eq!(found, vec![desc(0, "Barcode", true)]);
}

#[test]
fn heuristic_rejects_two_dashes_and_short_values() {
    let header = row(&["a", "b", "c"]);
    let data = vec![row(&["x-ATGC-ATGC", "ATGCA", "L-ATG"])];
    let found = classify_columns(&header, &data, &ClassifierConfig::standard());
    assert!(found.is_empty());
}

#[test]
fn heuristic_first_sampled_row_decides() {
    let header = row(&["a"]);
    let data = vec![row(&["AATTCCGG"]), row(&["L-ATGC"])];
    let found = classify_columns(&header, &data, &ClassifierConfig::standard());
    assert_eq!(found, vec![desc(0, "a", false)]);
}

#[test]
fn heuristic_names_empty_header_synthetically() {
    let header = row(&["x", "", "", ""]);
    let data = vec![row(&["1", "2", "3", "AATTCCGG"])];
    let found = classify_columns(&header, &data, &ClassifierConfig::standard());
    assert_eq!(found, vec![desc(3, "Column_4", false)]);
}

#[test]
fn heuristic_samples_only_the_first_rows() {
    let header = row(&["a"]);
    let mut data: Vec<Vec<String>> = (0..10).map(|_| row(&["x"])).collect();
    data.push(row(&["AATTCCGG"]));
    let found = classify_columns(&header, &data, &ClassifierConfig::standard());
    assert!(found.is_empty());
    let wider = ClassifierConfig { sample_size: 11, ..ClassifierConfig::standard() };
    assert_eq!(classify_columns(&header, &data, &wider), vec![desc(0, "a", false)]);
}

#[test]
fn heuristic_skips_short_rows() {
    let header = row(&["a", "b"]);
    let data = vec![row(&["1"]), row(&["2", "GATTACAN"])];
    let found = classify_columns(&header, &data, &ClassifierConfig::standard());
    assert_eq!(found, vec![desc(1, "b", false)]);
}

#[test]
fn no_sequence_columns_is_empty() {
    let header = row(&["Id", "Name"]);
    let data = vec![row(&["1", "Alice"])];
    assert!(classify_columns(&header, &data, &ClassifierConfig::standard()).is_empty());
}

#[test]
fn identifier_column_by_name() {
    assert_eq!(find_identifier_column(&row(&["x", "Sample ID", "Id"])), Some(1));
    assert_eq!(find_identifier_column(&row(&["x", "Id"])), Some(1));
    assert_eq!(find_identifier_column(&row(&["x", "id"])), None);
}
