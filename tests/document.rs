use calamine::{Reader, Xlsx};
use rust_xlsxwriter::Workbook;
use tempfile::NamedTempFile;
use tracseq_rc::{
    detect_file_type, locate_header, process_document, ClassifierConfig, CorrelationRecord,
    FileType, ProcessError,
};

fn row(cells: &[&str]) -> Vec<String> {
    cells.iter().map(|c| c.to_string()).collect()
}

fn sheet_rows(path: &std::path::Path) -> Vec<Vec<String>> {
    let mut book: Xlsx<_> = calamine::open_workbook(path).unwrap();
    let range = book.worksheet_range_at(0).unwrap().unwrap();
    range.rows().map(|r| r.iter().map(|c| c.to_string()).collect()).collect()
}

#[test]
fn end_to_end_rows_and_records() {
    let rows = vec![
        row(&["Id", "IndexNtSequence", "Other"]),
        row(&["1", "Prefix-ATGC", "Test1"]),
        row(&["2", "GCAT", "Test2"]),
    ];
    let doc = process_document(rows, None, &ClassifierConfig::standard()).unwrap();
    assert_eq!(doc.header_index, 0);
    assert_eq!(doc.identifier_column, Some(0));
    assert_eq!(
        doc.rows,
        vec![
            row(&["Id", "IndexNtSequence", "Other"]),
            row(&["1", "Prefix-GCAT", "Test1"]),
            row(&["2", "ATGC", "Test2"]),
        ]
    );
    assert_eq!(
        doc.records,
        vec![
            CorrelationRecord {
                identifier: "1".to_string(),
                new_value: "Prefix-GCAT".to_string(),
                column_name: "IndexNtSequence".to_string(),
            },
            CorrelationRecord {
                identifier: "2".to_string(),
                new_value: "ATGC".to_string(),
                column_name: "IndexNtSequence".to_string(),
            },
        ]
    );
}

#[test]
fn empty_document_is_an_error() {
    let r = process_document(vec![], None, &ClassifierConfig::standard());
    assert_eq!(r.err(), Some(ProcessError::EmptyDocument));
    let r = process_document(vec![], Some("Sample ID"), &ClassifierConfig::standard());
    assert_eq!(r.err(), Some(ProcessError::EmptyDocument));
}

#[test]
fn unmatched_label_is_header_not_found() {
    let rows = vec![row(&["Header"]), row(&["Sample Name", "x"])];
    let r = process_document(rows, Some("Sample ID"), &ClassifierConfig::standard());
    assert_eq!(r.err(), Some(ProcessError::HeaderNotFound));
}

#[test]
fn header_found_by_trimmed_label() {
    let rows = vec![
        row(&["[Header]"]),
        row(&[]),
        row(&["  Sample ID ", "Index"]),
        row(&["S1", "L-AAC"]),
    ];
    assert_eq!(locate_header(&rows, Some("Sample ID")), Ok(2));
    assert_eq!(locate_header(&rows, None), Ok(0));
    let doc = process_document(rows, Some("Sample ID"), &ClassifierConfig::standard()).unwrap();
    assert_eq!(doc.header_index, 2);
    assert_eq!(doc.rows, vec![row(&["  Sample ID ", "Index"]), row(&["S1", "L-GTT"])]);
    assert!(doc.records.is_empty());
}

#[test]
fn file_types_by_extension() {
    assert_eq!(detect_file_type(Some("xlsx")), Ok(FileType::Excel));
    assert_eq!(detect_file_type(Some("xls")), Ok(FileType::Excel));
    assert_eq!(detect_file_type(Some("csv")), Ok(FileType::Csv));
    assert_eq!(detect_file_type(Some("txt")), Err(ProcessError::UnsupportedFileType));
    assert_eq!(detect_file_type(None), Err(ProcessError::UnsupportedFileType));
}

#[test]
fn integration_tests_test_excel_processing() {
    let mut workbook = Workbook::new();
    let sheet = workbook.add_worksheet();
    sheet.write_string(0, 0, "Id").unwrap();
    sheet.write_string(0, 1, "IndexNtSequence").unwrap();
    sheet.write_string(0, 2, "OtherColumn").unwrap();
    sheet.write_string(1, 0, "1").unwrap();
    sheet.write_string(1, 1, "Prefix-ATGC").unwrap();
    sheet.write_string(1, 2, "Test1").unwrap();
    sheet.write_string(2, 0, "2").unwrap();
    sheet.write_string(2, 1, "GCAT").unwrap();
    sheet.write_string(2, 2, "Test2").unwrap();
    let temp_file = NamedTempFile::new().unwrap();
    workbook.save(temp_file.path()).unwrap();

    let rows = sheet_rows(temp_file.path());
    let doc = process_document(rows, None, &ClassifierConfig::standard()).unwrap();

    let mut output_workbook = Workbook::new();
    let output_sheet = output_workbook.add_worksheet();
    for (r, cells) in doc.rows.iter().enumerate() {
        for (c, cell) in cells.iter().enumerate() {
            output_sheet.write_string(r as u32, c as u16, cell.as_str()).unwrap();
        }
    }
    let output_temp = NamedTempFile::new().unwrap();
    output_workbook.save(output_temp.path()).unwrap();

    let out = sheet_rows(output_temp.path());
    let row1 = &out[1];
    assert_eq!(row1[0], "1");
    assert_eq!(row1[1], "Prefix-GCAT");
    assert_eq!(row1[2], "Test1");
    let row2 = &out[2];
    assert_eq!(row2[0], "2");
    assert_eq!(row2[1], "ATGC");
    assert_eq!(row2[2], "Test2");
}

#[test]
fn main_test_excel_processing() {
    let mut workbook = Workbook::new();
    let sheet = workbook.add_worksheet();
    let cells = [
        ["Id", "IndexNtSequence", "OtherColumn"],
        ["1", "Prefix-ATGC", "Test1"],
        ["2", "GCAT", "Test2"],
    ];
    for (r, cs) in cells.iter().enumerate() {
        for (c, v) in cs.iter().enumerate() {
            sheet.write_string(r as u32, c as u16, *v).unwrap();
        }
    }
    let temp_file = NamedTempFile::new().unwrap();
    workbook.save(temp_file.path()).unwrap();

    let doc = process_document(sheet_rows(temp_file.path()), None, &ClassifierConfig::standard())
        .unwrap();
    assert_eq!(doc.rows[1], row(&["1", "Prefix-GCAT", "Test1"]));
    assert_eq!(doc.rows[2], row(&["2", "ATGC", "Test2"]));
}
