use findings_report::merge::RawExcelData;
use findings_report::merge::ValidationError;
use findings_report::processor::ExcelProcessor;

fn row(cells: &[&str]) -> Vec<String> {
    cells.iter().map(|c| c.to_string()).collect()
}

fn table(headers: &[&str], rows: &[&[&str]]) -> RawExcelData {
    RawExcelData {
        headers: row(headers),
        rows: rows.iter().map(|r| row(r)).collect(),
    }
}

#[test]
fn merge_empty_source_list_is_rejected_before_anything_else() {
    // No sources provided: the validation error comes before any read.
    let sources: Vec<RawExcelData> = Vec::new();
    let r = ExcelProcessor::merge_excel_files(&sources);
    assert!(matches!(r, Err(ValidationError::NoSources)));
}

#[test]
fn merge_header_value_mismatch_names_column_and_values() {
    let s1 = table(&["A", "B"], &[&["1", "2"]]);
    let s2 = table(&["A", "X"], &[&["3", "4"]]);
    let r = ExcelProcessor::merge_excel_files(&vec![s1, s2]);
    match r {
        Err(ValidationError::HeaderValueMismatch { source, column, expected, found }) => {
            assert_eq!(source, 1);
            assert_eq!(column, 2);
            assert_eq!(expected, "B");
            assert_eq!(found, "X");
        }
        _ => panic!("expected a header value mismatch"),
    }
}

#[test]
fn merge_header_count_mismatch() {
    let s1 = table(&["A", "B", "C"], &[&["1", "2", "3"]]);
    let s2 = table(&["A", "B"], &[&["4", "5"]]);
    let r = ExcelProcessor::merge_excel_files(&vec![s1, s2]);
    match r {
        Err(ValidationError::HeaderCountMismatch { source, expected, found }) => {
            assert_eq!(source, 1);
            assert_eq!(expected, 3);
            assert_eq!(found, 2);
        }
        _ => panic!("expected a header count mismatch"),
    }
}

#[test]
fn merge_source_without_data_rows_is_rejected() {
    let s1 = table(&["A", "B"], &[&["1", "2"]]);
    let s2 = table(&["A", "B"], &[]);
    let r = ExcelProcessor::merge_excel_files(&vec![s1, s2]);
    match r {
        Err(ValidationError::EmptySource { source }) => assert_eq!(source, 1),
        _ => panic!("expected an empty-source error"),
    }
}

#[test]
fn merge_concatenates_rows_in_source_order_under_first_headers() {
    let s1 = table(&["A", "B"], &[&["1", "2"], &["3", "4"]]);
    let s2 = table(&["A", "B"], &[&["5", "6"]]);
    let merged = ExcelProcessor::merge_excel_files(&vec![s1, s2]).unwrap();
    assert_eq!(merged.headers, row(&["A", "B"]));
    assert_eq!(
        merged.rows,
        vec![row(&["1", "2"]), row(&["3", "4"]), row(&["5", "6"])]
    );
}

#[test]
fn merge_compares_headers_after_trimming() {
    let s1 = table(&[" A", "B "], &[&["1", "2"]]);
    let s2 = table(&["A ", " B"], &[&["3", "4"]]);
    let merged = ExcelProcessor::merge_excel_files(&vec![s1, s2]).unwrap();
    // The first source's headers are kept untrimmed as the reference.
    assert_eq!(merged.headers, row(&[" A", "B "]));
    assert_eq!(merged.rows.len(), 2);
}

#[test]
fn merge_validation_is_associative_over_the_source_list() {
    // Merging [a, b, c] fails exactly when merging [a, b] fails or c's own
    // validation against a's header fails.
    let a = table(&["A", "B"], &[&["1", "2"]]);
    let b = table(&["A", "B"], &[&["3", "4"]]);
    let c_good = table(&["A", "B"], &[&["5", "6"]]);
    let c_bad = table(&["A", "X"], &[&["5", "6"]]);

    assert!(ExcelProcessor::merge_excel_files(&vec![a.clone(), b.clone()]).is_ok());
    assert!(
        ExcelProcessor::merge_excel_files(&vec![a.clone(), b.clone(), c_good.clone()]).is_ok()
    );
    // [a, b] merges, but c_bad fails against a's header, so the triple fails.
    assert!(ExcelProcessor::merge_excel_files(&vec![a.clone(), b.clone(), c_bad.clone()]).is_err());
    // [a, c_bad] already fails, so appending anything still fails.
    assert!(ExcelProcessor::merge_excel_files(&vec![a.clone(), c_bad.clone()]).is_err());
    assert!(ExcelProcessor::merge_excel_files(&vec![a, c_bad, c_good]).is_err());
}

#[test]
fn merge_validation_checks_sources_in_order() {
    // The second source's emptiness is reported before the third source's
    // header mismatch.
    let s1 = table(&["A"], &[&["1"]]);
    let s2 = table(&["A"], &[]);
    let s3 = table(&["Z"], &[&["2"]]);
    let r = ExcelProcessor::merge_excel_files(&vec![s1, s2, s3]);
    match r {
        Err(ValidationError::EmptySource { source }) => assert_eq!(source, 1),
        _ => panic!("expected an empty-source error"),
    }
}
