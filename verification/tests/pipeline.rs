use findings_report::merge::RawExcelData;
use findings_report::models::ExcelRecord;
use findings_report::processor::ExcelProcessor;
use findings_report::record::build_key;
use findings_report::record::split_group_key;
use findings_report::stats::generate_statistics;
use findings_report::stats::merge_excel_results;
use findings_report::text::str_contains;
use findings_report::text::trim_str;

fn row(cells: &[&str]) -> Vec<String> {
    cells.iter().map(|c| c.to_string()).collect()
}

fn table(headers: &[&str], rows: &[&[&str]]) -> RawExcelData {
    RawExcelData {
        headers: row(headers),
        rows: rows.iter().map(|r| row(r)).collect(),
    }
}

fn record(cells: &[Option<&str>]) -> ExcelRecord {
    ExcelRecord {
        data: cells.iter().map(|c| c.map(|s| s.to_string())).collect(),
    }
}

#[test]
fn duplicate_rows_across_sources_collapse_to_one_group() {
    // Two sources with identical headers and one identical row each: the
    // merge yields two raw rows, the deduplicator (keyed on all four
    // columns, since fewer than seven exist) keeps one record, and one
    // group remains.
    let s1 = table(&["A", "B", "C", "D"], &[&["x", "P1", "", "High"]]);
    let s2 = table(&["A", "B", "C", "D"], &[&["x", "P1", "", "High"]]);
    let merged = ExcelProcessor::merge_excel_files(&vec![s1, s2]).unwrap();
    assert_eq!(merged.rows.len(), 2);

    let result = ExcelProcessor::process_raw_data(merged);
    assert_eq!(result.total_records, 1);
    assert_eq!(result.total_groups, 1);
    let (key, group) = &result.grouped_data[0];
    assert_eq!(key, "P1|High");
    assert_eq!(group.b_column, "P1");
    assert_eq!(group.d_column, "High");
    assert_eq!(group.record_count, 1);
    assert_eq!(group.records.len(), 1);
}

#[test]
fn groups_are_ordered_by_severity_priority() {
    // Groups sized 5, 5 and 1 with High, Medium and Unknown severity text:
    // High first, Medium second, Unknown last.
    let mut rows: Vec<Vec<String>> = Vec::new();
    for i in 0..5 {
        rows.push(row(&[&format!("a{}", i), "p1", "", "高危漏洞"]));
    }
    for i in 0..5 {
        rows.push(row(&[&format!("b{}", i), "p2", "", "中危风险"]));
    }
    rows.push(row(&["c0", "p3", "", "未知类型"]));
    let raw = RawExcelData { headers: row(&["A", "B", "C", "D"]), rows };

    let result = ExcelProcessor::process_raw_data(raw);
    assert_eq!(result.total_records, 11);
    assert_eq!(result.total_groups, 3);
    assert_eq!(result.grouped_data[0].1.b_column, "p1");
    assert_eq!(result.grouped_data[0].1.record_count, 5);
    assert_eq!(result.grouped_data[1].1.b_column, "p2");
    assert_eq!(result.grouped_data[1].1.record_count, 5);
    assert_eq!(result.grouped_data[2].1.b_column, "p3");
    assert_eq!(result.grouped_data[2].1.record_count, 1);
}

#[test]
fn bigger_groups_come_first_within_one_priority() {
    let mut rows: Vec<Vec<String>> = Vec::new();
    rows.push(row(&["a1", "small", "", "高危"]));
    for i in 0..3 {
        rows.push(row(&[&format!("b{}", i), "big", "", "高危"]));
    }
    let raw = RawExcelData { headers: row(&["A", "B", "C", "D"]), rows };
    let result = ExcelProcessor::process_raw_data(raw);
    assert_eq!(result.total_groups, 2);
    assert_eq!(result.grouped_data[0].1.b_column, "big");
    assert_eq!(result.grouped_data[0].1.record_count, 3);
    assert_eq!(result.grouped_data[1].1.b_column, "small");
    assert_eq!(result.grouped_data[1].1.record_count, 1);
}

#[test]
fn equal_priority_and_size_keep_first_seen_order() {
    let rows = vec![
        row(&["a1", "first", "", "低危"]),
        row(&["a2", "second", "", "低危"]),
        row(&["a3", "third", "", "低危"]),
    ];
    let raw = RawExcelData { headers: row(&["A", "B", "C", "D"]), rows };
    let result = ExcelProcessor::process_raw_data(raw);
    assert_eq!(result.total_groups, 3);
    assert_eq!(result.grouped_data[0].1.b_column, "first");
    assert_eq!(result.grouped_data[1].1.b_column, "second");
    assert_eq!(result.grouped_data[2].1.b_column, "third");
}

#[test]
fn rerunning_the_pipeline_gives_an_identical_group_sequence() {
    let rows = vec![
        row(&["a1", "p1", "", "中危"]),
        row(&["a2", "p2", "", "高危"]),
        row(&["a3", "p1", "", "中危"]),
    ];
    let raw1 = RawExcelData { headers: row(&["A", "B", "C", "D"]), rows: rows.clone() };
    let raw2 = RawExcelData { headers: row(&["A", "B", "C", "D"]), rows };
    let r1 = ExcelProcessor::process_raw_data(raw1);
    let r2 = ExcelProcessor::process_raw_data(raw2);
    assert_eq!(r1.total_records, r2.total_records);
    assert_eq!(r1.total_groups, r2.total_groups);
    let keys1: Vec<&String> = r1.grouped_data.iter().map(|g| &g.0).collect();
    let keys2: Vec<&String> = r2.grouped_data.iter().map(|g| &g.0).collect();
    assert_eq!(keys1, keys2);
}

#[test]
fn group_counts_sum_to_total_records() {
    let rows = vec![
        row(&["a1", "p1", "", "高危"]),
        row(&["a2", "p2", "", "低危"]),
        row(&["a3", "p1", "", "高危"]),
        row(&["a4", "p3", "", "不明"]),
    ];
    let raw = RawExcelData { headers: row(&["A", "B", "C", "D"]), rows };
    let result = ExcelProcessor::process_raw_data(raw);
    let sum: usize = result.grouped_data.iter().map(|g| g.1.record_count).sum();
    assert_eq!(sum, result.total_records);
    assert_eq!(result.grouped_data.len(), result.total_groups);
}

#[test]
fn deduplication_is_idempotent_on_its_own_output() {
    let records = vec![
        record(&[Some("x"), Some("1")]),
        record(&[Some("x"), Some("1")]),
        record(&[Some("y"), None]),
        record(&[Some("x"), Some("2")]),
        record(&[Some("y"), None]),
    ];
    let once = ExcelProcessor::deduplicate_records(&records, 7);
    let twice = ExcelProcessor::deduplicate_records(&once, 7);
    assert_eq!(once.len(), 3);
    assert_eq!(twice.len(), once.len());
    for (a, b) in once.iter().zip(twice.iter()) {
        assert_eq!(a.data, b.data);
    }
}

#[test]
fn dedup_keeps_first_occurrence_in_order() {
    let records = vec![
        record(&[Some("k1"), Some("first")]),
        record(&[Some("k2"), Some("second")]),
        record(&[Some("k1"), Some("first")]),
    ];
    // Key over the first column only: the third record repeats k1 and the
    // second k1 record with a different later column is still a duplicate.
    let kept = ExcelProcessor::deduplicate_records(&records, 1);
    assert_eq!(kept.len(), 2);
    assert_eq!(kept[0].data[0], Some("k1".to_string()));
    assert_eq!(kept[1].data[0], Some("k2".to_string()));
}

#[test]
fn dedup_key_treats_absent_cells_as_empty() {
    let r1 = record(&[Some("a"), None, Some("b")]);
    let r2 = record(&[Some("a"), Some(""), Some("b")]);
    assert_eq!(build_key(&r1, 3), "a||b");
    assert_eq!(build_key(&r2, 3), "a||b");
    assert_eq!(build_key(&r1, 0), "");
    // Columns beyond the record's length read as empty.
    assert_eq!(build_key(&r1, 5), "a||b||");
}

#[test]
fn normalization_trims_cells_and_marks_empties_absent() {
    let rows = vec![row(&[" x ", "", "  ", "v"]), row(&["1", "2"])];
    let records = ExcelProcessor::normalize_rows(&rows, 4);
    assert_eq!(records.len(), 2);
    assert_eq!(records[0].data.len(), 4);
    assert_eq!(records[0].data[0], Some("x".to_string()));
    assert_eq!(records[0].data[1], None);
    assert_eq!(records[0].data[2], None);
    assert_eq!(records[0].data[3], Some("v".to_string()));
    // A short row keeps only the cells it has.
    assert_eq!(records[1].data.len(), 2);
}

#[test]
fn column_count_comes_from_the_first_row() {
    // The second row is longer than the first: its extra cells are cut.
    let raw = RawExcelData {
        headers: row(&["A", "B", "C", "D"]),
        rows: vec![row(&["a1", "p1", "", "高危"]), row(&["a2", "p2", "", "高危", "extra"])],
    };
    let result = ExcelProcessor::process_raw_data(raw);
    assert_eq!(result.total_records, 2);
    for (_, g) in &result.grouped_data {
        for r in &g.records {
            assert!(r.data.len() <= 4);
        }
    }
}

#[test]
fn split_group_key_takes_first_two_parts() {
    assert_eq!(split_group_key("a|b"), ("a".to_string(), "b".to_string()));
    assert_eq!(split_group_key("a|b|c"), ("a".to_string(), "b".to_string()));
    assert_eq!(split_group_key("abc"), ("abc".to_string(), "".to_string()));
    assert_eq!(split_group_key("|"), ("".to_string(), "".to_string()));
    assert_eq!(split_group_key(""), ("".to_string(), "".to_string()));
}

#[test]
fn statistics_rows_are_sequence_numbered_in_final_order() {
    let rows = vec![
        row(&["a1", "p1", "", "低危"]),
        row(&["a2", "p2", "", "高危"]),
        row(&["a3", "p3", "", "中危"]),
        row(&["a4", "p4", "", "其他"]),
    ];
    let raw = RawExcelData { headers: row(&["A", "B", "C", "D"]), rows };
    let result = ExcelProcessor::process_raw_data(raw);
    let stats = generate_statistics(&result);
    assert_eq!(stats.len(), 4);
    assert_eq!(stats[0].seq_num, 1);
    assert_eq!(stats[0].problem_name, "p2");
    assert_eq!(stats[0].severity_level, "高");
    assert_eq!(stats[0].problem_count, 1);
    assert_eq!(stats[1].severity_level, "中");
    assert_eq!(stats[2].severity_level, "低");
    assert_eq!(stats[3].seq_num, 4);
    assert_eq!(stats[3].severity_level, "未知");
}

#[test]
fn merging_results_adds_totals_and_concatenates_groups() {
    let raw1 = RawExcelData {
        headers: row(&["A", "B", "C", "D"]),
        rows: vec![row(&["a1", "p1", "", "高危"])],
    };
    let raw2 = RawExcelData {
        headers: row(&["A", "B", "C", "D"]),
        rows: vec![row(&["b1", "q1", "", "低危"]), row(&["b2", "q2", "", "低危"])],
    };
    let r1 = ExcelProcessor::process_raw_data(raw1);
    let r2 = ExcelProcessor::process_raw_data(raw2);
    let merged = merge_excel_results(vec![r1, r2]);
    assert_eq!(merged.total_records, 3);
    assert_eq!(merged.total_groups, 3);
    assert_eq!(merged.grouped_data.len(), 3);
    assert_eq!(merged.grouped_data[0].1.b_column, "p1");
    let sum: usize = merged.grouped_data.iter().map(|g| g.1.record_count).sum();
    assert_eq!(sum, merged.total_records);
}

#[test]
fn text_helpers_trim_and_search() {
    assert_eq!(trim_str("  hello  "), "hello");
    assert_eq!(trim_str("\t\r\nx\u{3000}"), "x");
    assert_eq!(trim_str("   "), "");
    assert_eq!(trim_str(""), "");
    assert!(str_contains("高危漏洞", "高危"));
    assert!(str_contains("abc", ""));
    assert!(!str_contains("ab", "abc"));
    assert!(!str_contains("中危", "高"));
}
