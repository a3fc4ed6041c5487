//! Data types shared by the pipeline, and the severity classifier.
//!
//! A free-text severity label is classified into one of four risk levels by
//! substring matching against a fixed keyword set, checked in
//! High -> Medium -> Low order; a label matching no keyword is Unknown.

use vstd::prelude::*;

use crate::text::seq_contains;
use crate::text::str_contains;

verus! {

/// Coarse risk level derived from a free-text severity label.
#[derive(Debug, Clone, Copy, PartialEq, Eq, Structural)]
pub enum RiskLevel {
    High,
    Medium,
    Low,
    Unknown,
}

/// The label matches a "high" keyword.
pub open spec fn is_high_text(s: Seq<char>) -> bool {
    seq_contains(s, "高危"@) || seq_contains(s, "高"@)
}

/// The label matches a "medium" keyword.
pub open spec fn is_medium_text(s: Seq<char>) -> bool {
    seq_contains(s, "中危"@) || seq_contains(s, "中"@)
}

/// The label matches a "low" keyword.
pub open spec fn is_low_text(s: Seq<char>) -> bool {
    seq_contains(s, "低危"@) || seq_contains(s, "低"@)
}

/// Keyword classification with High -> Medium -> Low precedence.
pub open spec fn classify_spec(s: Seq<char>) -> RiskLevel {
    if is_high_text(s) {
        RiskLevel::High
    } else if is_medium_text(s) {
        RiskLevel::Medium
    } else if is_low_text(s) {
        RiskLevel::Low
    } else {
        RiskLevel::Unknown
    }
}

/// Sort priority of a level: lower is more severe; Unknown sorts last.
pub open spec fn priority_spec(level: RiskLevel) -> int {
    match level {
        RiskLevel::High => 1,
        RiskLevel::Medium => 2,
        RiskLevel::Low => 3,
        RiskLevel::Unknown => 999,
    }
}

/// The fixed display annotation of a level.
pub open spec fn text_spec(level: RiskLevel) -> Seq<char> {
    match level {
        RiskLevel::High => "☑ 高危风险  ☐ 中危风险  ☐ 低危风险"@,
        RiskLevel::Medium => "☐ 高危风险  ☑ 中危风险  ☐ 低危风险"@,
        RiskLevel::Low => "☐ 高危风险  ☐ 中危风险  ☑ 低危风险"@,
        RiskLevel::Unknown => "☐ 高危风险  ☐ 中危风险  ☐ 低危风险"@,
    }
}

/// The single-character statistics label of a level.
pub open spec fn label_spec(level: RiskLevel) -> Seq<char> {
    match level {
        RiskLevel::High => "高"@,
        RiskLevel::Medium => "中"@,
        RiskLevel::Low => "低"@,
        RiskLevel::Unknown => "未知"@,
    }
}

impl RiskLevel {
    /// Classify a free-text severity label.
    pub fn from_severity(severity: &str) -> (r: Self)
        ensures
            r == classify_spec(severity@),
    {
        if str_contains(severity, "高危") || str_contains(severity, "高") {
            RiskLevel::High
        } else if str_contains(severity, "中危") || str_contains(severity, "中") {
            RiskLevel::Medium
        } else if str_contains(severity, "低危") || str_contains(severity, "低") {
            RiskLevel::Low
        } else {
            RiskLevel::Unknown
        }
    }

    /// The sort priority of this level.
    pub fn priority(&self) -> (p: i32)
        ensures
            p as int == priority_spec(*self),
    {
        match self {
            RiskLevel::High => 1,
            RiskLevel::Medium => 2,
            RiskLevel::Low => 3,
            RiskLevel::Unknown => 999,
        }
    }

    /// The fixed display annotation of this level.
    pub fn text(&self) -> (t: String)
        ensures
            t@ == text_spec(*self),
    {
        match self {
            RiskLevel::High => "☑ 高危风险  ☐ 中危风险  ☐ 低危风险".to_owned(),
            RiskLevel::Medium => "☐ 高危风险  ☑ 中危风险  ☐ 低危风险".to_owned(),
            RiskLevel::Low => "☐ 高危风险  ☐ 中危风险  ☑ 低危风险".to_owned(),
            RiskLevel::Unknown => "☐ 高危风险  ☐ 中危风险  ☐ 低危风险".to_owned(),
        }
    }

    /// The single-character statistics label of this level.
    pub fn label(&self) -> (t: String)
        ensures
            t@ == label_spec(*self),
    {
        match self {
            RiskLevel::High => "高".to_owned(),
            RiskLevel::Medium => "中".to_owned(),
            RiskLevel::Low => "低".to_owned(),
            RiskLevel::Unknown => "未知".to_owned(),
        }
    }
}

/// A label that matches a "high" keyword classifies as High no matter which
/// other keywords it also matches: the tiers are checked in High -> Medium ->
/// Low order and the first match wins.
pub proof fn lemma_severity_precedence(s: Seq<char>)
    requires
        is_high_text(s),
    ensures
        classify_spec(s) == RiskLevel::High,
{
}

/// Risk information derived from a severity label.
#[derive(Debug, Clone)]
pub struct RiskInfo {
    pub level: RiskLevel,
    pub text: String,
    pub priority: i32,
}

impl RiskInfo {
    /// Classify a severity label and bundle the derived level, display text
    /// and sort priority.
    pub fn from_severity(severity: &str) -> (r: Self)
        ensures
            r.level == classify_spec(severity@),
            r.text@ == text_spec(r.level),
            r.priority as int == priority_spec(r.level),
    {
        let level = RiskLevel::from_severity(severity);
        let text = level.text();
        let priority = level.priority();
        RiskInfo { level, text, priority }
    }
}

/// One record of a processed batch: cell values keyed by position, where
/// position `i` stands for the `i`-th synthetic column name. A cell is `None`
/// when the source cell was empty after trimming.
#[derive(Debug, Clone)]
pub struct ExcelRecord {
    pub data: Vec<Option<String>>,
}

impl View for ExcelRecord {
    type V = Seq<Option<Seq<char>>>;

    open spec fn view(&self) -> Seq<Option<Seq<char>>> {
        self.data.deep_view()
    }
}

impl DeepView for ExcelRecord {
    type V = Seq<Option<Seq<char>>>;

    open spec fn deep_view(&self) -> Seq<Option<Seq<char>>> {
        self.view()
    }
}

/// A group of records sharing one (problem name, severity text) pair.
#[derive(Debug, Clone)]
pub struct GroupInfo {
    /// The problem-name column value of every record of the group.
    pub b_column: String,
    /// The raw severity text of every record of the group.
    pub d_column: String,
    /// Number of records in the group.
    pub record_count: usize,
    /// The records, in their original relative order.
    pub records: Vec<ExcelRecord>,
}

/// The artifact the pipeline hands downstream: groups in final presentation
/// order, keyed by the joined composite key.
#[derive(Debug, Clone)]
pub struct ExcelProcessResult {
    pub total_groups: usize,
    pub total_records: usize,
    pub grouped_data: Vec<(String, GroupInfo)>,
}

/// The record counts of a group list, summed.
pub open spec fn sum_counts(gs: Seq<(String, GroupInfo)>) -> int
    decreases gs.len(),
{
    if gs.len() == 0 {
        0
    } else {
        sum_counts(gs.drop_last()) + gs.last().1.record_count
    }
}

/// Internal consistency of a pipeline result: the group total matches the
/// group list, every group's count matches its records, and the group
/// counts sum to the record total.
pub open spec fn result_wf(r: ExcelProcessResult) -> bool {
    &&& r.total_groups == r.grouped_data@.len()
    &&& sum_counts(r.grouped_data@) == r.total_records
    &&& forall|i: int|
        0 <= i < r.grouped_data@.len() ==> (#[trigger] r.grouped_data@[i]).1.record_count
            == r.grouped_data@[i].1.records@.len()
}

/// One sequence-numbered row of the statistics table.
#[derive(Debug, Clone)]
pub struct StatisticItem {
    pub seq_num: usize,
    pub problem_name: String,
    pub severity_level: String,
    pub problem_count: usize,
}

/// Configuration of one report-generation run.
#[derive(Debug, Clone)]
pub struct ReportConfig {
    pub excel_files: Vec<String>,
    pub template_file: String,
    pub output_dir: String,
    pub identifier_tag: String,
    pub wt_add: i32,
    pub ceshi_time: String,
    pub code_version: String,
    pub ceshi_user: String,
}

/// Severity of one progress-log entry.
#[derive(Debug, Clone)]
pub enum LogLevel {
    Info,
    Warning,
    Error,
    Success,
}

/// One progress-log entry.
#[derive(Debug, Clone)]
pub struct LogMessage {
    pub level: LogLevel,
    pub message: String,
    pub timestamp: String,
}

} // verus!
