use findings_report::models::RiskLevel;
use findings_report::models::RiskInfo;

#[test]
fn test_risk_level_from_severity() {
    assert_eq!(RiskLevel::from_severity("高危"), RiskLevel::High);
    assert_eq!(RiskLevel::from_severity("中危"), RiskLevel::Medium);
    assert_eq!(RiskLevel::from_severity("低危"), RiskLevel::Low);
    assert_eq!(RiskLevel::from_severity("未知"), RiskLevel::Unknown);
}

#[test]
fn classify_single_keyword_forms() {
    assert_eq!(RiskLevel::from_severity("高"), RiskLevel::High);
    assert_eq!(RiskLevel::from_severity("中"), RiskLevel::Medium);
    assert_eq!(RiskLevel::from_severity("低"), RiskLevel::Low);
    assert_eq!(RiskLevel::from_severity(""), RiskLevel::Unknown);
    assert_eq!(RiskLevel::from_severity("severe"), RiskLevel::Unknown);
}

#[test]
fn classify_keyword_inside_longer_label() {
    assert_eq!(RiskLevel::from_severity("高危漏洞"), RiskLevel::High);
    assert_eq!(RiskLevel::from_severity("中危风险"), RiskLevel::Medium);
    assert_eq!(RiskLevel::from_severity("这是低危问题"), RiskLevel::Low);
    assert_eq!(RiskLevel::from_severity("未知类型"), RiskLevel::Unknown);
}

#[test]
fn classify_precedence_high_beats_low() {
    // A label carrying both a "high" and a "low" keyword classifies High.
    assert_eq!(RiskLevel::from_severity("高危或低危"), RiskLevel::High);
    assert_eq!(RiskLevel::from_severity("低高"), RiskLevel::High);
    // A label carrying "medium" and "low" classifies Medium.
    assert_eq!(RiskLevel::from_severity("中危或低危"), RiskLevel::Medium);
}

#[test]
fn priority_values() {
    assert_eq!(RiskLevel::High.priority(), 1);
    assert_eq!(RiskLevel::Medium.priority(), 2);
    assert_eq!(RiskLevel::Low.priority(), 3);
    assert_eq!(RiskLevel::Unknown.priority(), 999);
}

#[test]
fn display_text_per_level() {
    assert_eq!(RiskLevel::High.text(), "☑ 高危风险  ☐ 中危风险  ☐ 低危风险");
    assert_eq!(RiskLevel::Medium.text(), "☐ 高危风险  ☑ 中危风险  ☐ 低危风险");
    assert_eq!(RiskLevel::Low.text(), "☐ 高危风险  ☐ 中危风险  ☑ 低危风险");
    assert_eq!(RiskLevel::Unknown.text(), "☐ 高危风险  ☐ 中危风险  ☐ 低危风险");
}

#[test]
fn short_labels_per_level() {
    assert_eq!(RiskLevel::High.label(), "高");
    assert_eq!(RiskLevel::Medium.label(), "中");
    assert_eq!(RiskLevel::Low.label(), "低");
    assert_eq!(RiskLevel::Unknown.label(), "未知");
}

#[test]
fn risk_info_bundles_level_text_priority() {
    let info = RiskInfo::from_severity("高危漏洞");
    assert_eq!(info.level, RiskLevel::High);
    assert_eq!(info.priority, 1);
    assert_eq!(info.text, "☑ 高危风险  ☐ 中危风险  ☐ 低危风险");

    let info = RiskInfo::from_severity("说明缺失");
    assert_eq!(info.level, RiskLevel::Unknown);
    assert_eq!(info.priority, 999);
}
