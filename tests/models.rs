use history_core::models::{DailyStats, ProjectStatsSummary, TokenDistribution};

#[test]
fn test_daily_stats_default() {
    let stats = DailyStats::default();
    assert_eq!(stats.date, "");
    assert_eq!(stats.total_tokens, 0);
    assert_eq!(stats.message_count, 0);
}

#[test]
fn test_project_stats_summary_default() {
    let summary = ProjectStatsSummary::default();
    assert_eq!(summary.project_name, "");
    assert_eq!(summary.total_sessions, 0);
    assert_eq!(summary.total_tokens, 0);
}

#[test]
fn test_token_distribution_default() {
    let dist = TokenDistribution::default();
    assert_eq!(dist.input, 0);
    assert_eq!(dist.output, 0);
    assert_eq!(dist.cache_creation, 0);
    assert_eq!(dist.cache_read, 0);
}
