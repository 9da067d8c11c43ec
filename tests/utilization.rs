use service_quotas::quota::{Quota, Utilization};
use service_quotas::telemetry::{code_storage_utilization, retry_config, utilization_queries};
use service_quotas::quota::ServiceQuotaUtilizationQueryInput;
use service_quotas::utilization::{
    calculate_utilization, lookup_capability, max_utilization, query_window, str_equals, Capability,
    Claim, UtilizationCell,
};

#[test]
fn test_calculate_utilization() {
    assert_eq!(calculate_utilization(100, 100), 100);
    assert_eq!(calculate_utilization(310010479737, 483183820800), 64);
    assert_eq!(calculate_utilization(0, 0), 0);
}

#[test]
fn calculate_utilization_caps_and_guards() {
    assert_eq!(calculate_utilization(300, 100), 100);
    assert_eq!(calculate_utilization(5, 0), 100);
    assert_eq!(calculate_utilization(-5, 10), 0);
    assert_eq!(calculate_utilization(1, 3), 33);
    assert_eq!(calculate_utilization(i64::MAX, i64::MAX), 100);
}

#[test]
fn test_retry_config() {
    let retry_config = retry_config();
    assert_eq!(retry_config.initial_backoff_secs, 2);
    assert!(retry_config.adaptive);
    assert_eq!(retry_config.max_attempts, 5);
}

#[test]
fn cell_computes_once_and_shares_result() {
    let mut cell = UtilizationCell::new();
    assert!(matches!(cell.claim(), Claim::Compute));
    assert!(matches!(cell.claim(), Claim::Wait));
    cell.complete(Some(42));
    assert!(matches!(cell.claim(), Claim::Ready(Some(42))));
    assert!(matches!(cell.claim(), Claim::Ready(Some(42))));
    cell.complete(Some(7));
    assert_eq!(cell.value(), Some(42));
}

#[test]
fn cell_failure_is_settled() {
    let mut cell = UtilizationCell::new();
    assert!(matches!(cell.claim(), Claim::Compute));
    cell.complete(None);
    assert!(matches!(cell.claim(), Claim::Ready(None)));
    cell.complete(Some(9));
    assert_eq!(cell.value(), None);
}

#[test]
fn quota_resolution_is_memoized() {
    let mut q = match Quota::new("arn:aws:servicequotas:us-east-1:1:ec2/L-1216C47A", "Running instances", None) {
        Ok(q) => q,
        Err(_) => panic!("identifier did not parse"),
    };
    assert_eq!(q.utilization(), None);
    assert!(matches!(q.claim_utilization(), Claim::Compute));
    assert!(matches!(q.claim_utilization(), Claim::Wait));
    q.complete_utilization(Some(80));
    assert_eq!(q.utilization(), Some(80));
    assert!(matches!(q.claim_utilization(), Claim::Ready(Some(80))));
}

#[test]
fn max_utilization_over_pages() {
    assert_eq!(max_utilization(&vec![]), None);
    assert_eq!(max_utilization(&vec![vec![], vec![]]), None);
    assert_eq!(max_utilization(&vec![vec![3, 17], vec![], vec![12]]), Some(17));
    assert_eq!(max_utilization(&vec![vec![0]]), Some(0));
    assert_eq!(max_utilization(&vec![vec![250, 40]]), Some(100));
}

#[test]
fn query_window_aligns_to_hour() {
    assert_eq!(query_window(7200), (3600, 7200));
    assert_eq!(query_window(1_700_001_234), (1_699_995_600, 1_699_999_200));
    assert_eq!(query_window(3600), (0, 3600));
}

#[test]
fn capability_table() {
    assert!(matches!(lookup_capability("L-2ACBD22F"), Some(Capability::CodeStorage)));
    assert!(lookup_capability("L-2ACBD22E").is_none());
    assert!(lookup_capability("").is_none());
    assert!(str_equals("abc", "abc"));
    assert!(!str_equals("abc", "abd"));
    assert!(!str_equals("abc", "ab"));
}

#[test]
fn code_storage_needs_both_figures() {
    assert_eq!(code_storage_utilization(Some(310010479737), Some(483183820800)), Some(64));
    assert_eq!(code_storage_utilization(None, Some(10)), None);
    assert_eq!(code_storage_utilization(Some(10), None), None);
}

#[test]
fn telemetry_queries_link_usage_and_percentage() {
    let input = ServiceQuotaUtilizationQueryInput {
        namespace: "AWS/Usage".to_string(),
        metric_name: "ResourceCount".to_string(),
        dimensions: vec![("Type".to_string(), "Resource".to_string())],
        statistic: "Maximum".to_string(),
    };
    let qs = utilization_queries(&input);
    assert_eq!(qs.len(), 2);
    assert_eq!(qs[0].id, "usage_data");
    assert!(!qs[0].return_data);
    assert!(qs[0].expression.is_none());
    let stat = qs[0].metric_stat.as_ref().unwrap();
    assert_eq!(stat.namespace, "AWS/Usage");
    assert_eq!(stat.metric_name, "ResourceCount");
    assert_eq!(stat.stat, "Maximum");
    assert_eq!(stat.period, 60);
    assert_eq!(stat.dimensions, vec![("Type".to_string(), "Resource".to_string())]);
    assert_eq!(qs[1].id, "utilization");
    assert!(qs[1].return_data);
    assert_eq!(
        qs[1].expression.as_deref(),
        Some("(usage_data/SERVICE_QUOTA(usage_data))*100")
    );
}

#[test]
fn dimension_names_must_be_unique() {
    let mut input = ServiceQuotaUtilizationQueryInput {
        namespace: "AWS/Usage".to_string(),
        metric_name: "ResourceCount".to_string(),
        dimensions: vec![
            ("Type".to_string(), "Resource".to_string()),
            ("Service".to_string(), "EC2".to_string()),
        ],
        statistic: "Maximum".to_string(),
    };
    assert!(input.has_unique_dimensions());
    input.dimensions.push(("Type".to_string(), "API".to_string()));
    assert!(!input.has_unique_dimensions());
    input.dimensions.clear();
    assert!(input.has_unique_dimensions());
}
