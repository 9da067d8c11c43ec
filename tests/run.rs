use service_quotas::alert::{
    check_response, decimal, dedup_key, notify_body, plan_notifications, service_quota_url, summary,
    trigger_action, AlertSettings, ClientError, EventAction,
};
use service_quotas::breach::{evaluate, is_breached, is_ignored_code};
use service_quotas::config::{ignored_quotas, regions, threshold, Config};
use service_quotas::fanout::{aggregate, utilization, EnumerationError, UnitOutcome, PERMITS_PER_REGION};
use service_quotas::quota::{build_quotas, Quota, QuotaRecord, Resolution, ServiceQuotaUtilizationQueryInput};
use service_quotas::report::{count_failures, run_report};

fn quota(arn: &str, name: &str) -> Quota {
    match Quota::new(arn, name, None) {
        Ok(q) => q,
        Err(_) => panic!("identifier did not parse"),
    }
}

fn resolved(arn: &str, name: &str, u: Option<u8>) -> Quota {
    let mut q = quota(arn, name);
    q.claim_utilization();
    q.complete_utilization(u);
    q
}

fn record(arn: &str, name: &str) -> QuotaRecord {
    QuotaRecord { arn: arn.to_string(), name: name.to_string(), usage_metric: None }
}

fn settings(ignored: Option<Vec<String>>) -> AlertSettings {
    AlertSettings {
        routing_key: "SECRET-REDACTED".to_string(),
        threshold: 75,
        ignored_quotas: ignored,
        source: "service-quotas".to_string(),
    }
}

#[test]
fn test_region_default() {
    let regions = regions(None);
    assert_eq!(regions, vec!["us-east-1".to_string()]);
}

#[test]
fn test_threshold_default() {
    let threshold = threshold(None);
    assert_eq!(threshold, 75);
}

#[test]
fn test_ignored_quotas_default() {
    let ignored_quotas = ignored_quotas(None);
    assert_eq!(ignored_quotas, Vec::<String>::new());
}

#[test]
fn test_region_override() {
    let regions = regions(Some(vec![
        "us-east-1".to_string(),
        "us-east-2".to_string(),
        "us-west-1".to_string(),
        "us-west-2".to_string(),
    ]));
    assert_eq!(
        regions,
        vec![
            "us-east-1".to_string(),
            "us-east-2".to_string(),
            "us-west-1".to_string(),
            "us-west-2".to_string()
        ]
    );
}

#[test]
fn test_threshold_override() {
    let threshold = threshold(Some(50));
    assert_eq!(threshold, 50);
}

#[test]
fn test_ignored_quotas_override() {
    let ignored_quotas = ignored_quotas(Some(vec!["test1".to_string()]));
    assert_eq!(ignored_quotas, vec!["test1".to_string()]);
}

#[test]
fn config_keeps_given_values() {
    let c = Config::new(
        Some(50),
        Some(vec!["us-east-2".to_string(), "us-west-1".to_string()]),
        Some(vec!["test1".to_string()]),
    );
    assert_eq!(c.threshold(), 50);
    assert_eq!(c.regions(), &vec!["us-east-2".to_string(), "us-west-1".to_string()]);
    assert_eq!(c.ignored_quotas(), &vec!["test1".to_string()]);
    let repeated = regions(Some(vec![
        "us-west-2".to_string(),
        "eu-west-1".to_string(),
        "us-west-2".to_string(),
    ]));
    assert_eq!(repeated, vec!["us-west-2".to_string(), "eu-west-1".to_string()]);
    let d = Config::new(None, Some(vec![]), None);
    assert_eq!(d.threshold(), 75);
    assert_eq!(d.regions(), &vec!["us-east-1".to_string()]);
    assert!(d.ignored_quotas().is_empty());
}

#[test]
fn breach_example() {
    let q = resolved("arn:aws:servicequotas:us-east-1:1:ec2/L-1216C47A", "Running instances", Some(80));
    assert!(is_breached(&q, 75, &vec![]));
    assert!(!is_breached(&q, 75, &vec!["L-1216C47A".to_string()]));
    assert!(is_breached(&q, 75, &vec!["L-OTHER".to_string()]));
    assert!(!is_breached(&q, 80, &vec![]));
    assert!(is_breached(&q, 79, &vec![]));
    let unresolved = quota("arn:aws:servicequotas:us-east-1:1:ec2/L-1216C47A", "Running instances");
    assert!(!is_breached(&unresolved, 0, &vec![]));
    let failed = resolved("arn:aws:servicequotas:us-east-1:1:ec2/L-1", "x", None);
    assert!(!is_breached(&failed, 0, &vec![]));
    assert!(is_ignored_code(&vec!["a".to_string(), "b".to_string()], "b"));
    assert!(!is_ignored_code(&vec![], "b"));
}

#[test]
fn evaluate_reports_breached_and_unresolved() {
    let qs = vec![
        resolved("arn:aws:servicequotas:us-east-1:1:ec2/L-A", "a", Some(90)),
        quota("arn:aws:servicequotas:us-east-1:1:ec2/L-B", "b"),
        resolved("arn:aws:servicequotas:us-east-1:1:ec2/L-C", "c", Some(10)),
        resolved("arn:aws:servicequotas:us-east-1:1:ec2/L-D", "d", Some(100)),
        resolved("arn:aws:servicequotas:us-east-1:1:ec2/L-E", "e", None),
    ];
    let ev = evaluate(&qs, 75, &vec!["L-D".to_string()]);
    assert_eq!(ev.breached, vec![0]);
    assert_eq!(ev.unresolved, vec![1, 4]);
}

#[test]
fn build_quotas_skips_malformed_records() {
    let metric = ServiceQuotaUtilizationQueryInput {
        namespace: "AWS/Usage".to_string(),
        metric_name: "ResourceCount".to_string(),
        dimensions: vec![],
        statistic: "Maximum".to_string(),
    };
    let records = vec![
        QuotaRecord {
            arn: "arn:aws:servicequotas:us-east-1:1:ec2/L-1216C47A".to_string(),
            name: "Running instances".to_string(),
            usage_metric: Some(metric),
        },
        record("not-an-identifier", "bad"),
        record("arn:aws:servicequotas:us-east-1:1:lambda/L-2ACBD22F", "Code storage"),
        record("arn:aws:servicequotas:us-east-1:1:lambda/L-XXXX", "Other"),
    ];
    let listing = build_quotas(records);
    assert_eq!(listing.quotas.len(), 3);
    assert_eq!(listing.errors.len(), 1);
    assert_eq!(listing.errors[0].message(), "ArnFormatError: not-an-identifier");
    assert!(matches!(listing.quotas[0].resolution(), Resolution::Telemetry(_)));
    assert!(matches!(listing.quotas[1].resolution(), Resolution::Specific(_)));
    assert!(matches!(listing.quotas[2].resolution(), Resolution::Unsupported));
    assert_eq!(listing.quotas[1].service_code(), "lambda");
    assert_eq!(listing.quotas[1].name(), "Code storage");
    assert_eq!(listing.quotas[1].arn(), "arn:aws:servicequotas:us-east-1:1:lambda/L-2ACBD22F");
}

#[test]
fn one_failed_unit_is_isolated() {
    let outs: Vec<UnitOutcome> = vec![
        Ok(build_quotas(vec![record("arn:aws:servicequotas:us-east-1:1:ec2/L-A", "a")])),
        Err(EnumerationError {
            region: "us-east-1".to_string(),
            service_code: "s3".to_string(),
            message: "throttled".to_string(),
        }),
        Ok(build_quotas(vec![
            record("arn:aws:servicequotas:us-east-1:1:vpc/L-B", "b"),
            record("arn:aws:servicequotas:us-east-1:1:vpc/L-C", "c"),
        ])),
    ];
    let catalog = aggregate(outs);
    assert_eq!(catalog.quotas.len(), 3);
    assert_eq!(catalog.quotas[0].quota_code(), "L-A");
    assert_eq!(catalog.quotas[1].quota_code(), "L-B");
    assert_eq!(catalog.quotas[2].quota_code(), "L-C");
    assert_eq!(catalog.enumeration_failures.len(), 1);
    assert_eq!(catalog.enumeration_failures[0].service_code, "s3");
    assert!(catalog.identifier_errors.is_empty());
    assert_eq!(PERMITS_PER_REGION, 3);
}

#[test]
fn dedup_key_is_stable_and_distinguishing() {
    let q = quota("arn:aws:servicequotas:us-east-1:1:ec2/L-1216C47A", "Running instances");
    assert_eq!(dedup_key(&q), "L-1216C47A-us-east-1-1");
    assert_eq!(dedup_key(&q), dedup_key(&q));
    let other_region = quota("arn:aws:servicequotas:us-west-2:1:ec2/L-1216C47A", "Running instances");
    let other_account = quota("arn:aws:servicequotas:us-east-1:2:ec2/L-1216C47A", "Running instances");
    let other_code = quota("arn:aws:servicequotas:us-east-1:1:ec2/L-1216C47B", "Running instances");
    assert_ne!(dedup_key(&q), dedup_key(&other_region));
    assert_ne!(dedup_key(&q), dedup_key(&other_account));
    assert_ne!(dedup_key(&q), dedup_key(&other_code));
    // fields that themselves hold separators
    let split_early = quota("arn:aws:servicequotas:1216C47A-us-east-1:1:ec2/L", "Running instances");
    assert_ne!(dedup_key(&q), dedup_key(&split_early));
    assert_eq!(dedup_key(&split_early), r"\L-1216C47A\-us\-east\-1-1");
    let slashes = quota(r"arn:aws:servicequotas:a\:1:ec2/b", "x");
    assert_eq!(dedup_key(&slashes), r"\b-a\\-1");
    // a code with two dashes, or an account with one, is marked too
    let two_dashes = quota("arn:aws:servicequotas:us-east-1:1:ec2/L-A-B", "x");
    assert_eq!(dedup_key(&two_dashes), r"\L\-A\-B-us\-east\-1-1");
    let dashed_account = quota("arn:aws:servicequotas:us-east-1:1-2:ec2/L-A", "x");
    assert_eq!(dedup_key(&dashed_account), r"\L\-A-us\-east\-1-1\-2");
}

#[test]
fn trigger_action_by_threshold() {
    assert!(matches!(trigger_action(Some(75), 75), EventAction::Trigger));
    assert!(matches!(trigger_action(Some(74), 75), EventAction::Resolve));
    assert!(matches!(trigger_action(None, 0), EventAction::Resolve));
    assert_eq!(EventAction::Trigger.name(), "trigger");
    assert_eq!(EventAction::Resolve.name(), "resolve");
}

#[test]
fn text_of_an_event() {
    assert_eq!(decimal(0), "0");
    assert_eq!(decimal(7), "7");
    assert_eq!(decimal(64), "64");
    assert_eq!(decimal(100), "100");
    assert_eq!(decimal(255), "255");
    let q = quota("arn:aws:servicequotas:us-east-1:123456789012:ec2/L-85EED4F7", "Instances");
    assert_eq!(
        service_quota_url(&q),
        "https://us-east-1.console.aws.amazon.com/servicequotas/home/services/ec2/quotas/L-85EED4F7"
    );
    assert_eq!(
        summary(&q, 80),
        "Service Quota Utilization 80%: L-85EED4F7 - Instances in 123456789012 - us-east-1"
    );
}

#[test]
fn notify_body_for_breached_quota() {
    let q = resolved("arn:aws:servicequotas:us-east-1:1:ec2/L-1216C47A", "Running instances", Some(80));
    let b = notify_body(&q, &settings(None)).unwrap();
    assert_eq!(b.routing_key, "SECRET-REDACTED");
    assert_eq!(b.event_action, "trigger");
    assert_eq!(b.dedup_key, "L-1216C47A-us-east-1-1");
    assert_eq!(b.payload.severity, "warning");
    assert_eq!(b.payload.source, "service-quotas");
    assert_eq!(b.payload.custom_details.utilization_percentage, 80);
    assert_eq!(b.payload.custom_details.threshold, 75);
    assert_eq!(b.payload.custom_details.service, "ec2");
    assert!(notify_body(&q, &settings(Some(vec!["L-1216C47A".to_string()]))).is_none());
    let unresolved = quota("arn:aws:servicequotas:us-east-1:1:ec2/L-1216C47A", "x");
    assert!(notify_body(&unresolved, &settings(None)).is_none());
}

#[test]
fn repeated_dispatch_keeps_dedup_key() {
    let qs = vec![
        resolved("arn:aws:servicequotas:us-east-1:1:ec2/L-1216C47A", "Running instances", Some(80)),
        quota("arn:aws:servicequotas:us-east-1:1:ec2/L-2", "unresolved"),
    ];
    let bodies = plan_notifications(&qs, &vec![0, 1, 0], &settings(None));
    assert_eq!(bodies.len(), 2);
    assert_eq!(bodies[0].dedup_key, bodies[1].dedup_key);
    assert_eq!(bodies[0].dedup_key, "L-1216C47A-us-east-1-1");
}

#[test]
fn sink_responses_and_report() {
    assert!(check_response(202, String::new()).is_ok());
    match check_response(400, "bad request".to_string()) {
        Err(ClientError::PagerdutyApiError(code, body)) => {
            assert_eq!(code, 400);
            assert_eq!(body, "bad request");
        }
        _ => panic!("a rejected event was not reported"),
    }
    let deliveries = vec![
        Ok(()),
        Err(ClientError::RequestError("timeout".to_string())),
        check_response(500, "oops".to_string()),
    ];
    assert_eq!(count_failures(&deliveries), 2);
    let catalog = aggregate(vec![Ok(build_quotas(vec![
        record("arn:aws:servicequotas:us-east-1:1:ec2/L-A", "a"),
        record("broken", "b"),
    ]))]);
    let ev = evaluate(&catalog.quotas, 75, &vec![]);
    let report = run_report(&catalog, ev, &deliveries);
    assert_eq!(report.breached, Vec::<usize>::new());
    assert_eq!(report.unresolved, vec![0]);
    assert_eq!(report.enumeration_failures, 0);
    assert_eq!(report.identifier_errors, 1);
    assert_eq!(report.notification_failures, 2);
}

fn listing_of(quotas: Vec<Quota>) -> UnitOutcome {
    let mut listing = build_quotas(vec![]);
    listing.quotas = quotas;
    Ok(listing)
}

#[test]
fn run_with_one_failed_unit_keeps_other_breaches() {
    let outs: Vec<UnitOutcome> = vec![
        listing_of(vec![
            resolved("arn:aws:servicequotas:us-east-1:1:ec2/L-A", "a", Some(90)),
            resolved("arn:aws:servicequotas:us-east-1:1:ec2/L-B", "b", Some(10)),
        ]),
        Err(EnumerationError {
            region: "us-east-1".to_string(),
            service_code: "s3".to_string(),
            message: "throttled".to_string(),
        }),
        listing_of(vec![resolved("arn:aws:servicequotas:us-east-1:1:vpc/L-C", "c", Some(80))]),
    ];
    let run = utilization(outs, 75, &vec![]);
    assert_eq!(run.catalog.quotas.len(), 3);
    assert_eq!(run.catalog.enumeration_failures.len(), 1);
    assert_eq!(run.evaluation.breached, vec![0, 2]);
    assert_eq!(run.catalog.quotas[2].quota_code(), "L-C");
    assert!(run.evaluation.unresolved.is_empty());
}
