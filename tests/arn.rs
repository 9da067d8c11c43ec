use service_quotas::arn::{parse_arn, QuotaError};

#[test]
fn test_parse_arn() {
    let arns = vec![(
        "arn:aws:servicequotas:us-east-1:123456789012:service/quota-1",
        ("us-east-1", "123456789012", "service", "quota-1"),
    )];

    for arn in arns {
        let parsed_arn = match parse_arn(arn.0) {
            Ok(p) => p,
            Err(_) => panic!("identifier did not parse"),
        };

        assert_eq!(parsed_arn.region, (arn.1).0);
        assert_eq!(parsed_arn.account_id, (arn.1).1);
        assert_eq!(parsed_arn.service_code, (arn.1).2);
        assert_eq!(parsed_arn.quota_code, (arn.1).3);
    }
}

#[test]
fn test_parse_arn_errors() {
    let arns = vec![(
        "",
        "arn:aws:servicequotas:us-east-1:123456789012:service",
        "service/quota-1",
    )];

    for arn in arns {
        let parsed_arn = parse_arn(arn.0);

        assert!(parsed_arn.is_err());
    }
}

#[test]
fn parse_rejects_identifier_without_slash() {
    let id = "arn:aws:servicequotas:us-east-1:123456789012:service";
    match parse_arn(id) {
        Err(QuotaError::ArnFormatError(s)) => assert_eq!(s, id),
        Ok(_) => panic!("identifier without a slash parsed"),
    }
}

#[test]
fn parse_rejects_wrong_field_count() {
    assert!(parse_arn("service/quota-1").is_err());
    assert!(parse_arn("arn:aws:servicequotas:us-east-1:123456789012:extra:service/q").is_err());
    assert!(parse_arn("aws:servicequotas:us-east-1:123456789012:service/q").is_err());
}

#[test]
fn parse_splits_on_last_slash() {
    let p = match parse_arn("arn:aws:servicequotas:us-east-1:123456789012:service/lambda/test_quota") {
        Ok(p) => p,
        Err(_) => panic!("identifier did not parse"),
    };
    assert_eq!(p.region, "us-east-1");
    assert_eq!(p.account_id, "123456789012");
    assert_eq!(p.service_code, "service/lambda");
    assert_eq!(p.quota_code, "test_quota");
}

#[test]
fn parse_allows_empty_fields() {
    let p = match parse_arn(":::::/") {
        Ok(p) => p,
        Err(_) => panic!("identifier did not parse"),
    };
    assert_eq!(p.region, "");
    assert_eq!(p.quota_code, "");
}

#[test]
fn parse_error_message_names_identifier() {
    match parse_arn("bad") {
        Err(e) => assert_eq!(e.message(), "ArnFormatError: bad"),
        Ok(_) => panic!("malformed identifier parsed"),
    }
}
