use shop_directory::rest::InsertShopReq;
use shop_directory::validate::{
    normalize_url_stage, validate_shop, ValidationError, ValidationStep,
};

fn req(url: Option<&str>, donation_url: Option<&str>) -> InsertShopReq {
    InsertShopReq {
        title: "title".to_owned(),
        url: url.map(|s| s.to_owned()),
        donation_url: donation_url.map(|s| s.to_owned()),
        lon_nd: 0,
        lat_nd: 0,
    }
}

#[test]
fn test_normalize_url() {
    let result = normalize_url_stage(&"http://www.interface-ag.de".to_owned());
    assert_eq!(result.unwrap(), "www.interface-ag.de".to_owned());
}

#[test]
fn test_invalid_normalize_url() {
    // The host parses but does not resolve: the lookup outcome decides.
    let shop = req(Some("http://www.lol"), None);
    let step = validate_shop(&shop, &vec![false]);
    assert!(matches!(
        step,
        ValidationStep::Rejected { reason: ValidationError::Unresolvable }
    ));
}

#[test]
fn test_invalid_shop() {
    let step = validate_shop(&req(None, None), &vec![]);
    assert!(matches!(
        step,
        ValidationStep::Rejected { reason: ValidationError::MissingUrl }
    ));
}

#[test]
fn test_valid_url_shop() {
    let shop = req(Some("http://www.interface-ag.de"), None);
    let step = validate_shop(&shop, &vec![]);
    match step {
        ValidationStep::Lookup { host } => assert_eq!(host, "www.interface-ag.de".to_owned()),
        _ => panic!("expected a lookup request"),
    }
    let step = validate_shop(&shop, &vec![true]);
    assert!(matches!(step, ValidationStep::Accepted));
}

#[test]
fn test_valid_donate_url_shop() {
    let shop = req(None, Some("http://www.interface-ag.de"));
    let step = validate_shop(&shop, &vec![]);
    match step {
        ValidationStep::Lookup { host } => assert_eq!(host, "www.interface-ag.de".to_owned()),
        _ => panic!("expected a lookup request"),
    }
    let step = validate_shop(&shop, &vec![true]);
    assert!(matches!(step, ValidationStep::Accepted));
}

#[test]
fn unparseable_url_is_rejected_before_any_lookup() {
    let shop = req(Some("not a url at all"), None);
    let step = validate_shop(&shop, &vec![]);
    assert!(matches!(
        step,
        ValidationStep::Rejected { reason: ValidationError::Unparseable }
    ));
}

#[test]
fn hostless_url_is_rejected_before_any_lookup() {
    // A mailto URL parses, can be no base, reports no host.
    let shop = req(Some("mailto:someone@interface-ag.de"), None);
    let step = validate_shop(&shop, &vec![]);
    assert!(matches!(
        step,
        ValidationStep::Rejected { reason: ValidationError::Unparseable }
    ));
}

#[test]
fn both_urls_need_two_lookups() {
    let shop = req(
        Some("http://www.interface-ag.de"),
        Some("http://www.if-lab.de"),
    );
    let step = validate_shop(&shop, &vec![]);
    match step {
        ValidationStep::Lookup { host } => assert_eq!(host, "www.interface-ag.de".to_owned()),
        _ => panic!("expected the first lookup request"),
    }
    let step = validate_shop(&shop, &vec![true]);
    match step {
        ValidationStep::Lookup { host } => assert_eq!(host, "www.if-lab.de".to_owned()),
        _ => panic!("expected the second lookup request"),
    }
    let step = validate_shop(&shop, &vec![true, true]);
    assert!(matches!(step, ValidationStep::Accepted));
    let step = validate_shop(&shop, &vec![true, false]);
    assert!(matches!(
        step,
        ValidationStep::Rejected { reason: ValidationError::Unresolvable }
    ));
}

#[test]
fn rejection_messages_match_the_service_wording() {
    assert_eq!(
        ValidationError::MissingUrl.message(),
        "Failed inserting shop - no urls".to_owned()
    );
    assert_eq!(ValidationError::Unparseable.message(), "Nicht lesbar!".to_owned());
    assert_eq!(ValidationError::NotABase.message(), "Keine BASE URL".to_owned());
    assert_eq!(
        ValidationError::Unresolvable.message(),
        "Unregistierte URL!".to_owned()
    );
}
