use shop_directory::rest::{
    get_shops, healthy, insert_shop, update_shop, GetShopsParams, InsertShopReq,
};
use shop_directory::store::ShopStore;
use shop_directory::validate::{validate_shop, ValidationStep};

fn nd(x: f64) -> i64 {
    (x * 1e9).round() as i64
}

fn request(title: &str, url: &str, lon: f64, lat: f64) -> InsertShopReq {
    InsertShopReq {
        title: title.to_owned(),
        url: Some(url.to_owned()),
        donation_url: None,
        lon_nd: nd(lon),
        lat_nd: nd(lat),
    }
}

/// Runs the validation loop as the server would, resolving every host
/// successfully.
fn validated_resolving(req: &InsertShopReq) -> ValidationStep {
    let mut outcomes: Vec<bool> = Vec::new();
    loop {
        match validate_shop(req, &outcomes) {
            ValidationStep::Lookup { host: _ } => outcomes.push(true),
            done => return done,
        }
    }
}

#[test]
fn test_healthy() {
    let resp = healthy();
    assert_eq!(true, resp.healthy);
}

#[test]
fn rest_test_insert_shop() {
    let mut store = ShopStore::new();
    let json = request("title", "http://interface-ag.de", 11.0788608, 49.456);
    let validation = validated_resolving(&json);
    let resp = insert_shop(&mut store, &json, &validation);
    let dto = resp.unwrap();
    assert_eq!(dto.title, "title".to_owned());
}

#[test]
fn rest_test_update_shop() {
    let mut store = ShopStore::new();
    let mut json = request("title", "http://interface-ag.de", 11.0788608, 49.456742399999996);
    let validation = validated_resolving(&json);
    let _ = insert_shop(&mut store, &json, &validation).unwrap();

    json.url = Some("http://if-lab.de".to_owned());
    let validation = validated_resolving(&json);
    let resp = update_shop(&mut store, &json, &validation);
    let shop = resp.unwrap();
    assert_eq!(shop.url, json.url);
}

#[test]
fn rest_test_get_shops() {
    let store = ShopStore::new();
    let params = GetShopsParams {
        lon_nd: nd(11.0788608),
        lat_nd: nd(49.456742399999996),
        range: 1000,
        q: None,
    };
    let resp = get_shops(&store, &params);
    assert!(resp.is_ok());
}

#[test]
fn short_query_yields_empty_list() {
    let mut store = ShopStore::new();
    let json = request("Anything", "http://interface-ag.de", 11.0, 49.0);
    let validation = validated_resolving(&json);
    let _ = insert_shop(&mut store, &json, &validation).unwrap();

    let params = GetShopsParams {
        lon_nd: nd(11.0),
        lat_nd: nd(49.0),
        range: 1000,
        q: Some("a".to_owned()),
    };
    let resp = get_shops(&store, &params).unwrap();
    assert!(resp.items.is_empty());
}

#[test]
fn unresolvable_insert_is_rejected_and_creates_no_row() {
    let mut store = ShopStore::new();
    let json = request("title", "http://www.lol", 11.0, 49.0);
    let validation = validate_shop(&json, &vec![false]);
    let resp = insert_shop(&mut store, &json, &validation);
    let err = resp.unwrap_err();
    assert_eq!(err.msg, "Unregistierte URL!".to_owned());
    assert_eq!(store.len(), 0);
}

#[test]
fn missing_urls_insert_is_rejected() {
    let mut store = ShopStore::new();
    let json = InsertShopReq {
        title: "title".to_owned(),
        url: None,
        donation_url: None,
        lon_nd: 0,
        lat_nd: 0,
    };
    let validation = validate_shop(&json, &vec![]);
    let resp = insert_shop(&mut store, &json, &validation);
    assert_eq!(resp.unwrap_err().msg, "Failed inserting shop - no urls".to_owned());
    assert_eq!(store.len(), 0);
}

#[test]
fn end_to_end_insert_get_update_search() {
    let mut store = ShopStore::new();

    let json = request("T", "http://example.org", 11.08, 49.46);
    let validation = validated_resolving(&json);
    let created = insert_shop(&mut store, &json, &validation).unwrap();
    assert_eq!(created.lon_nd, nd(11.08));
    assert_eq!(created.lat_nd, nd(49.46));

    let params = GetShopsParams {
        lon_nd: nd(11.08),
        lat_nd: nd(49.46),
        range: 1000,
        q: None,
    };
    let resp = get_shops(&store, &params).unwrap();
    assert!(resp.items.iter().any(|s| s.title == "T"));

    let mut put = request("T", "http://if-lab.de", 11.08, 49.46);
    put.url = Some("http://if-lab.de".to_owned());
    let validation = validated_resolving(&put);
    let updated = update_shop(&mut store, &put, &validation).unwrap();
    assert_eq!(updated.url, Some("http://if-lab.de".to_owned()));

    let similar = request("Ta", "http://example.org", 11.08, 49.46);
    let validation = validated_resolving(&similar);
    let _ = insert_shop(&mut store, &similar, &validation).unwrap();

    let short = GetShopsParams {
        lon_nd: nd(11.08),
        lat_nd: nd(49.46),
        range: 1000,
        q: Some("t".to_owned()),
    };
    let resp = get_shops(&store, &short).unwrap();
    assert!(resp.items.len() <= 5);
    for w in resp.items.windows(2) {
        assert!(w[0].title >= w[1].title);
    }
}
