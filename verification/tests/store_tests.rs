use shop_directory::geo::GeoPoint;
use shop_directory::store::{
    get_shops_in_range, insert_new_shop, search_shops_in_range, update_shop, DBError, NewShop,
    ShopStore,
};

fn nd(x: f64) -> i64 {
    (x * 1e9).round() as i64
}

#[test]
fn models_test_insert_shop() {
    let mut store = ShopStore::new();
    let shop = NewShop {
        title: "Models Test Shop".to_owned(),
        url: Some("http://www.interface-ag.de".to_owned()),
        donation_url: None,
        location: GeoPoint::new(nd(04.0788608), nd(49.456742399999)),
    };

    let result = insert_new_shop(&mut store, &shop);
    assert_eq!(true, result.is_ok());
}

#[test]
fn models_test_update_shop() {
    let mut store = ShopStore::new();
    let mut shop = NewShop {
        title: "Test Shop".to_owned(),
        url: Some("http://www.interface-ag.de".to_owned()),
        donation_url: None,
        location: GeoPoint::new(nd(11.0788608), nd(49.456742399999996)),
    };
    let _ = insert_new_shop(&mut store, &shop);

    shop.url = Some("http://www.if-lab.de".to_owned());
    let result = update_shop(&mut store, shop).unwrap();
    assert_eq!(result.url.unwrap(), "http://www.if-lab.de".to_owned());
}

#[test]
fn models_test_get_shops() {
    let store = ShopStore::new();
    let result = get_shops_in_range(
        &store,
        GeoPoint::new(nd(11.0788608), nd(49.456742399999996)),
        10000,
    );
    assert_eq!(true, result.is_ok());
}

#[test]
fn search_get_shops() {
    let mut store = ShopStore::new();
    let shop = NewShop {
        title: "Test Shop".to_owned(),
        url: Some("http://www.interface-ag.de".to_owned()),
        donation_url: None,
        location: GeoPoint::new(nd(11.0788608), nd(29.456742399996)),
    };
    let _ = insert_new_shop(&mut store, &shop);

    let result = search_shops_in_range(
        &store,
        &"Test ship".to_owned(),
        GeoPoint::new(nd(12.0788608), nd(59.456742399999996)),
        10000,
    );
    assert_eq!(true, result.is_ok());
}

#[test]
fn insert_returns_submitted_coordinates_exactly() {
    let mut store = ShopStore::new();
    let lon = nd(11.0788608);
    let lat = nd(49.456742399999996);
    let shop = NewShop {
        title: "Exact".to_owned(),
        url: Some("http://www.interface-ag.de".to_owned()),
        donation_url: None,
        location: GeoPoint::new(lon, lat),
    };
    let created = insert_new_shop(&mut store, &shop).unwrap();
    assert_eq!(created.location.lon_nd, lon);
    assert_eq!(created.location.lat_nd, lat);
    assert_eq!(created.title, "Exact".to_owned());
}

#[test]
fn insert_empty_title_is_constraint_violation() {
    let mut store = ShopStore::new();
    let shop = NewShop {
        title: String::new(),
        url: Some("http://www.interface-ag.de".to_owned()),
        donation_url: None,
        location: GeoPoint::new(0, 0),
    };
    let result = insert_new_shop(&mut store, &shop);
    assert_eq!(result.unwrap_err(), DBError::ConstraintViolation);
    assert_eq!(store.len(), 0);
}

#[test]
fn insert_out_of_bounds_point_is_constraint_violation() {
    let mut store = ShopStore::new();
    let shop = NewShop {
        title: "Nowhere".to_owned(),
        url: Some("http://www.interface-ag.de".to_owned()),
        donation_url: None,
        location: GeoPoint::new(nd(200.0), nd(0.0)),
    };
    let result = insert_new_shop(&mut store, &shop);
    assert_eq!(result.unwrap_err(), DBError::ConstraintViolation);
}

#[test]
fn get_shops_bad_center_is_error() {
    let store = ShopStore::new();
    let result = get_shops_in_range(&store, GeoPoint::new(nd(0.0), nd(95.0)), 100);
    assert_eq!(result.unwrap_err(), DBError::BadCoordinates);
}

#[test]
fn update_non_matching_key_is_not_found() {
    let mut store = ShopStore::new();
    let shop = NewShop {
        title: "Here".to_owned(),
        url: Some("http://www.interface-ag.de".to_owned()),
        donation_url: None,
        location: GeoPoint::new(nd(11.0), nd(49.0)),
    };
    let _ = insert_new_shop(&mut store, &shop).unwrap();

    let off_key = NewShop {
        title: "Here".to_owned(),
        url: Some("http://www.if-lab.de".to_owned()),
        donation_url: None,
        location: GeoPoint::new(nd(11.0), nd(49.000000001)),
    };
    let result = update_shop(&mut store, off_key);
    assert_eq!(result.unwrap_err(), DBError::NotFound);

    let wrong_title = NewShop {
        title: "There".to_owned(),
        url: Some("http://www.if-lab.de".to_owned()),
        donation_url: None,
        location: GeoPoint::new(nd(11.0), nd(49.0)),
    };
    let result = update_shop(&mut store, wrong_title);
    assert_eq!(result.unwrap_err(), DBError::NotFound);
}

#[test]
fn update_drops_submitted_donation_url() {
    let mut store = ShopStore::new();
    let shop = NewShop {
        title: "Quirk".to_owned(),
        url: Some("http://www.interface-ag.de".to_owned()),
        donation_url: Some("http://donate.interface-ag.de".to_owned()),
        location: GeoPoint::new(nd(11.0), nd(49.0)),
    };
    let _ = insert_new_shop(&mut store, &shop).unwrap();

    let change = NewShop {
        title: "Quirk".to_owned(),
        url: Some("http://www.if-lab.de".to_owned()),
        donation_url: Some("http://donate.if-lab.de".to_owned()),
        location: GeoPoint::new(nd(11.0), nd(49.0)),
    };
    let updated = update_shop(&mut store, change).unwrap();
    assert_eq!(updated.url, Some("http://www.if-lab.de".to_owned()));
    assert_eq!(
        updated.donation_url,
        Some("http://donate.interface-ag.de".to_owned())
    );
}

#[test]
fn range_query_boundary_is_inclusive_at_zero() {
    let mut store = ShopStore::new();
    let p = GeoPoint::new(nd(11.0788608), nd(49.4567424));
    let shop = NewShop {
        title: "Here".to_owned(),
        url: Some("http://www.interface-ag.de".to_owned()),
        donation_url: None,
        location: p,
    };
    let _ = insert_new_shop(&mut store, &shop).unwrap();
    let found = get_shops_in_range(&store, p, 0).unwrap();
    assert_eq!(found.len(), 1);
    assert_eq!(found[0].title, "Here".to_owned());
}

#[test]
fn search_caps_at_five_and_sorts_descending() {
    let mut store = ShopStore::new();
    let p = GeoPoint::new(nd(11.0), nd(49.0));
    let titles = [
        "Test Shop A",
        "Test Shop B",
        "Test Shop C",
        "Test Shop D",
        "Test Shop E",
        "Test Shop F",
        "Test Shop G",
    ];
    for t in titles.iter() {
        let shop = NewShop {
            title: (*t).to_owned(),
            url: Some("http://www.interface-ag.de".to_owned()),
            donation_url: None,
            location: p,
        };
        let _ = insert_new_shop(&mut store, &shop).unwrap();
    }
    let result = search_shops_in_range(&store, &"Test Shop".to_owned(), p, 1000).unwrap();
    assert_eq!(result.len(), 5);
    for w in result.windows(2) {
        assert!(w[0].title >= w[1].title);
    }
    assert_eq!(result[0].title, "Test Shop G".to_owned());
    assert_eq!(result[4].title, "Test Shop C".to_owned());
}

#[test]
fn search_excludes_out_of_range_rows() {
    let mut store = ShopStore::new();
    let near = GeoPoint::new(nd(11.0), nd(49.0));
    let far = GeoPoint::new(nd(11.0), nd(50.0));
    for (t, p) in [("Test Near", near), ("Test Far", far)] {
        let shop = NewShop {
            title: t.to_owned(),
            url: Some("http://www.interface-ag.de".to_owned()),
            donation_url: None,
            location: p,
        };
        let _ = insert_new_shop(&mut store, &shop).unwrap();
    }
    let result = search_shops_in_range(&store, &"Test".to_owned(), near, 10000).unwrap();
    assert_eq!(result.len(), 1);
    assert_eq!(result[0].title, "Test Near".to_owned());
}
