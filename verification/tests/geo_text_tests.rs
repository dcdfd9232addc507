use shop_directory::geo::{within_range_exec, GeoPoint};
use shop_directory::text::similar_exec;
use shop_directory::watchdog::{watch_db_conn_step, WatchdogStep};

fn nd(x: f64) -> i64 {
    (x * 1e9).round() as i64
}

#[test]
fn a_point_is_within_zero_meters_of_itself() {
    let p = GeoPoint::new(nd(11.0788608), nd(49.4567424));
    assert!(within_range_exec(p, p, 0));
}

#[test]
fn a_hundredth_of_a_degree_of_latitude_is_about_1113_meters() {
    let a = GeoPoint::new(nd(11.0), nd(49.0));
    let b = GeoPoint::new(nd(11.0), nd(49.01));
    assert!(within_range_exec(a, b, 1200));
    assert!(!within_range_exec(a, b, 1000));
    // and symmetrically
    assert!(within_range_exec(b, a, 1200));
    assert!(!within_range_exec(b, a, 1000));
}

#[test]
fn negative_range_holds_nothing() {
    let p = GeoPoint::new(nd(11.0), nd(49.0));
    assert!(!within_range_exec(p, p, -1));
}

#[test]
fn longitude_wraps_the_short_way_around() {
    // Two points on either side of the antimeridian, about 111 km apart.
    let a = GeoPoint::new(nd(179.5), nd(0.0));
    let b = GeoPoint::new(nd(-179.5), nd(0.0));
    assert!(within_range_exec(a, b, 120_000));
    assert!(!within_range_exec(a, b, 100_000));
}

#[test]
fn similar_titles_share_enough_trigrams() {
    // "test" in common, "shop" against "ship": 7 shared of 13 distinct.
    assert!(similar_exec(b"Test Shop", b"Test ship"));
    // Case-insensitive and word-order-insensitive.
    assert!(similar_exec(b"Test Shop", b"SHOP TEST"));
}

#[test]
fn dissimilar_titles_do_not_match() {
    assert!(!similar_exec(b"Test Shop", b"xy"));
    assert!(!similar_exec(b"Bakery", b"Hardware Store"));
}

#[test]
fn similarity_threshold_is_strict() {
    // Identical single words share every trigram: well above the bar.
    assert!(similar_exec(b"shop", b"shop"));
    // Disjoint trigram sets share nothing: never above the bar.
    assert!(!similar_exec(b"abc", b"xyz"));
}

#[test]
fn watchdog_decides_each_turn() {
    assert_eq!(watch_db_conn_step(true, 100, 50), WatchdogStep::Connected);
    assert_eq!(watch_db_conn_step(false, 49, 50), WatchdogStep::Retry);
    assert_eq!(watch_db_conn_step(false, 50, 50), WatchdogStep::Retry);
    assert_eq!(watch_db_conn_step(false, 51, 50), WatchdogStep::Abort);
}
