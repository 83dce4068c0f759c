use rlunch::db::{get_restaurant_ids, update_restaurants, SiteKey, SiteKeyLevel, SiteRelation,
    SiteStore};
use rlunch::models::Restaurant;
use rlunch::scrape::SiteScrapeResult;

#[test]
fn site_key_levels() {
    assert_eq!(SiteKey::new("se", "gbg", "lh").level(), SiteKeyLevel::Site);
    assert_eq!(SiteKey::new("se", "gbg", "").level(), SiteKeyLevel::City);
    assert_eq!(SiteKey::new("se", "", "").level(), SiteKeyLevel::Country);
    assert_eq!(SiteKey::new("", "", "").level(), SiteKeyLevel::Empty);
    // a gap above the deepest component shortens the key's reach
    assert_eq!(SiteKey::new("", "gbg", "lh").level(), SiteKeyLevel::Empty);
    assert_eq!(SiteKey::new("se", "", "lh").level(), SiteKeyLevel::Country);
}

#[test]
fn relation_emptiness() {
    let empty = SiteRelation { country_id: 0, city_id: 0, site_id: 0 };
    assert!(empty.empty());
    let partial = SiteRelation { country_id: 1, city_id: 0, site_id: 0 };
    assert!(!partial.empty());
}

#[test]
fn restaurant_ids_in_order() {
    let a = Restaurant::new_for_site("A", 1).with_id(11);
    let b = Restaurant::new_for_site("B", 1).with_id(22);
    let ids = get_restaurant_ids(&vec![a, b]);
    assert_eq!(ids, vec![11, 22]);
}

fn named(site_id: u128, name: &str, marker: u128) -> Restaurant {
    Restaurant::new_for_site(name, site_id).with_id(marker)
}

#[test]
fn apply_replaces_by_site_and_name() {
    let mut store = SiteStore::new();
    store.restaurants.push(named(1, "A", 100)); // stale scrape of A
    store.restaurants.push(named(1, "C", 101)); // untouched sibling
    store.restaurants.push(named(2, "A", 102)); // same name, other site

    let update = SiteScrapeResult {
        site_id: 1,
        restaurants: vec![named(1, "A", 200), named(1, "B", 201)],
    };
    update_restaurants(&mut store, update);

    let ids: Vec<u128> = store.restaurants.iter().map(|r| r.restaurant_id).collect();
    // the stale A is gone, the sibling and the other site's A survive, the
    // fresh rows sit at the end in result order
    assert_eq!(ids, vec![101, 102, 200, 201]);
}

#[test]
fn apply_twice_equals_apply_once() {
    // applying the same result twice in a row leaves the stored set exactly
    // as one application does
    let mut once = SiteStore::new();
    once.restaurants.push(named(1, "A", 100));
    let mut twice = SiteStore::new();
    twice.restaurants.push(named(1, "A", 100));

    let update = SiteScrapeResult {
        site_id: 1,
        restaurants: vec![named(1, "A", 200), named(1, "B", 201)],
    };
    update_restaurants(&mut once, update.clone());
    update_restaurants(&mut twice, update.clone());
    update_restaurants(&mut twice, update);
    assert_eq!(once, twice);
}

#[test]
fn apply_empty_result_changes_nothing() {
    let mut store = SiteStore::new();
    store.restaurants.push(named(1, "A", 100));
    update_restaurants(&mut store, SiteScrapeResult { site_id: 1, restaurants: Vec::new() });
    assert_eq!(store.restaurants.len(), 1);
}
