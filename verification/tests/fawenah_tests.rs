use rlunch::fawenah::{
    construct_initial_site, dish_from_item, get_json_url_for_day, get_weekday_name, merge_menus,
    DayMenu, DayMenus, MenuItem, RestaurantLink, Weekday,
};

fn item(name: &str, price: &str) -> MenuItem {
    MenuItem {
        name: String::from(name),
        category: String::new(),
        description: String::new(),
        price: String::from(price),
        tags: Vec::new(),
    }
}

fn menu(day: &str, items: Vec<MenuItem>) -> DayMenu {
    DayMenu { day: String::from(day), items }
}

#[test]
fn add_replaces_by_key() {
    let mut menus = DayMenus::new();
    assert!(menus.add(String::from("A"), menu("monday", vec![item("x", "10")])).is_none());
    let prev = menus.add(String::from("A"), menu("monday", vec![item("y", "20")])).unwrap();
    assert_eq!(prev.items[0].name, "x");
    assert_eq!(menus.menus.len(), 1);
    assert_eq!(menus.menus[0].1.items[0].name, "y");
}

#[test]
fn strip_key_suffix_strips_only_matching_keys() {
    let mut menus = DayMenus::new();
    menus.add(String::from("AlphaScraper"), menu("monday", Vec::new()));
    menus.add(String::from("Beta"), menu("monday", Vec::new()));
    let stripped = menus.strip_key_suffix("Scraper");
    let keys: Vec<&str> = stripped.menus.iter().map(|p| p.0.as_str()).collect();
    assert_eq!(keys, vec!["Alpha", "Beta"]);
}

#[test]
fn strip_key_suffix_collision_resolves_to_later_entry() {
    let mut menus = DayMenus::new();
    menus.add(String::from("AlphaScraper"), menu("monday", vec![item("first", "1")]));
    menus.add(String::from("Alpha"), menu("monday", vec![item("second", "2")]));
    let stripped = menus.strip_key_suffix("Scraper");
    assert_eq!(stripped.menus.len(), 1);
    assert_eq!(stripped.menus[0].0, "Alpha");
    assert_eq!(stripped.menus[0].1.items[0].name, "second");
}

#[test]
fn dish_conversion_carries_the_fields() {
    let it = MenuItem {
        name: String::from("Matjessill"),
        category: String::from("Veckans"),
        description: String::from("med potatis"),
        price: String::from("129.50"),
        tags: vec![String::from("fisk")],
    };
    let d = dish_from_item(it, 42);
    assert_eq!(d.restaurant_id, 42);
    assert_eq!(d.name, "Matjessill");
    assert_eq!(d.comment.as_deref(), Some("Veckans"));
    assert_eq!(d.description.as_deref(), Some("med potatis"));
    assert_eq!(d.tags, vec![String::from("fisk")]);
    assert_eq!(d.price, 12950);
}

#[test]
fn dish_conversion_drops_empty_fields() {
    let d = dish_from_item(item("Soppa", "not a price"), 1);
    assert!(d.comment.is_none());
    assert!(d.description.is_none());
    assert_eq!(d.price, 0);
}

#[test]
fn initial_site_holds_one_restaurant_per_link() {
    let links = vec![
        (
            String::from("Alpha"),
            RestaurantLink { url: String::from("http://a"), map: String::from("http://ma") },
        ),
        (
            String::from("Beta"),
            RestaurantLink { url: String::from("http://b"), map: String::from("http://mb") },
        ),
    ];
    let site = construct_initial_site(9, links);
    assert_eq!(site.site_id, 9);
    assert_eq!(site.restaurants.len(), 2);
    assert_eq!(site.restaurants[0].name, "Alpha");
    assert_eq!(site.restaurants[0].url.as_deref(), Some("http://a"));
    assert_eq!(site.restaurants[0].map_url.as_deref(), Some("http://ma"));
    assert_eq!(site.restaurants[0].site_id, 9);
}

#[test]
fn merge_joins_by_name_and_skips_unmatched() {
    let links = vec![
        (
            String::from("Alpha"),
            RestaurantLink { url: String::from("http://a"), map: String::from("http://ma") },
        ),
        (
            String::from("Beta"),
            RestaurantLink { url: String::from("http://b"), map: String::from("http://mb") },
        ),
    ];
    let mut site = construct_initial_site(9, links);

    let mut menus = DayMenus::new();
    menus.add(
        String::from("Alpha"),
        menu("monday", vec![item("soup", "95"), item("stew", "105")]),
    );
    menus.add(String::from("Nobody"), menu("monday", vec![item("ghost", "1")]));
    merge_menus(&mut site, menus);

    let alpha = &site.restaurants[0];
    assert_eq!(alpha.dishes.len(), 2);
    assert_eq!(alpha.dishes[0].name, "soup");
    assert_eq!(alpha.dishes[0].price, 9500);
    assert_eq!(alpha.dishes[0].restaurant_id, alpha.restaurant_id);
    // Beta had no menu; the unmatched menu entry was skipped
    assert_eq!(site.restaurants[1].dishes.len(), 0);
}

#[test]
fn day_urls() {
    assert_eq!(get_weekday_name(Weekday::Wednesday), "wednesday");
    assert_eq!(
        get_json_url_for_day(Weekday::Monday),
        "https://github.com/Fawenah/lindholmen_lunch/raw/refs/heads/main/data/lunch_data_monday.json"
    );
}
