use rlunch::models::{
    attach_cities, attach_restaurants, attach_sites, City, Country, Dish, LunchData, Restaurant,
    Site,
};

#[test]
fn dish_display() {
    let mut d = Dish::new("meat");
    d.description = Some(String::from("balls"));
    assert_eq!("meat balls", d.display_string());
}

#[test]
fn dish_display_without_description() {
    let d = Dish::new("meat");
    assert_eq!("meat", d.display_string());
}

#[test]
fn restaurant_add_replaces_by_dish_id() {
    let mut r = Restaurant::new("Pasta House");
    let d1 = Dish::new("soup");
    let id = d1.dish_id;
    assert!(r.add(d1).is_none());
    let mut d2 = Dish::new("stew");
    d2.dish_id = id;
    let prev = r.add(d2).unwrap();
    assert_eq!(prev.name, "soup");
    assert_eq!(r.dishes.len(), 1);
    assert_eq!(r.dishes[0].name, "stew");
}

#[test]
fn builders_compose() {
    let site_id = 5;
    let r = Restaurant::new_for_site("Pasta House", site_id)
        .with_dish(Dish::new("soup"))
        .with_id(77);
    assert_eq!(r.restaurant_id, 77);
    assert_eq!(r.site_id, site_id);
    assert_eq!(r.dishes.len(), 1);

    let s = Site::new_for_city("SomeSite", 3).with_restaurant(r);
    assert_eq!(s.city_id, 3);
    assert_eq!(s.restaurants.len(), 1);

    let city = City::new_for_country("Göteborg", 2).with_site(s);
    let country = Country::new("Sweden").with_city(city);
    let ld = LunchData::new().with_country(country);
    assert_eq!(ld.countries.len(), 1);
    assert_eq!(ld.countries[0].cities.len(), 1);
}

#[test]
fn site_add_dishes_routes_by_restaurant_id() {
    let mut site = Site::new("S");
    let r1 = Restaurant::new_for_site("A", site.site_id).with_id(1);
    let r2 = Restaurant::new_for_site("B", site.site_id).with_id(2);
    site.set_restaurants(vec![r1, r2]);
    let dishes = vec![
        Dish::new("x").for_restaurant(1),
        Dish::new("y").for_restaurant(2),
        Dish::new("z").for_restaurant(1),
        Dish::new("orphan").for_restaurant(99), // no such restaurant: skipped
    ];
    site.add_dishes(dishes);
    assert_eq!(site.restaurants[0].dishes.len(), 2);
    assert_eq!(site.restaurants[0].dishes[0].name, "x");
    assert_eq!(site.restaurants[0].dishes[1].name, "z");
    assert_eq!(site.restaurants[1].dishes.len(), 1);
    assert_eq!(site.restaurants[1].dishes[0].name, "y");
}

#[test]
fn attach_stages_drop_orphans() {
    let mut sites = vec![Site::new_for_city("S1", 0).with_restaurants(Vec::new())];
    sites[0].site_id = 10;
    let restaurants = vec![
        Restaurant::new_for_site("A", 10).with_id(1),
        Restaurant::new_for_site("B", 999).with_id(2), // orphan
    ];
    attach_restaurants(&mut sites, restaurants);
    assert_eq!(sites[0].restaurants.len(), 1);
    assert_eq!(sites[0].restaurants[0].name, "A");

    let mut cities = vec![City::new_for_country("C1", 0)];
    cities[0].city_id = 20;
    let mut s = Site::new("S2");
    s.city_id = 20;
    attach_sites(&mut cities, vec![s]);
    assert_eq!(cities[0].sites.len(), 1);

    let mut countries = vec![Country::new("N1")];
    countries[0].country_id = 30;
    let mut c = City::new("C2");
    c.country_id = 30;
    attach_cities(&mut countries, vec![c]);
    assert_eq!(countries[0].cities.len(), 1);
}

fn small_world() -> LunchData {
    let mut country = Country::new("Sweden");
    country.country_id = 1;
    let mut city = City::new("Göteborg");
    city.city_id = 2;
    city.country_id = 1;
    let mut site = Site::new("Lindholmen");
    site.site_id = 3;
    site.city_id = 2;
    let mut restaurant = Restaurant::new_for_site("Pasta House", 3).with_id(4);
    restaurant.dishes.push(Dish::new("soup").for_restaurant(4));
    site.restaurants.push(restaurant);
    city.sites.push(site);
    country.cities.push(city);
    LunchData::new().with_country(country)
}

#[test]
fn build_assembles_the_hierarchy() {
    let mut country = Country::new("Sweden");
    country.country_id = 1;
    let mut city = City::new("Göteborg");
    city.city_id = 2;
    city.country_id = 1;
    let mut site = Site::new("Lindholmen");
    site.site_id = 3;
    site.city_id = 2;
    let restaurant = Restaurant::new_for_site("Pasta House", 3).with_id(4);
    let dish = Dish::new("soup").for_restaurant(4);

    let ld = LunchData::build(
        vec![country],
        vec![city],
        vec![site],
        vec![restaurant],
        vec![dish],
    );
    assert_eq!(ld.countries.len(), 1);
    let country = &ld.countries[0];
    assert_eq!(country.name, "Sweden");
    assert_eq!(country.cities.len(), 1);
    let city = &country.cities[0];
    assert_eq!(city.sites.len(), 1);
    let site = &city.sites[0];
    assert_eq!(site.restaurants.len(), 1);
    assert_eq!(site.restaurants[0].dishes.len(), 1);
    assert_eq!(site.restaurants[0].dishes[0].name, "soup");
}

#[test]
fn get_site_finds_by_id() {
    let ld = small_world();
    let site = ld.get_site(3).unwrap();
    assert_eq!(site.name, "Lindholmen");
    assert!(ld.get_site(99).is_none());
}

#[test]
fn into_site_extracts_or_fails() {
    let ld = small_world();
    let site = ld.into_site(3).unwrap();
    assert_eq!(site.name, "Lindholmen");
    assert_eq!(site.restaurants.len(), 1);

    let ld = small_world();
    let err = ld.into_site(99).unwrap_err();
    assert_eq!(err, "site not found");
}
