//! The relational data model: country, city, site, restaurant and dish.
//! Identifiers are 128-bit values drawn fresh for every scrape, prices are
//! whole minor currency units (hundredths), and scrape times are unix
//! milliseconds.

use vstd::pervasive::VecAdditionalExecFns;
use vstd::prelude::*;

verus! {

/// Relies on `uuid::Uuid::new_v4` and `Uuid::as_u128`: a freshly drawn random
/// identifier. Nothing is promised of the value.
#[verifier::external_body]
pub(crate) fn new_uuid() -> u128 {
    uuid::Uuid::new_v4().as_u128()
}

/// Relies on `chrono::Local::now` and `DateTime::timestamp_millis`: the
/// current wall-clock time in unix milliseconds. Nothing is promised of the
/// value.
#[verifier::external_body]
pub(crate) fn now_millis() -> i64 {
    chrono::Local::now().timestamp_millis()
}

/// One dish on a restaurant's current menu.
#[derive(Debug, Clone, PartialEq)]
pub struct Dish {
    pub dish_id: u128,
    /// Parent restaurant (back-reference only, not ownership).
    pub restaurant_id: u128,
    /// Name of the dish, e.g. "meatballs".
    pub name: String,
    /// More details about the dish, e.g. "with spaghetti".
    pub description: Option<String>,
    /// Extra info, e.g. "contains nuts".
    pub comment: Option<String>,
    /// Optional tags for filtering, e.g. "vego,gluten,lactose".
    pub tags: Vec<String>,
    /// Price in minor currency units (hundredths).
    pub price: u64,
}

impl Dish {
    /// A fresh dish with the given name; the identifier is drawn at random.
    pub fn new(name: &str) -> (d: Dish)
        ensures
            d.name@ == name@,
            d.restaurant_id == 0,
            d.description is None,
            d.comment is None,
            d.tags@ =~= Seq::<String>::empty(),
            d.price == 0,
    {
        Dish {
            dish_id: new_uuid(),
            restaurant_id: 0,
            name: name.to_owned(),
            description: None,
            comment: None,
            tags: Vec::new(),
            price: 0,
        }
    }

    /// The same dish, re-parented under the given restaurant.
    pub fn for_restaurant(self, restaurant_id: u128) -> (d: Dish)
        ensures
            d == (Dish { restaurant_id, ..self }),
    {
        Dish { restaurant_id, ..self }
    }

    /// The dish as a single line: its name, then its description if any.
    pub fn display_string(&self) -> (r: String)
        ensures
            r@ == match self.description {
                Some(d) => self.name@ + " "@ + d@,
                None => self.name@,
            },
    {
        match &self.description {
            Some(d) => self.name.clone().concat(" ").concat(d.as_str()),
            None => self.name.clone(),
        }
    }
}

/// One restaurant at a site, with the dishes of its latest scrape.
/// Identity is assigned fresh on every scrape: a full replace, not a merge.
#[derive(Debug, Clone, PartialEq)]
pub struct Restaurant {
    pub restaurant_id: u128,
    /// Parent site (back-reference only, not ownership).
    pub site_id: u128,
    /// Name of restaurant.
    pub name: String,
    /// Extra info.
    pub comment: Option<String>,
    /// Street address.
    pub address: Option<String>,
    /// Homepage.
    pub url: Option<String>,
    /// Google maps URL.
    pub map_url: Option<String>,
    /// When the scraping was last done, in unix milliseconds.
    pub parsed_at: i64,
    /// List of current dishes.
    pub dishes: Vec<Dish>,
}

impl Restaurant {
    /// A fresh restaurant with the given name, stamped with the current time;
    /// the identifier is drawn at random.
    pub fn new(name: &str) -> (r: Restaurant)
        ensures
            r.name@ == name@,
            r.site_id == 0,
            r.comment is None,
            r.address is None,
            r.url is None,
            r.map_url is None,
            r.dishes@ =~= Seq::<Dish>::empty(),
    {
        Restaurant {
            restaurant_id: new_uuid(),
            site_id: 0,
            name: name.to_owned(),
            comment: None,
            address: None,
            url: None,
            map_url: None,
            parsed_at: now_millis(),
            dishes: Vec::new(),
        }
    }

    /// A fresh restaurant already parented under the given site.
    pub fn new_for_site(name: &str, site_id: u128) -> (r: Restaurant)
        ensures
            r.name@ == name@,
            r.site_id == site_id,
            r.comment is None,
            r.address is None,
            r.url is None,
            r.map_url is None,
            r.dishes@ =~= Seq::<Dish>::empty(),
    {
        let r = Restaurant::new(name);
        Restaurant { site_id, ..r }
    }

    /// Insert a dish, replacing any dish already stored under its
    /// identifier and returning the replaced one.
    pub fn add(&mut self, dish: Dish) -> (prev: Option<Dish>)
        ensures
            *final(self) == (Restaurant { dishes: final(self).dishes, ..*old(self) }),
            match prev {
                Some(p) => exists|i: int|
                    0 <= i < old(self).dishes@.len() && (#[trigger] old(self).dishes@[i]).dish_id
                        == dish.dish_id && p == old(self).dishes@[i] && final(self).dishes@ == old(
                        self,
                    ).dishes@.update(i, dish),
                None => (forall|i: int|
                    0 <= i < old(self).dishes@.len() ==> (#[trigger] old(
                        self,
                    ).dishes@[i]).dish_id != dish.dish_id) && final(self).dishes@ == old(
                    self,
                ).dishes@.push(dish),
            },
    {
        let mut i: usize = 0;
        while i < self.dishes.len()
            invariant
                i <= self.dishes@.len(),
                *self == *old(self),
                forall|j: int|
                    0 <= j < i ==> (#[trigger] self.dishes@[j]).dish_id != dish.dish_id,
            decreases self.dishes@.len() - i,
        {
            if self.dishes[i].dish_id == dish.dish_id {
                let mut d = dish;
                self.dishes.set_and_swap(i, &mut d);
                return Some(d);
            }
            i = i + 1;
        }
        self.dishes.push(dish);
        None
    }

    /// Replace the dish list wholesale. Scraped dishes carry distinct,
    /// freshly drawn identifiers, so the list is taken as given.
    pub fn set_dishes(&mut self, dishes: Vec<Dish>)
        ensures
            *final(self) == (Restaurant { dishes: final(self).dishes, ..*old(self) }),
            final(self).dishes@ == dishes@,
    {
        self.dishes = dishes;
    }

    /// The same restaurant under the given identifier.
    pub fn with_id(self, restaurant_id: u128) -> (r: Restaurant)
        ensures
            r == (Restaurant { restaurant_id, ..self }),
    {
        Restaurant { restaurant_id, ..self }
    }

    /// The restaurant with one more dish inserted, as [`Restaurant::add`].
    pub fn with_dish(self, dish: Dish) -> (r: Restaurant)
        ensures
            r == (Restaurant { dishes: r.dishes, ..self }),
            (exists|i: int|
                0 <= i < self.dishes@.len() && (#[trigger] self.dishes@[i]).dish_id == dish.dish_id
                    && r.dishes@ == self.dishes@.update(i, dish)) || ((forall|i: int|
                0 <= i < self.dishes@.len() ==> (#[trigger] self.dishes@[i]).dish_id
                    != dish.dish_id) && r.dishes@ == self.dishes@.push(dish)),
    {
        let mut r = self;
        r.add(dish);
        r
    }

    /// The restaurant with its dish list replaced.
    pub fn with_dishes(self, dishes: Vec<Dish>) -> (r: Restaurant)
        ensures
            r == (Restaurant { dishes: r.dishes, ..self }),
            r.dishes@ == dishes@,
    {
        let mut r = self;
        r.set_dishes(dishes);
        r
    }
}

/// The dishes of `ds` that reference the restaurant `rid`, in order.
pub open spec fn dishes_for(ds: Seq<Dish>, rid: u128) -> Seq<Dish>
    decreases ds.len(),
{
    if ds.len() == 0 {
        Seq::empty()
    } else {
        let rest = dishes_for(ds.drop_last(), rid);
        if ds.last().restaurant_id == rid {
            rest.push(ds.last())
        } else {
            rest
        }
    }
}

/// One site at a city, with the restaurants of its latest scrape.
#[derive(Debug, Clone, PartialEq)]
pub struct Site {
    pub site_id: u128,
    /// Parent city (back-reference only, not ownership).
    pub city_id: u128,
    pub name: String,
    pub url_id: String,
    pub comment: Option<String>,
    /// List of current restaurants.
    pub restaurants: Vec<Restaurant>,
}

impl Site {
    /// A fresh site with the given name; the identifier is drawn at random.
    pub fn new(name: &str) -> (s: Site)
        ensures
            s.name@ == name@,
            s.city_id == 0,
            s.url_id@ =~= Seq::<char>::empty(),
            s.comment is None,
            s.restaurants@ =~= Seq::<Restaurant>::empty(),
    {
        Site {
            site_id: new_uuid(),
            city_id: 0,
            name: name.to_owned(),
            url_id: String::new(),
            comment: None,
            restaurants: Vec::new(),
        }
    }

    /// A fresh site already parented under the given city.
    pub fn new_for_city(name: &str, city_id: u128) -> (s: Site)
        ensures
            s.name@ == name@,
            s.city_id == city_id,
            s.url_id@ =~= Seq::<char>::empty(),
            s.comment is None,
            s.restaurants@ =~= Seq::<Restaurant>::empty(),
    {
        let s = Site::new(name);
        Site { city_id, ..s }
    }

    /// Insert a restaurant, replacing any stored under its identifier and
    /// returning the replaced one.
    pub fn add(&mut self, restaurant: Restaurant) -> (prev: Option<Restaurant>)
        ensures
            *final(self) == (Site { restaurants: final(self).restaurants, ..*old(self) }),
            match prev {
                Some(p) => exists|i: int|
                    0 <= i < old(self).restaurants@.len()
                        && (#[trigger] old(self).restaurants@[i]).restaurant_id
                        == restaurant.restaurant_id && p == old(self).restaurants@[i]
                        && final(self).restaurants@
                        == old(self).restaurants@.update(i, restaurant),
                None => (forall|i: int|
                    0 <= i < old(self).restaurants@.len()
                        ==> (#[trigger] old(self).restaurants@[i]).restaurant_id
                        != restaurant.restaurant_id)
                    && final(self).restaurants@ == old(self).restaurants@.push(restaurant),
            },
    {
        let mut i: usize = 0;
        while i < self.restaurants.len()
            invariant
                i <= self.restaurants@.len(),
                *self == *old(self),
                forall|j: int|
                    0 <= j < i ==> (#[trigger] self.restaurants@[j]).restaurant_id
                        != restaurant.restaurant_id,
            decreases self.restaurants@.len() - i,
        {
            if self.restaurants[i].restaurant_id == restaurant.restaurant_id {
                let mut r = restaurant;
                self.restaurants.set_and_swap(i, &mut r);
                return Some(r);
            }
            i = i + 1;
        }
        self.restaurants.push(restaurant);
        None
    }

    /// Replace the restaurant list wholesale.
    pub fn set_restaurants(&mut self, restaurants: Vec<Restaurant>)
        ensures
            *final(self) == (Site { restaurants: final(self).restaurants, ..*old(self) }),
            final(self).restaurants@ == restaurants@,
    {
        self.restaurants = restaurants;
    }

    /// Hand each dish to the restaurant it references; a dish referencing
    /// no restaurant of this site is skipped. Dishes carry fresh
    /// identifiers, so each lands as an append at the end of its
    /// restaurant's list.
    pub fn add_dishes(&mut self, dishes: Vec<Dish>)
        requires
            forall|i: int, j: int|
                0 <= i < j < old(self).restaurants@.len() ==> (#[trigger] old(
                    self,
                ).restaurants@[i]).restaurant_id != (#[trigger] old(
                    self,
                ).restaurants@[j]).restaurant_id,
        ensures
            *final(self) == (Site { restaurants: final(self).restaurants, ..*old(self) }),
            final(self).restaurants@.len() == old(self).restaurants@.len(),
            forall|i: int|
                0 <= i < old(self).restaurants@.len()
                    ==> (#[trigger] final(self).restaurants@[i]) == (Restaurant {
                    dishes: final(self).restaurants@[i].dishes,
                    ..old(self).restaurants@[i]
                }) && final(self).restaurants@[i].dishes@ == old(self).restaurants@[i].dishes@
                    + dishes_for(dishes@, old(self).restaurants@[i].restaurant_id),
    {
        let ghost orig = self.restaurants@;
        let ghost all = dishes@;
        let mut ds = dishes;
        let ghost mut k: int = 0;
        proof {
            assert forall|i: int| 0 <= i < orig.len() implies orig[i].dishes@ + dishes_for(
                all.take(0),
                orig[i].restaurant_id,
            ) =~= orig[i].dishes@ by {
            }
        }
        while ds.len() > 0
            invariant
                0 <= k <= all.len(),
                ds@ == all.skip(k),
                self.restaurants@.len() == orig.len(),
                *self == (Site { restaurants: self.restaurants, ..*old(self) }),
                forall|i: int, j: int|
                    0 <= i < j < orig.len() ==> (#[trigger] orig[i]).restaurant_id != (
                    #[trigger] orig[j]).restaurant_id,
                forall|i: int|
                    0 <= i < orig.len() ==> (#[trigger] self.restaurants@[i]) == (Restaurant {
                        dishes: self.restaurants@[i].dishes,
                        ..orig[i]
                    }) && self.restaurants@[i].dishes@ == orig[i].dishes@ + dishes_for(
                        all.take(k),
                        orig[i].restaurant_id,
                    ),
            decreases all.len() - k,
        {
            let d = ds.remove(0);
            proof {
                assert(all.skip(k)[0] == all[k]);
                assert(all.skip(k).remove(0) =~= all.skip(k + 1));
                assert(all.take(k + 1).drop_last() =~= all.take(k));
                assert(all.take(k + 1).last() == all[k]);
            }
            let rid = d.restaurant_id;
            let ghost pre = self.restaurants@;
            let mut i: usize = 0;
            let mut placed = false;
            while i < self.restaurants.len() && !placed
                invariant
                    i <= self.restaurants@.len(),
                    self.restaurants@ == pre,
                    self.restaurants@.len() == orig.len(),
                    forall|j: int| 0 <= j < i ==> (#[trigger] orig[j]).restaurant_id != rid,
                    placed ==> i < orig.len() && orig[i as int].restaurant_id == rid,
                    forall|j: int|
                        0 <= j < orig.len() ==> (#[trigger] pre[j]).restaurant_id
                            == orig[j].restaurant_id,
                decreases self.restaurants@.len() - i + (if placed {
                    0int
                } else {
                    1int
                }),
            {
                if self.restaurants[i].restaurant_id == rid {
                    placed = true;
                } else {
                    i = i + 1;
                }
            }
            if placed {
                let ghost t = i as int;
                let r = vstd::std_specs::vec::vec_index_mut(&mut self.restaurants, i);
                r.dishes.push(d);
                proof {
                    assert(self.restaurants@ == pre.update(t, self.restaurants@[t]));
                    assert(self.restaurants@[t].dishes@ == pre[t].dishes@.push(all[k]));
                    assert forall|j: int| 0 <= j < orig.len() implies (
                    #[trigger] self.restaurants@[j]) == (Restaurant {
                        dishes: self.restaurants@[j].dishes,
                        ..orig[j]
                    }) && self.restaurants@[j].dishes@ == orig[j].dishes@ + dishes_for(
                        all.take(k + 1),
                        orig[j].restaurant_id,
                    ) by {
                        if j == t {
                            assert(dishes_for(all.take(k + 1), orig[j].restaurant_id)
                                =~= dishes_for(all.take(k), orig[j].restaurant_id).push(all[k]));
                            assert(self.restaurants@[j].dishes@ =~= orig[j].dishes@ + dishes_for(
                                all.take(k + 1),
                                orig[j].restaurant_id,
                            ));
                        } else {
                            assert(self.restaurants@[j] == pre[j]);
                            assert(orig[j].restaurant_id != rid);
                            assert(dishes_for(all.take(k + 1), orig[j].restaurant_id)
                                == dishes_for(all.take(k), orig[j].restaurant_id));
                        }
                    }
                }
            } else {
                proof {
                    assert forall|j: int| 0 <= j < orig.len() implies (
                    #[trigger] self.restaurants@[j]) == (Restaurant {
                        dishes: self.restaurants@[j].dishes,
                        ..orig[j]
                    }) && self.restaurants@[j].dishes@ == orig[j].dishes@ + dishes_for(
                        all.take(k + 1),
                        orig[j].restaurant_id,
                    ) by {
                        assert(self.restaurants@[j] == pre[j]);
                        assert(orig[j].restaurant_id != rid);
                        assert(dishes_for(all.take(k + 1), orig[j].restaurant_id) == dishes_for(
                            all.take(k),
                            orig[j].restaurant_id,
                        ));
                    }
                }
            }
            proof {
                k = k + 1;
            }
        }
        proof {
            assert(all.take(all.len() as int) =~= all);
        }
    }

    /// The site with one more restaurant inserted, as [`Site::add`].
    pub fn with_restaurant(self, restaurant: Restaurant) -> (s: Site)
        ensures
            s == (Site { restaurants: s.restaurants, ..self }),
            (exists|i: int|
                0 <= i < self.restaurants@.len() && (#[trigger] self.restaurants@[i]).restaurant_id
                    == restaurant.restaurant_id && s.restaurants@ == self.restaurants@.update(
                    i,
                    restaurant,
                )) || ((forall|i: int|
                0 <= i < self.restaurants@.len() ==> (#[trigger] self.restaurants@[i]).restaurant_id
                    != restaurant.restaurant_id) && s.restaurants@ == self.restaurants@.push(
                restaurant,
            )),
    {
        let mut s = self;
        s.add(restaurant);
        s
    }

    /// The site with its restaurant list replaced.
    pub fn with_restaurants(self, restaurants: Vec<Restaurant>) -> (s: Site)
        ensures
            s == (Site { restaurants: s.restaurants, ..self }),
            s.restaurants@ == restaurants@,
    {
        let mut s = self;
        s.set_restaurants(restaurants);
        s
    }

    /// The site with the dishes handed to their restaurants, as
    /// [`Site::add_dishes`].
    pub fn with_dishes(self, dishes: Vec<Dish>) -> (s: Site)
        requires
            forall|i: int, j: int|
                0 <= i < j < self.restaurants@.len() ==> (#[trigger] self.restaurants@[i]).restaurant_id
                    != (#[trigger] self.restaurants@[j]).restaurant_id,
        ensures
            s == (Site { restaurants: s.restaurants, ..self }),
            s.restaurants@.len() == self.restaurants@.len(),
            forall|i: int|
                0 <= i < self.restaurants@.len() ==> (#[trigger] s.restaurants@[i]) == (Restaurant {
                    dishes: s.restaurants@[i].dishes,
                    ..self.restaurants@[i]
                }) && s.restaurants@[i].dishes@ == self.restaurants@[i].dishes@ + dishes_for(
                    dishes@,
                    self.restaurants@[i].restaurant_id,
                ),
    {
        let mut s = self;
        s.add_dishes(dishes);
        s
    }
}

/// The restaurants of `rs` that reference the site `sid`, in order.
pub open spec fn restaurants_for(rs: Seq<Restaurant>, sid: u128) -> Seq<Restaurant>
    decreases rs.len(),
{
    if rs.len() == 0 {
        Seq::empty()
    } else {
        let rest = restaurants_for(rs.drop_last(), sid);
        if rs.last().site_id == sid {
            rest.push(rs.last())
        } else {
            rest
        }
    }
}

/// The sites of `ss` that reference the city `cid`, in order.
pub open spec fn sites_for(ss: Seq<Site>, cid: u128) -> Seq<Site>
    decreases ss.len(),
{
    if ss.len() == 0 {
        Seq::empty()
    } else {
        let rest = sites_for(ss.drop_last(), cid);
        if ss.last().city_id == cid {
            rest.push(ss.last())
        } else {
            rest
        }
    }
}

/// The cities of `cs` that reference the country `cid`, in order.
pub open spec fn cities_for(cs: Seq<City>, cid: u128) -> Seq<City>
    decreases cs.len(),
{
    if cs.len() == 0 {
        Seq::empty()
    } else {
        let rest = cities_for(cs.drop_last(), cid);
        if cs.last().country_id == cid {
            rest.push(cs.last())
        } else {
            rest
        }
    }
}

/// One city of a country, with its sites.
#[derive(Debug, Clone, PartialEq)]
pub struct City {
    pub city_id: u128,
    /// Parent country (back-reference only, not ownership).
    pub country_id: u128,
    pub name: String,
    pub url_id: String,
    /// List of current sites.
    pub sites: Vec<Site>,
}

impl City {
    /// A fresh city with the given name; the identifier is drawn at random.
    pub fn new(name: &str) -> (c: City)
        ensures
            c.name@ == name@,
            c.country_id == 0,
            c.url_id@ =~= Seq::<char>::empty(),
            c.sites@ =~= Seq::<Site>::empty(),
    {
        City {
            city_id: new_uuid(),
            country_id: 0,
            name: name.to_owned(),
            url_id: String::new(),
            sites: Vec::new(),
        }
    }

    /// A fresh city already parented under the given country.
    pub fn new_for_country(name: &str, country_id: u128) -> (c: City)
        ensures
            c.name@ == name@,
            c.country_id == country_id,
            c.url_id@ =~= Seq::<char>::empty(),
            c.sites@ =~= Seq::<Site>::empty(),
    {
        let c = City::new(name);
        City { country_id, ..c }
    }

    /// Insert a site, replacing any stored under its identifier and
    /// returning the replaced one.
    pub fn add(&mut self, site: Site) -> (prev: Option<Site>)
        ensures
            *final(self) == (City { sites: final(self).sites, ..*old(self) }),
            match prev {
                Some(p) => exists|i: int|
                    0 <= i < old(self).sites@.len()
                        && (#[trigger] old(self).sites@[i]).site_id == site.site_id
                        && p == old(self).sites@[i]
                        && final(self).sites@ == old(self).sites@.update(i, site),
                None => (forall|i: int|
                    0 <= i < old(self).sites@.len()
                        ==> (#[trigger] old(self).sites@[i]).site_id != site.site_id)
                    && final(self).sites@ == old(self).sites@.push(site),
            },
    {
        let mut i: usize = 0;
        while i < self.sites.len()
            invariant
                i <= self.sites@.len(),
                *self == *old(self),
                forall|j: int| 0 <= j < i ==> (#[trigger] self.sites@[j]).site_id != site.site_id,
            decreases self.sites@.len() - i,
        {
            if self.sites[i].site_id == site.site_id {
                let mut s = site;
                self.sites.set_and_swap(i, &mut s);
                return Some(s);
            }
            i = i + 1;
        }
        self.sites.push(site);
        None
    }

    /// Replace the site list wholesale.
    pub fn set_sites(&mut self, sites: Vec<Site>)
        ensures
            *final(self) == (City { sites: final(self).sites, ..*old(self) }),
            final(self).sites@ == sites@,
    {
        self.sites = sites;
    }

    /// The city with one more site inserted, as [`City::add`].
    pub fn with_site(self, site: Site) -> (c: City)
        ensures
            c == (City { sites: c.sites, ..self }),
            (exists|i: int|
                0 <= i < self.sites@.len() && (#[trigger] self.sites@[i]).site_id == site.site_id
                    && c.sites@ == self.sites@.update(i, site)) || ((forall|i: int|
                0 <= i < self.sites@.len() ==> (#[trigger] self.sites@[i]).site_id != site.site_id)
                && c.sites@ == self.sites@.push(site)),
    {
        let mut c = self;
        c.add(site);
        c
    }

    /// The city with its site list replaced.
    pub fn with_sites(self, sites: Vec<Site>) -> (c: City)
        ensures
            c == (City { sites: c.sites, ..self }),
            c.sites@ == sites@,
    {
        let mut c = self;
        c.set_sites(sites);
        c
    }
}

/// One country, with its cities.
#[derive(Debug, Clone, PartialEq)]
pub struct Country {
    pub country_id: u128,
    pub name: String,
    pub url_id: String,
    /// Currency abbreviation to use as suffix for dish prices.
    pub currency_suffix: Option<String>,
    /// List of current cities.
    pub cities: Vec<City>,
}

impl Country {
    /// A fresh country with the given name and a zero identifier, to be
    /// assigned by the store.
    pub fn new(name: &str) -> (c: Country)
        ensures
            c.name@ == name@,
            c.country_id == 0,
            c.url_id@ =~= Seq::<char>::empty(),
            c.currency_suffix is None,
            c.cities@ =~= Seq::<City>::empty(),
    {
        Country {
            country_id: 0,
            name: name.to_owned(),
            url_id: String::new(),
            currency_suffix: None,
            cities: Vec::new(),
        }
    }

    /// Insert a city, replacing any stored under its identifier and
    /// returning the replaced one.
    pub fn add(&mut self, city: City) -> (prev: Option<City>)
        ensures
            *final(self) == (Country { cities: final(self).cities, ..*old(self) }),
            match prev {
                Some(p) => exists|i: int|
                    0 <= i < old(self).cities@.len()
                        && (#[trigger] old(self).cities@[i]).city_id == city.city_id
                        && p == old(self).cities@[i]
                        && final(self).cities@ == old(self).cities@.update(i, city),
                None => (forall|i: int|
                    0 <= i < old(self).cities@.len()
                        ==> (#[trigger] old(self).cities@[i]).city_id != city.city_id)
                    && final(self).cities@ == old(self).cities@.push(city),
            },
    {
        let mut i: usize = 0;
        while i < self.cities.len()
            invariant
                i <= self.cities@.len(),
                *self == *old(self),
                forall|j: int| 0 <= j < i ==> (#[trigger] self.cities@[j]).city_id != city.city_id,
            decreases self.cities@.len() - i,
        {
            if self.cities[i].city_id == city.city_id {
                let mut c = city;
                self.cities.set_and_swap(i, &mut c);
                return Some(c);
            }
            i = i + 1;
        }
        self.cities.push(city);
        None
    }

    /// Replace the city list wholesale.
    pub fn set_cities(&mut self, cities: Vec<City>)
        ensures
            *final(self) == (Country { cities: final(self).cities, ..*old(self) }),
            final(self).cities@ == cities@,
    {
        self.cities = cities;
    }

    /// The country with one more city inserted, as [`Country::add`].
    pub fn with_city(self, city: City) -> (c: Country)
        ensures
            c == (Country { cities: c.cities, ..self }),
            (exists|i: int|
                0 <= i < self.cities@.len() && (#[trigger] self.cities@[i]).city_id == city.city_id
                    && c.cities@ == self.cities@.update(i, city)) || ((forall|i: int|
                0 <= i < self.cities@.len() ==> (#[trigger] self.cities@[i]).city_id
                    != city.city_id) && c.cities@ == self.cities@.push(city)),
    {
        let mut c = self;
        c.add(city);
        c
    }

    /// The country with its city list replaced.
    pub fn with_cities(self, cities: Vec<City>) -> (c: Country)
        ensures
            c == (Country { cities: c.cities, ..self }),
            c.cities@ == cities@,
    {
        let mut c = self;
        c.set_cities(cities);
        c
    }
}

/// Hand each restaurant to the site it references; a restaurant
/// referencing no site of the list is dropped.
pub fn attach_restaurants(sites: &mut Vec<Site>, restaurants: Vec<Restaurant>)
    requires
        forall|i: int, j: int|
            0 <= i < j < old(sites)@.len() ==> (#[trigger] old(sites)@[i]).site_id != (
            #[trigger] old(sites)@[j]).site_id,
    ensures
        final(sites)@.len() == old(sites)@.len(),
        forall|i: int|
            0 <= i < old(sites)@.len() ==> (#[trigger] final(sites)@[i]) == (Site {
                restaurants: final(sites)@[i].restaurants,
                ..old(sites)@[i]
            }) && final(sites)@[i].restaurants@ == old(sites)@[i].restaurants@ + restaurants_for(
                restaurants@,
                old(sites)@[i].site_id,
            ),
{
    let ghost orig = sites@;
    let ghost all = restaurants@;
    let mut cs = restaurants;
    let ghost mut k: int = 0;
    proof {
        assert forall|i: int| 0 <= i < orig.len() implies orig[i].restaurants@ + restaurants_for(
            all.take(0),
            orig[i].site_id,
        ) =~= orig[i].restaurants@ by {}
    }
    while cs.len() > 0
        invariant
            0 <= k <= all.len(),
            cs@ == all.skip(k),
            sites@.len() == orig.len(),
            forall|i: int, j: int|
                0 <= i < j < orig.len() ==> (#[trigger] orig[i]).site_id != (
                #[trigger] orig[j]).site_id,
            forall|i: int|
                0 <= i < orig.len() ==> (#[trigger] sites@[i]) == (Site {
                    restaurants: sites@[i].restaurants,
                    ..orig[i]
                }) && sites@[i].restaurants@ == orig[i].restaurants@ + restaurants_for(
                    all.take(k),
                    orig[i].site_id,
                ),
        decreases all.len() - k,
    {
        let c = cs.remove(0);
        proof {
            assert(all.skip(k)[0] == all[k]);
            assert(all.skip(k).remove(0) =~= all.skip(k + 1));
            assert(all.take(k + 1).drop_last() =~= all.take(k));
            assert(all.take(k + 1).last() == all[k]);
        }
        let pid = c.site_id;
        let ghost pre = sites@;
        let mut i: usize = 0;
        let mut placed = false;
        while i < sites.len() && !placed
            invariant
                i <= sites@.len(),
                sites@ == pre,
                sites@.len() == orig.len(),
                forall|j: int| 0 <= j < i ==> (#[trigger] orig[j]).site_id != pid,
                placed ==> i < orig.len() && orig[i as int].site_id == pid,
                forall|j: int|
                    0 <= j < orig.len() ==> (#[trigger] pre[j]).site_id == orig[j].site_id,
            decreases sites@.len() - i + (if placed {
                0int
            } else {
                1int
            }),
        {
            if sites[i].site_id == pid {
                placed = true;
            } else {
                i = i + 1;
            }
        }
        if placed {
            let ghost t = i as int;
            let p = vstd::std_specs::vec::vec_index_mut(sites, i);
            p.restaurants.push(c);
            proof {
                assert(sites@ == pre.update(t, sites@[t]));
                assert(sites@[t].restaurants@ == pre[t].restaurants@.push(all[k]));
                assert forall|j: int| 0 <= j < orig.len() implies (#[trigger] sites@[j]) == (Site {
                    restaurants: sites@[j].restaurants,
                    ..orig[j]
                }) && sites@[j].restaurants@ == orig[j].restaurants@ + restaurants_for(
                    all.take(k + 1),
                    orig[j].site_id,
                ) by {
                    if j == t {
                        assert(restaurants_for(all.take(k + 1), orig[j].site_id)
                            =~= restaurants_for(all.take(k), orig[j].site_id).push(all[k]));
                        assert(sites@[j].restaurants@ =~= orig[j].restaurants@ + restaurants_for(
                            all.take(k + 1),
                            orig[j].site_id,
                        ));
                    } else {
                        assert(sites@[j] == pre[j]);
                        assert(orig[j].site_id != pid);
                        assert(restaurants_for(all.take(k + 1), orig[j].site_id)
                            == restaurants_for(all.take(k), orig[j].site_id));
                    }
                }
            }
        } else {
            proof {
                assert forall|j: int| 0 <= j < orig.len() implies (#[trigger] sites@[j]) == (Site {
                    restaurants: sites@[j].restaurants,
                    ..orig[j]
                }) && sites@[j].restaurants@ == orig[j].restaurants@ + restaurants_for(
                    all.take(k + 1),
                    orig[j].site_id,
                ) by {
                    assert(sites@[j] == pre[j]);
                    assert(orig[j].site_id != pid);
                    assert(restaurants_for(all.take(k + 1), orig[j].site_id) == restaurants_for(
                        all.take(k),
                        orig[j].site_id,
                    ));
                }
            }
        }
        proof {
            k = k + 1;
        }
    }
    proof {
        assert(all.take(all.len() as int) =~= all);
    }
}

/// Hand each site to the city it references; a site referencing no city of
/// the list is dropped.
pub fn attach_sites(cities: &mut Vec<City>, sites: Vec<Site>)
    requires
        forall|i: int, j: int|
            0 <= i < j < old(cities)@.len() ==> (#[trigger] old(cities)@[i]).city_id != (
            #[trigger] old(cities)@[j]).city_id,
    ensures
        final(cities)@.len() == old(cities)@.len(),
        forall|i: int|
            0 <= i < old(cities)@.len() ==> (#[trigger] final(cities)@[i]) == (City {
                sites: final(cities)@[i].sites,
                ..old(cities)@[i]
            }) && final(cities)@[i].sites@ == old(cities)@[i].sites@ + sites_for(
                sites@,
                old(cities)@[i].city_id,
            ),
{
    let ghost orig = cities@;
    let ghost all = sites@;
    let mut cs = sites;
    let ghost mut k: int = 0;
    proof {
        assert forall|i: int| 0 <= i < orig.len() implies orig[i].sites@ + sites_for(
            all.take(0),
            orig[i].city_id,
        ) =~= orig[i].sites@ by {}
    }
    while cs.len() > 0
        invariant
            0 <= k <= all.len(),
            cs@ == all.skip(k),
            cities@.len() == orig.len(),
            forall|i: int, j: int|
                0 <= i < j < orig.len() ==> (#[trigger] orig[i]).city_id != (
                #[trigger] orig[j]).city_id,
            forall|i: int|
                0 <= i < orig.len() ==> (#[trigger] cities@[i]) == (City {
                    sites: cities@[i].sites,
                    ..orig[i]
                }) && cities@[i].sites@ == orig[i].sites@ + sites_for(
                    all.take(k),
                    orig[i].city_id,
                ),
        decreases all.len() - k,
    {
        let c = cs.remove(0);
        proof {
            assert(all.skip(k)[0] == all[k]);
            assert(all.skip(k).remove(0) =~= all.skip(k + 1));
            assert(all.take(k + 1).drop_last() =~= all.take(k));
            assert(all.take(k + 1).last() == all[k]);
        }
        let pid = c.city_id;
        let ghost pre = cities@;
        let mut i: usize = 0;
        let mut placed = false;
        while i < cities.len() && !placed
            invariant
                i <= cities@.len(),
                cities@ == pre,
                cities@.len() == orig.len(),
                forall|j: int| 0 <= j < i ==> (#[trigger] orig[j]).city_id != pid,
                placed ==> i < orig.len() && orig[i as int].city_id == pid,
                forall|j: int|
                    0 <= j < orig.len() ==> (#[trigger] pre[j]).city_id == orig[j].city_id,
            decreases cities@.len() - i + (if placed {
                0int
            } else {
                1int
            }),
        {
            if cities[i].city_id == pid {
                placed = true;
            } else {
                i = i + 1;
            }
        }
        if placed {
            let ghost t = i as int;
            let p = vstd::std_specs::vec::vec_index_mut(cities, i);
            p.sites.push(c);
            proof {
                assert(cities@ == pre.update(t, cities@[t]));
                assert(cities@[t].sites@ == pre[t].sites@.push(all[k]));
                assert forall|j: int| 0 <= j < orig.len() implies (#[trigger] cities@[j]) == (City {
                    sites: cities@[j].sites,
                    ..orig[j]
                }) && cities@[j].sites@ == orig[j].sites@ + sites_for(
                    all.take(k + 1),
                    orig[j].city_id,
                ) by {
                    if j == t {
                        assert(sites_for(all.take(k + 1), orig[j].city_id) =~= sites_for(
                            all.take(k),
                            orig[j].city_id,
                        ).push(all[k]));
                        assert(cities@[j].sites@ =~= orig[j].sites@ + sites_for(
                            all.take(k + 1),
                            orig[j].city_id,
                        ));
                    } else {
                        assert(cities@[j] == pre[j]);
                        assert(orig[j].city_id != pid);
                        assert(sites_for(all.take(k + 1), orig[j].city_id) == sites_for(
                            all.take(k),
                            orig[j].city_id,
                        ));
                    }
                }
            }
        } else {
            proof {
                assert forall|j: int| 0 <= j < orig.len() implies (#[trigger] cities@[j]) == (City {
                    sites: cities@[j].sites,
                    ..orig[j]
                }) && cities@[j].sites@ == orig[j].sites@ + sites_for(
                    all.take(k + 1),
                    orig[j].city_id,
                ) by {
                    assert(cities@[j] == pre[j]);
                    assert(orig[j].city_id != pid);
                    assert(sites_for(all.take(k + 1), orig[j].city_id) == sites_for(
                        all.take(k),
                        orig[j].city_id,
                    ));
                }
            }
        }
        proof {
            k = k + 1;
        }
    }
    proof {
        assert(all.take(all.len() as int) =~= all);
    }
}

/// Hand each city to the country it references; a city referencing no
/// country of the list is dropped.
pub fn attach_cities(countries: &mut Vec<Country>, cities: Vec<City>)
    requires
        forall|i: int, j: int|
            0 <= i < j < old(countries)@.len() ==> (#[trigger] old(countries)@[i]).country_id != (
            #[trigger] old(countries)@[j]).country_id,
    ensures
        final(countries)@.len() == old(countries)@.len(),
        forall|i: int|
            0 <= i < old(countries)@.len() ==> (#[trigger] final(countries)@[i]) == (Country {
                cities: final(countries)@[i].cities,
                ..old(countries)@[i]
            }) && final(countries)@[i].cities@ == old(countries)@[i].cities@ + cities_for(
                cities@,
                old(countries)@[i].country_id,
            ),
{
    let ghost orig = countries@;
    let ghost all = cities@;
    let mut cs = cities;
    let ghost mut k: int = 0;
    proof {
        assert forall|i: int| 0 <= i < orig.len() implies orig[i].cities@ + cities_for(
            all.take(0),
            orig[i].country_id,
        ) =~= orig[i].cities@ by {}
    }
    while cs.len() > 0
        invariant
            0 <= k <= all.len(),
            cs@ == all.skip(k),
            countries@.len() == orig.len(),
            forall|i: int, j: int|
                0 <= i < j < orig.len() ==> (#[trigger] orig[i]).country_id != (
                #[trigger] orig[j]).country_id,
            forall|i: int|
                0 <= i < orig.len() ==> (#[trigger] countries@[i]) == (Country {
                    cities: countries@[i].cities,
                    ..orig[i]
                }) && countries@[i].cities@ == orig[i].cities@ + cities_for(
                    all.take(k),
                    orig[i].country_id,
                ),
        decreases all.len() - k,
    {
        let c = cs.remove(0);
        proof {
            assert(all.skip(k)[0] == all[k]);
            assert(all.skip(k).remove(0) =~= all.skip(k + 1));
            assert(all.take(k + 1).drop_last() =~= all.take(k));
            assert(all.take(k + 1).last() == all[k]);
        }
        let pid = c.country_id;
        let ghost pre = countries@;
        let mut i: usize = 0;
        let mut placed = false;
        while i < countries.len() && !placed
            invariant
                i <= countries@.len(),
                countries@ == pre,
                countries@.len() == orig.len(),
                forall|j: int| 0 <= j < i ==> (#[trigger] orig[j]).country_id != pid,
                placed ==> i < orig.len() && orig[i as int].country_id == pid,
                forall|j: int|
                    0 <= j < orig.len() ==> (#[trigger] pre[j]).country_id == orig[j].country_id,
            decreases countries@.len() - i + (if placed {
                0int
            } else {
                1int
            }),
        {
            if countries[i].country_id == pid {
                placed = true;
            } else {
                i = i + 1;
            }
        }
        if placed {
            let ghost t = i as int;
            let p = vstd::std_specs::vec::vec_index_mut(countries, i);
            p.cities.push(c);
            proof {
                assert(countries@ == pre.update(t, countries@[t]));
                assert(countries@[t].cities@ == pre[t].cities@.push(all[k]));
                assert forall|j: int| 0 <= j < orig.len() implies (#[trigger] countries@[j]) == (
                Country { cities: countries@[j].cities, ..orig[j] }) && countries@[j].cities@
                    == orig[j].cities@ + cities_for(all.take(k + 1), orig[j].country_id) by {
                    if j == t {
                        assert(cities_for(all.take(k + 1), orig[j].country_id) =~= cities_for(
                            all.take(k),
                            orig[j].country_id,
                        ).push(all[k]));
                        assert(countries@[j].cities@ =~= orig[j].cities@ + cities_for(
                            all.take(k + 1),
                            orig[j].country_id,
                        ));
                    } else {
                        assert(countries@[j] == pre[j]);
                        assert(orig[j].country_id != pid);
                        assert(cities_for(all.take(k + 1), orig[j].country_id) == cities_for(
                            all.take(k),
                            orig[j].country_id,
                        ));
                    }
                }
            }
        } else {
            proof {
                assert forall|j: int| 0 <= j < orig.len() implies (#[trigger] countries@[j]) == (
                Country { cities: countries@[j].cities, ..orig[j] }) && countries@[j].cities@
                    == orig[j].cities@ + cities_for(all.take(k + 1), orig[j].country_id) by {
                    assert(countries@[j] == pre[j]);
                    assert(orig[j].country_id != pid);
                    assert(cities_for(all.take(k + 1), orig[j].country_id) == cities_for(
                        all.take(k),
                        orig[j].country_id,
                    ));
                }
            }
        }
        proof {
            k = k + 1;
        }
    }
    proof {
        assert(all.take(all.len() as int) =~= all);
    }
}

/// Two city lists with the same parent references select the same number
/// of cities for any country.
proof fn lemma_cities_for_same_parents(a: Seq<City>, b: Seq<City>, cid: u128)
    requires
        a.len() == b.len(),
        forall|i: int| 0 <= i < a.len() ==> (#[trigger] a[i]).country_id == b[i].country_id,
    ensures
        cities_for(a, cid).len() == cities_for(b, cid).len(),
    decreases a.len(),
{
    if a.len() > 0 {
        assert(a.last().country_id == b.last().country_id);
        assert(forall|i: int|
            0 <= i < a.drop_last().len() ==> (#[trigger] a.drop_last()[i]).country_id
                == b.drop_last()[i].country_id);
        lemma_cities_for_same_parents(a.drop_last(), b.drop_last(), cid);
    }
}

/// Whether some site of this city carries the identifier.
pub open spec fn city_has_site(c: City, site_id: u128) -> bool {
    exists|sk: int| 0 <= sk < c.sites@.len() && (#[trigger] c.sites@[sk]).site_id == site_id
}

/// Whether some site anywhere under this country carries the identifier.
pub open spec fn country_has_site(c: Country, site_id: u128) -> bool {
    exists|cj: int| 0 <= cj < c.cities@.len() && city_has_site(#[trigger] c.cities@[cj], site_id)
}

/// Everything currently known: the countries with their whole subtrees.
#[derive(Debug, Clone, PartialEq)]
pub struct LunchData {
    /// List of current countries.
    pub countries: Vec<Country>,
}

impl LunchData {
    /// An empty data set.
    pub fn new() -> (ld: LunchData)
        ensures
            ld.countries@ =~= Seq::<Country>::empty(),
    {
        LunchData { countries: Vec::new() }
    }

    /// Insert a country, replacing any stored under its identifier and
    /// returning the replaced one.
    pub fn add(&mut self, country: Country) -> (prev: Option<Country>)
        ensures
            match prev {
                Some(p) => exists|i: int|
                    0 <= i < old(self).countries@.len()
                        && (#[trigger] old(self).countries@[i]).country_id == country.country_id
                        && p == old(self).countries@[i]
                        && final(self).countries@ == old(self).countries@.update(i, country),
                None => (forall|i: int|
                    0 <= i < old(self).countries@.len()
                        ==> (#[trigger] old(self).countries@[i]).country_id != country.country_id)
                    && final(self).countries@ == old(self).countries@.push(country),
            },
    {
        let mut i: usize = 0;
        while i < self.countries.len()
            invariant
                i <= self.countries@.len(),
                *self == *old(self),
                forall|j: int|
                    0 <= j < i ==> (#[trigger] self.countries@[j]).country_id
                        != country.country_id,
            decreases self.countries@.len() - i,
        {
            if self.countries[i].country_id == country.country_id {
                let mut c = country;
                self.countries.set_and_swap(i, &mut c);
                return Some(c);
            }
            i = i + 1;
        }
        self.countries.push(country);
        None
    }

    /// Replace the country list wholesale.
    pub fn set_countries(&mut self, countries: Vec<Country>)
        ensures
            final(self).countries@ == countries@,
    {
        self.countries = countries;
    }

    /// The data set with one more country inserted, as [`LunchData::add`].
    pub fn with_country(self, country: Country) -> (ld: LunchData)
        ensures
            (exists|i: int|
                0 <= i < self.countries@.len() && (#[trigger] self.countries@[i]).country_id
                    == country.country_id && ld.countries@ == self.countries@.update(i, country))
                || ((forall|i: int|
                0 <= i < self.countries@.len() ==> (#[trigger] self.countries@[i]).country_id
                    != country.country_id) && ld.countries@ == self.countries@.push(country)),
    {
        let mut ld = self;
        ld.add(country);
        ld
    }

    /// The data set with its country list replaced.
    pub fn with_countries(self, countries: Vec<Country>) -> (ld: LunchData)
        ensures
            ld.countries@ == countries@,
    {
        let mut ld = self;
        ld.set_countries(countries);
        ld
    }

    /// Assemble flat row lists into the nested hierarchy: each dish joins
    /// its restaurant, each restaurant its site, each site its city, each
    /// city its country; a row referencing an absent parent is dropped. The
    /// per-level effect is exactly that of [`Site::add_dishes`],
    /// [`attach_restaurants`], [`attach_sites`] and [`attach_cities`], in
    /// that order.
    pub fn build(
        countries: Vec<Country>,
        cities: Vec<City>,
        sites: Vec<Site>,
        restaurants: Vec<Restaurant>,
        dishes: Vec<Dish>,
    ) -> (ld: LunchData)
        requires
            forall|i: int, j: int|
                0 <= i < j < restaurants@.len() ==> (#[trigger] restaurants@[i]).restaurant_id != (
                #[trigger] restaurants@[j]).restaurant_id,
            forall|i: int, j: int|
                0 <= i < j < sites@.len() ==> (#[trigger] sites@[i]).site_id != (
                #[trigger] sites@[j]).site_id,
            forall|i: int, j: int|
                0 <= i < j < cities@.len() ==> (#[trigger] cities@[i]).city_id != (
                #[trigger] cities@[j]).city_id,
            forall|i: int, j: int|
                0 <= i < j < countries@.len() ==> (#[trigger] countries@[i]).country_id != (
                #[trigger] countries@[j]).country_id,
        ensures
            ld.countries@.len() == countries@.len(),
            forall|i: int|
                0 <= i < countries@.len() ==> (#[trigger] ld.countries@[i]) == (Country {
                    cities: ld.countries@[i].cities,
                    ..countries@[i]
                }) && ld.countries@[i].cities@.len() == countries@[i].cities@.len() + cities_for(
                    cities@,
                    countries@[i].country_id,
                ).len(),
    {
        let ghost cities_in = cities@;
        let ghost countries_in = countries@;
        // the dish stage is the site-level join on a throwaway holder
        let mut holder = Site {
            site_id: 0,
            city_id: 0,
            name: String::new(),
            url_id: String::new(),
            comment: None,
            restaurants,
        };
        holder.add_dishes(dishes);
        let mut site_rows = sites;
        attach_restaurants(&mut site_rows, holder.restaurants);
        let mut city_rows = cities;
        attach_sites(&mut city_rows, site_rows);
        let ghost cities2 = city_rows@;
        proof {
            assert(forall|i: int|
                0 <= i < cities_in.len() ==> (#[trigger] cities2[i]).country_id
                    == cities_in[i].country_id);
        }
        let mut country_rows = countries;
        attach_cities(&mut country_rows, city_rows);
        proof {
            assert forall|i: int| 0 <= i < country_rows@.len() implies (
            #[trigger] country_rows@[i]).cities@.len() == countries_in[i].cities@.len()
                + cities_for(cities_in, countries_in[i].country_id).len() by {
                assert(forall|x: int|
                    0 <= x < cities2.len() ==> (#[trigger] cities2[x]).country_id
                        == cities_in[x].country_id);
                lemma_cities_for_same_parents(cities2, cities_in, countries_in[i].country_id);
            }
        }
        LunchData { countries: country_rows }
    }

    /// Whether some site anywhere in the data set carries the identifier.
    pub open spec fn spec_has_site(self, site_id: u128) -> bool {
        exists|ci: int|
            0 <= ci < self.countries@.len() && country_has_site(
                #[trigger] self.countries@[ci],
                site_id,
            )
    }

    /// The site with the given identifier, wherever it sits in the
    /// hierarchy, if any.
    pub fn get_site(&self, site_id: u128) -> (r: Option<&Site>)
        ensures
            match r {
                Some(site) => site.site_id == site_id && self.spec_has_site(site_id),
                None => !self.spec_has_site(site_id),
            },
    {
        let mut ci: usize = 0;
        while ci < self.countries.len()
            invariant
                ci <= self.countries@.len(),
                forall|x: int|
                    0 <= x < ci ==> !country_has_site(#[trigger] self.countries@[x], site_id),
            decreases self.countries@.len() - ci,
        {
            let country = &self.countries[ci];
            let mut cj: usize = 0;
            while cj < country.cities.len()
                invariant
                    cj <= country.cities@.len(),
                    ci < self.countries@.len(),
                    *country == self.countries@[ci as int],
                    forall|y: int|
                        0 <= y < cj ==> !city_has_site(#[trigger] country.cities@[y], site_id),
                decreases country.cities@.len() - cj,
            {
                let city = &country.cities[cj];
                let mut sk: usize = 0;
                while sk < city.sites.len()
                    invariant
                        sk <= city.sites@.len(),
                        ci < self.countries@.len(),
                        *country == self.countries@[ci as int],
                        cj < country.cities@.len(),
                        *city == country.cities@[cj as int],
                        forall|z: int|
                            0 <= z < sk ==> (#[trigger] city.sites@[z]).site_id != site_id,
                    decreases city.sites@.len() - sk,
                {
                    if city.sites[sk].site_id == site_id {
                        proof {
                            assert(city_has_site(country.cities@[cj as int], site_id));
                            assert(country_has_site(self.countries@[ci as int], site_id));
                        }
                        return Some(&city.sites[sk]);
                    }
                    sk = sk + 1;
                }
                proof {
                    assert(!city_has_site(country.cities@[cj as int], site_id)) by {
                        if city_has_site(country.cities@[cj as int], site_id) {
                            let z = choose|z: int|
                                0 <= z < city.sites@.len() && (#[trigger] city.sites@[z]).site_id
                                    == site_id;
                            assert(city.sites@[z].site_id != site_id);
                        }
                    }
                }
                cj = cj + 1;
            }
            proof {
                assert(!country_has_site(self.countries@[ci as int], site_id)) by {
                    if country_has_site(self.countries@[ci as int], site_id) {
                        let y = choose|y: int|
                            0 <= y < country.cities@.len() && city_has_site(
                                #[trigger] country.cities@[y],
                                site_id,
                            );
                        assert(!city_has_site(country.cities@[y], site_id));
                    }
                }
            }
            ci = ci + 1;
        }
        proof {
            assert(!self.spec_has_site(site_id)) by {
                if self.spec_has_site(site_id) {
                    let x = choose|x: int|
                        0 <= x < self.countries@.len() && country_has_site(
                            #[trigger] self.countries@[x],
                            site_id,
                        );
                    assert(!country_has_site(self.countries@[x], site_id));
                }
            }
        }
        None
    }

    /// Take the site with the given identifier out of the data set,
    /// consuming the rest. Fails exactly when no site carries it.
    pub fn into_site(self, site_id: u128) -> (r: Result<Site, String>)
        ensures
            match r {
                Ok(site) => site.site_id == site_id && self.spec_has_site(site_id),
                Err(m) => !self.spec_has_site(site_id) && m@ == "site not found"@,
            },
    {
        let mut found = false;
        let mut fci: usize = 0;
        let mut fcj: usize = 0;
        let mut fsk: usize = 0;
        let mut ci: usize = 0;
        while ci < self.countries.len() && !found
            invariant
                ci <= self.countries@.len(),
                !found ==> forall|x: int|
                    0 <= x < ci ==> !country_has_site(#[trigger] self.countries@[x], site_id),
                found ==> fci < self.countries@.len() && fcj < self.countries@[fci as int].cities@.len()
                    && fsk < self.countries@[fci as int].cities@[fcj as int].sites@.len()
                    && self.countries@[fci as int].cities@[fcj as int].sites@[fsk as int].site_id
                    == site_id,
            decreases self.countries@.len() - ci + (if found {
                0int
            } else {
                1int
            }),
        {
            let country = &self.countries[ci];
            let mut cj: usize = 0;
            while cj < country.cities.len() && !found
                invariant
                    cj <= country.cities@.len(),
                    ci < self.countries@.len(),
                    *country == self.countries@[ci as int],
                    !found ==> forall|x: int|
                        0 <= x < ci ==> !country_has_site(#[trigger] self.countries@[x], site_id),
                    !found ==> forall|y: int|
                        0 <= y < cj ==> !city_has_site(#[trigger] country.cities@[y], site_id),
                    found ==> fci < self.countries@.len() && fcj < self.countries@[fci as int].cities@.len()
                        && fsk < self.countries@[fci as int].cities@[fcj as int].sites@.len()
                        && self.countries@[fci as int].cities@[fcj as int].sites@[fsk as int].site_id
                        == site_id,
                decreases country.cities@.len() - cj + (if found {
                    0int
                } else {
                    1int
                }),
            {
                let city = &country.cities[cj];
                let mut sk: usize = 0;
                while sk < city.sites.len() && !found
                    invariant
                        sk <= city.sites@.len(),
                        ci < self.countries@.len(),
                        *country == self.countries@[ci as int],
                        cj < country.cities@.len(),
                        *city == country.cities@[cj as int],
                        !found ==> forall|x: int|
                            0 <= x < ci ==> !country_has_site(
                                #[trigger] self.countries@[x],
                                site_id,
                            ),
                        !found ==> forall|y: int|
                            0 <= y < cj ==> !city_has_site(#[trigger] country.cities@[y], site_id),
                        !found ==> forall|z: int|
                            0 <= z < sk ==> (#[trigger] city.sites@[z]).site_id != site_id,
                        found ==> fci < self.countries@.len() && fcj < self.countries@[fci as int].cities@.len()
                            && fsk < self.countries@[fci as int].cities@[fcj as int].sites@.len()
                            && self.countries@[fci as int].cities@[fcj as int].sites@[fsk as int].site_id
                            == site_id,
                    decreases city.sites@.len() - sk + (if found {
                        0int
                    } else {
                        1int
                    }),
                {
                    if city.sites[sk].site_id == site_id {
                        found = true;
                        fci = ci;
                        fcj = cj;
                        fsk = sk;
                    } else {
                        sk = sk + 1;
                    }
                }
                if !found {
                    proof {
                        assert(!city_has_site(country.cities@[cj as int], site_id)) by {
                            if city_has_site(country.cities@[cj as int], site_id) {
                                let z = choose|z: int|
                                    0 <= z < city.sites@.len() && (
                                    #[trigger] city.sites@[z]).site_id == site_id;
                                assert(city.sites@[z].site_id != site_id);
                            }
                        }
                    }
                    cj = cj + 1;
                }
            }
            if !found {
                proof {
                    assert(!country_has_site(self.countries@[ci as int], site_id)) by {
                        if country_has_site(self.countries@[ci as int], site_id) {
                            let y = choose|y: int|
                                0 <= y < country.cities@.len() && city_has_site(
                                    #[trigger] country.cities@[y],
                                    site_id,
                                );
                            assert(!city_has_site(country.cities@[y], site_id));
                        }
                    }
                }
                ci = ci + 1;
            }
        }
        if found {
            proof {
                assert(city_has_site(self.countries@[fci as int].cities@[fcj as int], site_id));
                assert(country_has_site(self.countries@[fci as int], site_id));
            }
            let mut self2 = self;
            let mut country = self2.countries.remove(fci);
            let mut city = country.cities.remove(fcj);
            let site = city.sites.remove(fsk);
            Ok(site)
        } else {
            proof {
                assert(!self.spec_has_site(site_id)) by {
                    if self.spec_has_site(site_id) {
                        let x = choose|x: int|
                            0 <= x < self.countries@.len() && country_has_site(
                                #[trigger] self.countries@[x],
                                site_id,
                            );
                        assert(!country_has_site(self.countries@[x], site_id));
                    }
                }
            }
            Err("site not found".to_owned())
        }
    }
}

} // verus!
