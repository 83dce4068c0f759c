//! The reference site adapter's data and join logic: a directory of
//! restaurant links and a day's menu document, fetched from a static
//! external data source, are joined onto the site's restaurants by
//! name-derived key. An entry that matches no known restaurant is skipped
//! — logged by the caller — rather than failing the whole run. The
//! fetching itself is the caller's business; everything here is plain
//! values.

use crate::models::{Dish, Restaurant, Site};
use crate::util::{spec_parse_price, parse_price};
use vstd::prelude::*;

verus! {

/// A restaurant's links in the directory document: its homepage and its
/// map entry.
#[derive(Debug, Clone, PartialEq)]
pub struct RestaurantLink {
    pub url: String,
    pub map: String,
}

/// One menu entry of a day's document.
#[derive(Debug, Clone, PartialEq)]
pub struct MenuItem {
    pub name: String,
    pub category: String,
    pub description: String,
    pub price: String,
    pub tags: Vec<String>,
}

/// One restaurant's menu for one day.
#[derive(Debug, Clone, PartialEq)]
pub struct DayMenu {
    pub day: String,
    pub items: Vec<MenuItem>,
}

/// The day's menus, keyed by the scraper name each came from. Keys are
/// unique; storing a key again replaces its menu.
#[derive(Debug, Clone, PartialEq)]
pub struct DayMenus {
    pub menus: Vec<(String, DayMenu)>,
}

/// The menus' contents: each key's characters with its menu.
pub open spec fn menu_views(ms: Seq<(String, DayMenu)>) -> Seq<(Seq<char>, DayMenu)> {
    ms.map_values(|p: (String, DayMenu)| (p.0@, p.1))
}

/// No two menus share a key.
pub open spec fn menu_keys_unique(mv: Seq<(Seq<char>, DayMenu)>) -> bool {
    forall|i: int, j: int| 0 <= i < j < mv.len() ==> (#[trigger] mv[i]).0 != (#[trigger] mv[j]).0
}

/// What storing a menu under a key does: replace the menu already under
/// that key, or append a new entry.
pub open spec fn spec_add_menu(
    mv: Seq<(Seq<char>, DayMenu)>,
    k: Seq<char>,
    v: DayMenu,
) -> Seq<(Seq<char>, DayMenu)> {
    if exists|i: int| 0 <= i < mv.len() && (#[trigger] mv[i]).0 == k {
        let i = choose|i: int| 0 <= i < mv.len() && (#[trigger] mv[i]).0 == k;
        mv.update(i, (k, v))
    } else {
        mv.push((k, v))
    }
}

/// The key with the suffix taken off its end, if it ends in the suffix;
/// otherwise the key itself.
pub open spec fn spec_strip_suffix(k: Seq<char>, suffix: Seq<char>) -> Seq<char> {
    if k.len() >= suffix.len() && k.skip(k.len() - suffix.len()) == suffix {
        k.take(k.len() - suffix.len())
    } else {
        k
    }
}

/// The menus re-keyed with the suffix stripped, entry by entry; entries
/// whose stripped keys collide resolve to the later one.
pub open spec fn spec_strip_all(
    mv: Seq<(Seq<char>, DayMenu)>,
    suffix: Seq<char>,
) -> Seq<(Seq<char>, DayMenu)>
    decreases mv.len(),
{
    if mv.len() == 0 {
        Seq::empty()
    } else {
        spec_add_menu(
            spec_strip_all(mv.drop_last(), suffix),
            spec_strip_suffix(mv.last().0, suffix),
            mv.last().1,
        )
    }
}

/// The key with the suffix stripped off its end, or unchanged.
fn strip_suffix_string(k: &String, suffix: &str) -> (r: String)
    ensures
        r@ == spec_strip_suffix(k@, suffix@),
{
    let kn = k.as_str().unicode_len();
    let sn = suffix.unicode_len();
    if kn >= sn {
        let tail = k.as_str().substring_char(kn - sn, kn);
        if tail.to_owned() == suffix.to_owned() {
            proof {
                assert(k@.skip(k@.len() - suffix@.len()) =~= k@.subrange(
                    kn - sn,
                    kn as int,
                ));
            }
            return k.as_str().substring_char(0, kn - sn).to_owned();
        }
        proof {
            assert(k@.skip(k@.len() - suffix@.len()) =~= k@.subrange(kn - sn, kn as int));
        }
        return k.clone();
    }
    k.clone()
}

impl DayMenus {
    /// The menus' invariant: keys unique.
    pub open spec fn wf(self) -> bool {
        menu_keys_unique(menu_views(self.menus@))
    }

    /// An empty set of menus.
    pub fn new() -> (m: DayMenus)
        ensures
            m.wf(),
            m.menus@ =~= Seq::<(String, DayMenu)>::empty(),
    {
        DayMenus { menus: Vec::new() }
    }

    /// Store a menu under a key, returning the menu previously stored
    /// under it, if any.
    pub fn add(&mut self, k: String, v: DayMenu) -> (prev: Option<DayMenu>)
        requires
            old(self).wf(),
        ensures
            final(self).wf(),
            menu_views(final(self).menus@) == spec_add_menu(menu_views(old(self).menus@), k@, v),
            match prev {
                Some(p) => exists|i: int|
                    0 <= i < old(self).menus@.len() && (#[trigger] old(self).menus@[i]).0@ == k@
                        && p == old(self).menus@[i].1,
                None => forall|i: int|
                    0 <= i < old(self).menus@.len() ==> (#[trigger] old(self).menus@[i]).0@ != k@,
            },
    {
        let ghost mv = menu_views(self.menus@);
        let mut i: usize = 0;
        while i < self.menus.len()
            invariant
                i <= self.menus@.len(),
                *self == *old(self),
                mv == menu_views(self.menus@),
                menu_keys_unique(mv),
                forall|j: int| 0 <= j < i ==> (#[trigger] mv[j]).0 != k@,
            decreases self.menus@.len() - i,
        {
            if self.menus[i].0 == k {
                proof {
                    assert(mv[i as int].0 == k@);
                    let w = choose|w: int| 0 <= w < mv.len() && (#[trigger] mv[w]).0 == k@;
                    assert(w == i as int) by {
                        if w != i as int {
                            assert(mv[w].0 != mv[i as int].0);
                        }
                    }
                }
                let mut entry = (k, v);
                self.menus.set_and_swap(i, &mut entry);
                proof {
                    assert(menu_views(self.menus@) =~= spec_add_menu(mv, k@, v));
                    assert(menu_keys_unique(menu_views(self.menus@))) by {
                        let nv = menu_views(self.menus@);
                        assert forall|a: int, b: int| 0 <= a < b < nv.len() implies (
                        #[trigger] nv[a]).0 != (#[trigger] nv[b]).0 by {
                            assert(mv[a].0 != mv[b].0);
                        }
                    }
                }
                proof {
                    assert(entry == old(self).menus@[i as int]);
                }
                return Some(entry.1);
            }
            i = i + 1;
        }
        proof {
            assert forall|j: int| 0 <= j < old(self).menus@.len() implies (#[trigger] old(
                self,
            ).menus@[j]).0@ != k@ by {
                assert(mv[j].0 == old(self).menus@[j].0@);
            }
        }
        self.menus.push((k, v));
        proof {
            assert(!(exists|w: int| 0 <= w < mv.len() && (#[trigger] mv[w]).0 == k@)) by {
                if exists|w: int| 0 <= w < mv.len() && (#[trigger] mv[w]).0 == k@ {
                    let w = choose|w: int| 0 <= w < mv.len() && (#[trigger] mv[w]).0 == k@;
                    assert(mv[w].0 != k@);
                }
            }
            assert(menu_views(self.menus@) =~= spec_add_menu(mv, k@, v));
            assert(menu_keys_unique(menu_views(self.menus@))) by {
                let nv = menu_views(self.menus@);
                assert forall|a: int, b: int| 0 <= a < b < nv.len() implies (#[trigger] nv[a]).0
                    != (#[trigger] nv[b]).0 by {
                    if b < mv.len() {
                        assert(mv[a].0 != mv[b].0);
                    } else {
                        assert(nv[a] == mv[a]);
                        assert(nv[b].0 == k@);
                        assert(mv[a].0 != k@);
                    }
                }
            }
        }
        None
    }

    /// The menus re-keyed with the given suffix stripped from every key
    /// that ends in it. The day documents key menus by scraper name; the
    /// suffix strips that decoration off.
    pub fn strip_key_suffix(self, suffix: &str) -> (r: DayMenus)
        requires
            self.wf(),
        ensures
            r.wf(),
            menu_views(r.menus@) == spec_strip_all(menu_views(self.menus@), suffix@),
    {
        let ghost mv = menu_views(self.menus@);
        let mut out = DayMenus::new();
        let mut ms = self.menus;
        let ghost mut k: int = 0;
        proof {
            assert(ms@ =~= self.menus@.skip(0));
            assert(menu_views(self.menus@.take(0)) =~= Seq::<(Seq<char>, DayMenu)>::empty());
        }
        while ms.len() > 0
            invariant
                0 <= k <= self.menus@.len(),
                ms@ == self.menus@.skip(k),
                out.wf(),
                menu_views(out.menus@) == spec_strip_all(
                    menu_views(self.menus@.take(k)),
                    suffix@,
                ),
            decreases self.menus@.len() - k,
        {
            let entry = ms.remove(0);
            proof {
                assert(self.menus@.skip(k)[0] == self.menus@[k]);
                assert(self.menus@.skip(k).remove(0) =~= self.menus@.skip(k + 1));
                assert(menu_views(self.menus@.take(k + 1)).drop_last() =~= menu_views(
                    self.menus@.take(k),
                ));
                assert(menu_views(self.menus@.take(k + 1)).last() == (self.menus@[k].0@, self
                    .menus@[k].1));
            }
            let stripped = strip_suffix_string(&entry.0, suffix);
            out.add(stripped, entry.1);
            proof {
                k = k + 1;
            }
        }
        proof {
            assert(self.menus@.take(self.menus@.len() as int) =~= self.menus@);
        }
        out
    }
}

/// Whether the dish is the faithful conversion of the menu item for the
/// given restaurant: the name and tags carried over, the category and
/// description kept only when present, the price read as
/// [`spec_parse_price`] reads it, and the dish parented under the
/// restaurant. The dish's own identifier is drawn fresh.
pub open spec fn dish_matches_item(d: Dish, it: MenuItem, rid: u128) -> bool {
    &&& d.restaurant_id == rid
    &&& d.name@ == it.name@
    &&& d.tags@ == it.tags@
    &&& (if it.category@.len() == 0 {
        d.comment is None
    } else {
        d.comment matches Some(c) && c@ == it.category@
    })
    &&& (if it.description@.len() == 0 {
        d.description is None
    } else {
        d.description matches Some(ds) && ds@ == it.description@
    })
    &&& d.price == spec_parse_price(it.price@)
}

/// One menu item as a dish of the given restaurant, as
/// [`dish_matches_item`] describes.
pub fn dish_from_item(item: MenuItem, restaurant_id: u128) -> (d: Dish)
    ensures
        dish_matches_item(d, item, restaurant_id),
{
    let price = parse_price(item.price.as_str());
    let comment = if item.category.as_str().is_empty() {
        None
    } else {
        Some(item.category)
    };
    let description = if item.description.as_str().is_empty() {
        None
    } else {
        Some(item.description)
    };
    let d = Dish::new(item.name.as_str());
    Dish { restaurant_id, comment, description, tags: item.tags, price, ..d }
}

/// Each menu item of one day's menu as a dish of the given restaurant, in
/// order.
pub fn dishes_from_items(items: Vec<MenuItem>, restaurant_id: u128) -> (ds: Vec<Dish>)
    ensures
        ds@.len() == items@.len(),
        forall|t: int|
            0 <= t < items@.len() ==> dish_matches_item(
                #[trigger] ds@[t],
                items@[t],
                restaurant_id,
            ),
{
    let ghost all = items@;
    let mut ds: Vec<Dish> = Vec::new();
    let mut items = items;
    let ghost mut k: int = 0;
    proof {
        assert(items@ =~= all.skip(0));
    }
    while items.len() > 0
        invariant
            0 <= k <= all.len(),
            items@ == all.skip(k),
            ds@.len() == k,
            forall|t: int|
                0 <= t < k ==> dish_matches_item(#[trigger] ds@[t], all[t], restaurant_id),
        decreases all.len() - k,
    {
        let item = items.remove(0);
        proof {
            assert(all.skip(k)[0] == all[k]);
            assert(all.skip(k).remove(0) =~= all.skip(k + 1));
        }
        let d = dish_from_item(item, restaurant_id);
        ds.push(d);
        proof {
            k = k + 1;
        }
    }
    ds
}

/// The site's restaurants as scraped from the directory document: one
/// fresh restaurant per link entry, in order, carrying its homepage and
/// map links. The site is only a container for the scrape — it is not
/// itself inserted anywhere.
pub fn construct_initial_site(site_id: u128, links: Vec<(String, RestaurantLink)>) -> (s: Site)
    ensures
        s.site_id == site_id,
        s.restaurants@.len() == links@.len(),
        forall|i: int|
            0 <= i < links@.len() ==> {
                let r = #[trigger] s.restaurants@[i];
                &&& r.site_id == site_id
                &&& r.name@ == links@[i].0@
                &&& (r.url matches Some(u) && u@ == links@[i].1.url@)
                &&& (r.map_url matches Some(m) && m@ == links@[i].1.map@)
                &&& r.dishes@.len() == 0
            },
{
    let ghost all = links@;
    let mut site = Site {
        site_id,
        city_id: 0,
        name: String::new(),
        url_id: String::new(),
        comment: None,
        restaurants: Vec::new(),
    };
    let mut links = links;
    let ghost mut k: int = 0;
    proof {
        assert(links@ =~= all.skip(0));
    }
    while links.len() > 0
        invariant
            0 <= k <= all.len(),
            links@ == all.skip(k),
            site.site_id == site_id,
            site.restaurants@.len() == k,
            forall|i: int|
                0 <= i < k ==> {
                    let r = #[trigger] site.restaurants@[i];
                    &&& r.site_id == site_id
                    &&& r.name@ == all[i].0@
                    &&& (r.url matches Some(u) && u@ == all[i].1.url@)
                    &&& (r.map_url matches Some(m) && m@ == all[i].1.map@)
                    &&& r.dishes@.len() == 0
                },
        decreases all.len() - k,
    {
        let entry = links.remove(0);
        proof {
            assert(all.skip(k)[0] == all[k]);
            assert(all.skip(k).remove(0) =~= all.skip(k + 1));
        }
        let r = Restaurant::new_for_site(entry.0.as_str(), site_id);
        let r = Restaurant { url: Some(entry.1.url), map_url: Some(entry.1.map), ..r };
        site.restaurants.push(r);
        proof {
            k = k + 1;
        }
    }
    site
}

/// Join the day's menus onto the site's restaurants by name: each menu
/// whose key names a restaurant hands its items to that restaurant as
/// dishes, appended in order; a menu naming no restaurant is skipped.
pub fn merge_menus(site: &mut Site, menus: DayMenus)
    requires
        menus.wf(),
        forall|i: int, j: int|
            0 <= i < j < old(site).restaurants@.len() ==> (#[trigger] old(
                site,
            ).restaurants@[i]).name@ != (#[trigger] old(site).restaurants@[j]).name@,
    ensures
        *final(site) == (Site { restaurants: final(site).restaurants, ..*old(site) }),
        final(site).restaurants@.len() == old(site).restaurants@.len(),
        forall|i: int|
            0 <= i < old(site).restaurants@.len() ==> (#[trigger] final(site).restaurants@[i]) == (
            Restaurant {
                dishes: final(site).restaurants@[i].dishes,
                ..old(site).restaurants@[i]
            }) && ((exists|j: int|
                0 <= j < menus.menus@.len() && (#[trigger] menus.menus@[j]).0@ == old(
                    site,
                ).restaurants@[i].name@ && extended_by_menu(
                    final(site).restaurants@[i].dishes@,
                    old(site).restaurants@[i].dishes@,
                    menus.menus@[j].1,
                    old(site).restaurants@[i].restaurant_id,
                )) || ((forall|j: int|
                0 <= j < menus.menus@.len() ==> (#[trigger] menus.menus@[j]).0@ != old(
                    site,
                ).restaurants@[i].name@) && final(site).restaurants@[i].dishes@ == old(
                site,
            ).restaurants@[i].dishes@)),
{
    let ghost orig = site.restaurants@;
    let ghost allm = menus.menus@;
    let mut ms = menus.menus;
    let ghost mut k: int = 0;
    proof {
        assert(ms@ =~= allm.skip(0));
    }
    while ms.len() > 0
        invariant
            0 <= k <= allm.len(),
            ms@ == allm.skip(k),
            site.restaurants@.len() == orig.len(),
            *site == (Site { restaurants: site.restaurants, ..*old(site) }),
            menu_keys_unique(menu_views(allm)),
            forall|i: int, j: int|
                0 <= i < j < orig.len() ==> (#[trigger] orig[i]).name@ != (
                #[trigger] orig[j]).name@,
            forall|i: int|
                0 <= i < orig.len() ==> (#[trigger] site.restaurants@[i]) == (Restaurant {
                    dishes: site.restaurants@[i].dishes,
                    ..orig[i]
                }) && ((exists|j: int|
                    0 <= j < k && (#[trigger] allm[j]).0@ == orig[i].name@ && extended_by_menu(
                        site.restaurants@[i].dishes@,
                        orig[i].dishes@,
                        allm[j].1,
                        orig[i].restaurant_id,
                    )) || ((forall|j: int| 0 <= j < k ==> (#[trigger] allm[j]).0@ != orig[i].name@)
                    && site.restaurants@[i].dishes@ == orig[i].dishes@)),
        decreases allm.len() - k,
    {
        let entry = ms.remove(0);
        proof {
            assert(allm.skip(k)[0] == allm[k]);
            assert(allm.skip(k).remove(0) =~= allm.skip(k + 1));
        }
        let ghost pre = site.restaurants@;
        let mut i: usize = 0;
        let mut placed = false;
        while i < site.restaurants.len() && !placed
            invariant
                i <= site.restaurants@.len(),
                site.restaurants@ == pre,
                site.restaurants@.len() == orig.len(),
                entry.0@ == allm[k].0@,
                0 <= k < allm.len(),
                forall|x: int|
                    0 <= x < orig.len() ==> (#[trigger] site.restaurants@[x]).name@
                        == orig[x].name@,
                forall|j: int| 0 <= j < i ==> (#[trigger] orig[j]).name@ != entry.0@,
                placed ==> i < orig.len() && orig[i as int].name@ == entry.0@,
            decreases site.restaurants@.len() - i + (if placed {
                0int
            } else {
                1int
            }),
        {
            if site.restaurants[i].name == entry.0 {
                placed = true;
            } else {
                i = i + 1;
            }
        }
        if placed {
            let ghost t = i as int;
            proof {
                // this restaurant matched no earlier menu: keys are unique
                assert(site.restaurants@[t].dishes@ == orig[t].dishes@) by {
                    if exists|j: int|
                        0 <= j < k && (#[trigger] allm[j]).0@ == orig[t].name@
                            && extended_by_menu(
                            site.restaurants@[t].dishes@,
                            orig[t].dishes@,
                            allm[j].1,
                            orig[t].restaurant_id,
                        ) {
                        let j = choose|j: int|
                            0 <= j < k && (#[trigger] allm[j]).0@ == orig[t].name@
                                && extended_by_menu(
                                site.restaurants@[t].dishes@,
                                orig[t].dishes@,
                                allm[j].1,
                                orig[t].restaurant_id,
                            );
                        assert(menu_views(allm)[j].0 == menu_views(allm)[k].0);
                    }
                }
            }
            let rid = site.restaurants[i].restaurant_id;
            let mut fresh = dishes_from_items(entry.1.items, rid);
            let ghost freshv = fresh@;
            let r = vstd::std_specs::vec::vec_index_mut(&mut site.restaurants, i);
            r.dishes.append(&mut fresh);
            proof {
                assert(site.restaurants@ == pre.update(t, site.restaurants@[t]));
                assert(site.restaurants@[t].dishes@ == orig[t].dishes@ + freshv);
                assert(rid == orig[t].restaurant_id);
                assert(extended_by_menu(
                    site.restaurants@[t].dishes@,
                    orig[t].dishes@,
                    allm[k].1,
                    orig[t].restaurant_id,
                )) by {
                    assert((orig[t].dishes@ + freshv).take(orig[t].dishes@.len() as int)
                        =~= orig[t].dishes@);
                }
                assert forall|x: int| 0 <= x < orig.len() implies (
                #[trigger] site.restaurants@[x]) == (Restaurant {
                    dishes: site.restaurants@[x].dishes,
                    ..orig[x]
                }) && ((exists|j: int|
                    0 <= j < k + 1 && (#[trigger] allm[j]).0@ == orig[x].name@
                        && extended_by_menu(
                        site.restaurants@[x].dishes@,
                        orig[x].dishes@,
                        allm[j].1,
                        orig[x].restaurant_id,
                    )) || ((forall|j: int|
                    0 <= j < k + 1 ==> (#[trigger] allm[j]).0@ != orig[x].name@)
                    && site.restaurants@[x].dishes@ == orig[x].dishes@)) by {
                    if x == t {
                        assert(allm[k].0@ == orig[t].name@);
                    } else {
                        assert(site.restaurants@[x] == pre[x]);
                        assert(orig[x].name@ != orig[t].name@);
                        assert(allm[k].0@ != orig[x].name@);
                    }
                }
            }
        } else {
            proof {
                assert forall|x: int| 0 <= x < orig.len() implies (
                #[trigger] site.restaurants@[x]) == (Restaurant {
                    dishes: site.restaurants@[x].dishes,
                    ..orig[x]
                }) && ((exists|j: int|
                    0 <= j < k + 1 && (#[trigger] allm[j]).0@ == orig[x].name@
                        && extended_by_menu(
                        site.restaurants@[x].dishes@,
                        orig[x].dishes@,
                        allm[j].1,
                        orig[x].restaurant_id,
                    )) || ((forall|j: int|
                    0 <= j < k + 1 ==> (#[trigger] allm[j]).0@ != orig[x].name@)
                    && site.restaurants@[x].dishes@ == orig[x].dishes@)) by {
                    assert(orig[x].name@ != entry.0@);
                }
            }
        }
        proof {
            k = k + 1;
        }
    }
}

/// Whether `new` is `old` with one day menu's items appended as dishes of
/// the restaurant, in order.
pub open spec fn extended_by_menu(new: Seq<Dish>, old: Seq<Dish>, menu: DayMenu, rid: u128) -> bool {
    &&& new.len() == old.len() + menu.items@.len()
    &&& new.take(old.len() as int) == old
    &&& forall|t: int|
        0 <= t < menu.items@.len() ==> dish_matches_item(
            #[trigger] new[old.len() + t],
            menu.items@[t],
            rid,
        )
}

/// The days a menu document can exist for.
#[derive(Debug, Clone, Copy, PartialEq, Eq, Structural)]
pub enum Weekday {
    Monday,
    Tuesday,
    Wednesday,
    Thursday,
    Friday,
    Saturday,
    Sunday,
}

/// The weekday's lowercase English name.
pub open spec fn spec_weekday_name(wd: Weekday) -> Seq<char> {
    match wd {
        Weekday::Monday => "monday"@,
        Weekday::Tuesday => "tuesday"@,
        Weekday::Wednesday => "wednesday"@,
        Weekday::Thursday => "thursday"@,
        Weekday::Friday => "friday"@,
        Weekday::Saturday => "saturday"@,
        Weekday::Sunday => "sunday"@,
    }
}

/// The weekday's lowercase English name.
pub fn get_weekday_name(wd: Weekday) -> (r: &'static str)
    ensures
        r@ == spec_weekday_name(wd),
{
    match wd {
        Weekday::Monday => "monday",
        Weekday::Tuesday => "tuesday",
        Weekday::Wednesday => "wednesday",
        Weekday::Thursday => "thursday",
        Weekday::Friday => "friday",
        Weekday::Saturday => "saturday",
        Weekday::Sunday => "sunday",
    }
}

/// The URL of the day's menu document. Documents exist only for Monday to
/// Friday; a miss on other days surfaces as an ordinary fetch error and is
/// handled there.
pub fn get_json_url_for_day(wd: Weekday) -> (r: String)
    ensures
        r@ == "https://github.com/Fawenah/lindholmen_lunch/raw/refs/heads/main/data/lunch_data_"@
            + spec_weekday_name(wd) + ".json"@,
{
    let name = get_weekday_name(wd);
    let base = "https://github.com/Fawenah/lindholmen_lunch/raw/refs/heads/main/data/lunch_data_"
        .to_owned();
    base.concat(name).concat(".json")
}

} // verus!
