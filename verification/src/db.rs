//! The persistence side of scraping: addressing a site by its URL path
//! components, and the upsert-by-replace rule a scrape result applies to
//! the restaurant table. The store here is the table as the transactional
//! contract sees it; how it is kept (SQL or otherwise) is the caller's
//! business — only the per-result effect is fixed.

use crate::models::Restaurant;
use crate::scrape::SiteScrapeResult;
use vstd::prelude::*;

verus! {

/// How deep into the hierarchy a [`SiteKey`] reaches.
#[derive(Debug, Clone, Copy, PartialEq, Eq, Structural)]
pub enum SiteKeyLevel {
    Empty,
    Country,
    City,
    Site,
}

/// A site addressed by the URL identifiers of its country, city and site,
/// outermost first. Empty components shorten the key's reach.
#[derive(Debug, Clone, PartialEq)]
pub struct SiteKey {
    pub country_url_id: String,
    pub city_url_id: String,
    pub site_url_id: String,
}

impl SiteKey {
    /// A key from its three components.
    pub fn new(country_url_id: &str, city_url_id: &str, site_url_id: &str) -> (k: SiteKey)
        ensures
            k.country_url_id@ == country_url_id@,
            k.city_url_id@ == city_url_id@,
            k.site_url_id@ == site_url_id@,
    {
        SiteKey {
            country_url_id: country_url_id.to_owned(),
            city_url_id: city_url_id.to_owned(),
            site_url_id: site_url_id.to_owned(),
        }
    }

    /// The level this key addresses: the deepest one whose component — and
    /// all components above it — are present.
    pub fn level(&self) -> (l: SiteKeyLevel)
        ensures
            l == (if self.country_url_id@.len() > 0 && self.city_url_id@.len() > 0
                && self.site_url_id@.len() > 0 {
                SiteKeyLevel::Site
            } else if self.country_url_id@.len() > 0 && self.city_url_id@.len() > 0 {
                SiteKeyLevel::City
            } else if self.country_url_id@.len() > 0 {
                SiteKeyLevel::Country
            } else {
                SiteKeyLevel::Empty
            }),
    {
        if !self.country_url_id.as_str().is_empty() && !self.city_url_id.as_str().is_empty()
            && !self.site_url_id.as_str().is_empty() {
            return SiteKeyLevel::Site;
        } else if !self.country_url_id.as_str().is_empty()
            && !self.city_url_id.as_str().is_empty() {
            return SiteKeyLevel::City;
        } else if !self.country_url_id.as_str().is_empty() {
            return SiteKeyLevel::Country;
        }
        SiteKeyLevel::Empty
    }
}

/// The resolved identity of a site key: the identifiers of its country,
/// city and site rows. Levels the key does not reach stay zero.
#[derive(Debug, Clone, Copy, PartialEq, Eq, Structural, Default)]
pub struct SiteRelation {
    pub country_id: u128,
    pub city_id: u128,
    pub site_id: u128,
}

impl SiteRelation {
    /// Whether the lookup resolved nothing: every identifier is zero. A
    /// caller treats an empty relation as "row not found".
    pub fn empty(&self) -> (r: bool)
        ensures
            r == (self.country_id == 0 && self.city_id == 0 && self.site_id == 0),
    {
        self.country_id == 0 && self.city_id == 0 && self.site_id == 0
    }
}

/// The identifiers of the given restaurants, in order.
pub fn get_restaurant_ids(restaurants: &Vec<Restaurant>) -> (ids: Vec<u128>)
    ensures
        ids@ == restaurants@.map_values(|r: Restaurant| r.restaurant_id),
{
    let mut ids: Vec<u128> = Vec::with_capacity(restaurants.len());
    let mut i: usize = 0;
    proof {
        assert(ids@ =~= restaurants@.take(0).map_values(|r: Restaurant| r.restaurant_id));
    }
    while i < restaurants.len()
        invariant
            i <= restaurants@.len(),
            ids@ == restaurants@.take(i as int).map_values(|r: Restaurant| r.restaurant_id),
        decreases restaurants@.len() - i,
    {
        ids.push(restaurants[i].restaurant_id);
        proof {
            assert(ids@ =~= restaurants@.take(i + 1).map_values(
                |r: Restaurant| r.restaurant_id,
            ));
        }
        i = i + 1;
    }
    proof {
        assert(restaurants@.take(restaurants@.len() as int) =~= restaurants@);
    }
    ids
}

/// Whether `x` occupies the same slot as `r`: the same site and the same
/// restaurant name. The slot, not the identifier, is a restaurant's
/// persistent identity — identifiers are drawn fresh on every scrape.
pub open spec fn same_slot(x: Restaurant, r: Restaurant) -> bool {
    x.site_id == r.site_id && x.name@ == r.name@
}

/// Whether `x` occupies the slot of any restaurant in `rs`.
pub open spec fn matches_any(x: Restaurant, rs: Seq<Restaurant>) -> bool {
    exists|i: int| 0 <= i < rs.len() && same_slot(x, #[trigger] rs[i])
}

/// The stored restaurants with every occupant of `r`'s slot deleted,
/// order kept.
pub open spec fn drop_slot(s: Seq<Restaurant>, r: Restaurant) -> Seq<Restaurant>
    decreases s.len(),
{
    if s.len() == 0 {
        Seq::empty()
    } else {
        let rest = drop_slot(s.drop_last(), r);
        if same_slot(s.last(), r) {
            rest
        } else {
            rest.push(s.last())
        }
    }
}

/// The stored restaurants with every occupant of any of `rs`'s slots
/// deleted, order kept.
pub open spec fn drop_slots(s: Seq<Restaurant>, rs: Seq<Restaurant>) -> Seq<Restaurant>
    decreases s.len(),
{
    if s.len() == 0 {
        Seq::empty()
    } else {
        let rest = drop_slots(s.drop_last(), rs);
        if matches_any(s.last(), rs) {
            rest
        } else {
            rest.push(s.last())
        }
    }
}

/// Upserting one restaurant: delete any existing occupant of its slot,
/// then insert the fresh restaurant at the end.
pub open spec fn apply_one(s: Seq<Restaurant>, r: Restaurant) -> Seq<Restaurant> {
    drop_slot(s, r).push(r)
}

/// Applying a whole result: its restaurants upserted one at a time, in
/// order.
pub open spec fn apply_result(s: Seq<Restaurant>, rs: Seq<Restaurant>) -> Seq<Restaurant>
    decreases rs.len(),
{
    if rs.len() == 0 {
        s
    } else {
        apply_result(apply_one(s, rs[0]), rs.drop_first())
    }
}

/// Of the restaurants in a result, those whose slot is not taken again
/// later in the result: the occupants that survive applying it.
pub open spec fn surviving(rs: Seq<Restaurant>) -> Seq<Restaurant>
    decreases rs.len(),
{
    if rs.len() == 0 {
        Seq::empty()
    } else if matches_any(rs[0], rs.drop_first()) {
        surviving(rs.drop_first())
    } else {
        seq![rs[0]] + surviving(rs.drop_first())
    }
}

/// A slot found among later restaurants is a slot of the whole result.
proof fn lemma_matches_any_widen(x: Restaurant, rs: Seq<Restaurant>)
    requires
        rs.len() > 0,
        same_slot(x, rs[0]) || matches_any(x, rs.drop_first()),
    ensures
        matches_any(x, rs),
{
    if same_slot(x, rs[0]) {
        assert(same_slot(x, rs[0]));
    } else {
        let i = choose|i: int|
            0 <= i < rs.drop_first().len() && same_slot(x, #[trigger] rs.drop_first()[i]);
        assert(same_slot(x, rs[i + 1]));
    }
}

/// Deleting the slots of an empty result deletes nothing.
proof fn lemma_drop_slots_none(s: Seq<Restaurant>, rs: Seq<Restaurant>)
    requires
        rs.len() == 0,
    ensures
        drop_slots(s, rs) == s,
    decreases s.len(),
{
    if s.len() > 0 {
        lemma_drop_slots_none(s.drop_last(), rs);
        assert(!matches_any(s.last(), rs));
        assert(drop_slots(s, rs) =~= s);
    }
}

/// Deleting slots from a sequence ending in `y` deletes slots from the
/// front and then keeps or drops `y`.
proof fn lemma_drop_slots_push(a: Seq<Restaurant>, y: Restaurant, rs: Seq<Restaurant>)
    ensures
        drop_slots(a.push(y), rs) == (if matches_any(y, rs) {
            drop_slots(a, rs)
        } else {
            drop_slots(a, rs).push(y)
        }),
{
    assert(a.push(y).drop_last() =~= a);
    assert(a.push(y).last() == y);
}

/// Deleting one slot and then the rest of a result's slots deletes exactly
/// the whole result's slots.
proof fn lemma_drop_slot_then_slots(s: Seq<Restaurant>, rs: Seq<Restaurant>)
    requires
        rs.len() > 0,
    ensures
        drop_slots(drop_slot(s, rs[0]), rs.drop_first()) == drop_slots(s, rs),
    decreases s.len(),
{
    if s.len() > 0 {
        lemma_drop_slot_then_slots(s.drop_last(), rs);
        let x = s.last();
        if same_slot(x, rs[0]) {
            lemma_matches_any_widen(x, rs);
            assert(drop_slot(s, rs[0]) == drop_slot(s.drop_last(), rs[0]));
        } else {
            assert(drop_slot(s, rs[0]) == drop_slot(s.drop_last(), rs[0]).push(x));
            lemma_drop_slots_push(drop_slot(s.drop_last(), rs[0]), x, rs.drop_first());
            if matches_any(x, rs.drop_first()) {
                lemma_matches_any_widen(x, rs);
            } else {
                assert(!matches_any(x, rs)) by {
                    if matches_any(x, rs) {
                        let i = choose|i: int| 0 <= i < rs.len() && same_slot(x, #[trigger] rs[i]);
                        assert(i > 0);
                        assert(same_slot(x, rs.drop_first()[i - 1]));
                    }
                }
            }
        }
    }
}

/// What applying a result leaves in the store: the old occupants of the
/// result's slots replaced — the untouched rows in their old order,
/// followed by the result's surviving restaurants in result order.
pub proof fn lemma_apply_characterize(s: Seq<Restaurant>, rs: Seq<Restaurant>)
    ensures
        apply_result(s, rs) == drop_slots(s, rs) + surviving(rs),
    decreases rs.len(),
{
    if rs.len() == 0 {
        lemma_drop_slots_none(s, rs);
        assert(drop_slots(s, rs) + surviving(rs) =~= s);
    } else {
        let r = rs[0];
        let rest = rs.drop_first();
        lemma_apply_characterize(apply_one(s, r), rest);
        lemma_drop_slots_push(drop_slot(s, r), r, rest);
        lemma_drop_slot_then_slots(s, rs);
        if matches_any(r, rest) {
            assert(apply_result(s, rs) == drop_slots(s, rs) + surviving(rest));
        } else {
            assert(apply_result(s, rs) == drop_slots(s, rs).push(r) + surviving(rest));
            assert(drop_slots(s, rs).push(r) + surviving(rest) =~= drop_slots(s, rs) + (seq![r]
                + surviving(rest)));
        }
    }
}

/// Deleting slots from a concatenation deletes them from each part.
proof fn lemma_drop_slots_concat(a: Seq<Restaurant>, b: Seq<Restaurant>, rs: Seq<Restaurant>)
    ensures
        drop_slots(a + b, rs) == drop_slots(a, rs) + drop_slots(b, rs),
    decreases b.len(),
{
    if b.len() == 0 {
        assert(a + b =~= a);
        assert(drop_slots(a, rs) + drop_slots(b, rs) =~= drop_slots(a, rs));
    } else {
        assert(a + b =~= (a + b.drop_last()).push(b.last()));
        lemma_drop_slots_push(a + b.drop_last(), b.last(), rs);
        lemma_drop_slots_concat(a, b.drop_last(), rs);
        lemma_drop_slots_push(b.drop_last(), b.last(), rs);
        if matches_any(b.last(), rs) {
            assert(drop_slots(b, rs) == drop_slots(b.drop_last(), rs));
        } else {
            assert(drop_slots(a, rs) + drop_slots(b.drop_last(), rs).push(b.last()) =~= (
            drop_slots(a, rs) + drop_slots(b.drop_last(), rs)).push(b.last()));
        }
    }
}

/// Nothing that survives a slot deletion occupies a deleted slot.
proof fn lemma_drop_slots_clean(s: Seq<Restaurant>, rs: Seq<Restaurant>)
    ensures
        forall|j: int|
            0 <= j < drop_slots(s, rs).len() ==> !matches_any(
                #[trigger] drop_slots(s, rs)[j],
                rs,
            ),
    decreases s.len(),
{
    if s.len() > 0 {
        lemma_drop_slots_clean(s.drop_last(), rs);
        let rest = drop_slots(s.drop_last(), rs);
        assert forall|j: int| 0 <= j < drop_slots(s, rs).len() implies !matches_any(
            #[trigger] drop_slots(s, rs)[j],
            rs,
        ) by {
            if matches_any(s.last(), rs) {
                assert(drop_slots(s, rs)[j] == rest[j]);
            } else {
                if j < rest.len() {
                    assert(drop_slots(s, rs)[j] == rest[j]);
                } else {
                    assert(drop_slots(s, rs)[j] == s.last());
                }
            }
        }
    }
}

/// Deleting slots that no element occupies deletes nothing.
proof fn lemma_drop_slots_id(t: Seq<Restaurant>, rs: Seq<Restaurant>)
    requires
        forall|j: int| 0 <= j < t.len() ==> !matches_any(#[trigger] t[j], rs),
    ensures
        drop_slots(t, rs) == t,
    decreases t.len(),
{
    if t.len() > 0 {
        assert(forall|j: int|
            0 <= j < t.drop_last().len() ==> !matches_any(#[trigger] t.drop_last()[j], rs));
        lemma_drop_slots_id(t.drop_last(), rs);
        assert(!matches_any(t[t.len() - 1], rs));
        assert(drop_slots(t, rs) =~= t);
    }
}

/// Deleting slots that every element occupies deletes everything.
proof fn lemma_drop_slots_all(t: Seq<Restaurant>, rs: Seq<Restaurant>)
    requires
        forall|j: int| 0 <= j < t.len() ==> matches_any(#[trigger] t[j], rs),
    ensures
        drop_slots(t, rs) == Seq::<Restaurant>::empty(),
    decreases t.len(),
{
    if t.len() > 0 {
        assert(forall|j: int|
            0 <= j < t.drop_last().len() ==> matches_any(#[trigger] t.drop_last()[j], rs));
        lemma_drop_slots_all(t.drop_last(), rs);
        assert(matches_any(t[t.len() - 1], rs));
    }
}

/// Every surviving restaurant of a result occupies one of its slots.
proof fn lemma_surviving_match(rs: Seq<Restaurant>)
    ensures
        forall|j: int|
            0 <= j < surviving(rs).len() ==> matches_any(#[trigger] surviving(rs)[j], rs),
    decreases rs.len(),
{
    if rs.len() > 0 {
        let rest = rs.drop_first();
        lemma_surviving_match(rest);
        assert forall|j: int| 0 <= j < surviving(rs).len() implies matches_any(
            #[trigger] surviving(rs)[j],
            rs,
        ) by {
            if matches_any(rs[0], rest) {
                assert(surviving(rs)[j] == surviving(rest)[j]);
                lemma_matches_any_widen(surviving(rest)[j], rs);
            } else {
                if j == 0 {
                    assert(surviving(rs)[0] == rs[0]);
                    assert(same_slot(rs[0], rs[0]));
                    lemma_matches_any_widen(rs[0], rs);
                } else {
                    assert(surviving(rs)[j] == surviving(rest)[j - 1]);
                    lemma_matches_any_widen(surviving(rest)[j - 1], rs);
                }
            }
        }
    }
}

/// Applying the same scrape result twice in a row
/// leaves the stored restaurant set exactly as applying it once does — the
/// second application deletes precisely what the first inserted and inserts
/// it again.
pub proof fn lemma_apply_idempotent(s: Seq<Restaurant>, rs: Seq<Restaurant>)
    ensures
        apply_result(apply_result(s, rs), rs) == apply_result(s, rs),
{
    lemma_apply_characterize(s, rs);
    let d = drop_slots(s, rs);
    let l = surviving(rs);
    lemma_apply_characterize(d + l, rs);
    lemma_drop_slots_concat(d, l, rs);
    lemma_drop_slots_clean(s, rs);
    lemma_drop_slots_id(d, rs);
    lemma_surviving_match(rs);
    lemma_drop_slots_all(l, rs);
    assert(drop_slots(d + l, rs) == d + Seq::<Restaurant>::empty());
    assert(d + Seq::<Restaurant>::empty() =~= d);
}

/// The restaurant table of the backing store.
#[derive(Debug, Clone, PartialEq)]
pub struct SiteStore {
    pub restaurants: Vec<Restaurant>,
}

impl SiteStore {
    /// An empty store.
    pub fn new() -> (s: SiteStore)
        ensures
            s.restaurants@ =~= Seq::<Restaurant>::empty(),
    {
        SiteStore { restaurants: Vec::new() }
    }
}

/// Delete every stored occupant of `r`'s slot, then insert `r`.
fn upsert_restaurant(store: &mut SiteStore, r: Restaurant)
    ensures
        final(store).restaurants@ == apply_one(old(store).restaurants@, r),
{
    let ghost orig = store.restaurants@;
    let mut kept: Vec<Restaurant> = Vec::new();
    let ghost mut k: int = 0;
    proof {
        assert(kept@ =~= drop_slot(orig.take(0), r));
        assert(store.restaurants@ =~= orig.skip(0));
    }
    while store.restaurants.len() > 0
        invariant
            0 <= k <= orig.len(),
            store.restaurants@ == orig.skip(k),
            kept@ == drop_slot(orig.take(k), r),
        decreases orig.len() - k,
    {
        let x = store.restaurants.remove(0);
        proof {
            assert(orig.skip(k)[0] == orig[k]);
            assert(orig.skip(k).remove(0) =~= orig.skip(k + 1));
            assert(orig.take(k + 1).drop_last() =~= orig.take(k));
            assert(orig.take(k + 1).last() == orig[k]);
        }
        if !(x.site_id == r.site_id && x.name == r.name) {
            kept.push(x);
        }
        proof {
            assert(kept@ =~= drop_slot(orig.take(k + 1), r));
            k = k + 1;
        }
    }
    proof {
        assert(orig.take(orig.len() as int) =~= orig);
    }
    kept.push(r);
    store.restaurants = kept;
}

/// Apply one scrape result to the store, as one transaction would: for each
/// restaurant in the result, in order, delete any existing restaurant at
/// that site with the same name, then insert the fresh restaurant with all
/// its dishes.
pub fn update_restaurants(store: &mut SiteStore, update: SiteScrapeResult)
    ensures
        final(store).restaurants@ == apply_result(old(store).restaurants@, update.restaurants@),
{
    let ghost orig = old(store).restaurants@;
    let ghost all = update.restaurants@;
    let mut rs = update.restaurants;
    let ghost mut k: int = 0;
    proof {
        assert(rs@ =~= all.skip(0));
    }
    while rs.len() > 0
        invariant
            0 <= k <= all.len(),
            rs@ == all.skip(k),
            apply_result(orig, all) == apply_result(store.restaurants@, rs@),
        decreases all.len() - k,
    {
        let r = rs.remove(0);
        proof {
            assert(all.skip(k)[0] == all[k]);
            assert(all.skip(k).remove(0) =~= all.skip(k + 1));
            assert(all.skip(k).drop_first() =~= all.skip(k + 1));
        }
        upsert_restaurant(store, r);
        proof {
            k = k + 1;
        }
    }
    proof {
        assert(rs@.len() == 0);
        assert(apply_result(store.restaurants@, rs@) == store.restaurants@);
    }
}

} // verus!
