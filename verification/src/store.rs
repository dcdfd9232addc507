//! The shop store: an in-memory table of shop records with the four
//! persistence operations of the service — range query, fuzzy-search query,
//! insert and update.
//!
//! The store owns all persistent data. It assigns each new record a fresh
//! identifier and a timestamp, enforces its constraints (a nonempty title
//! and in-bounds coordinates), answers proximity queries with the spherical
//! within-distance predicate of [`crate::geo`], and answers fuzzy queries
//! with the trigram similarity of [`crate::text`], sorted by title
//! descending and capped at five rows.
//!
//! Updates identify their row by exact equality of `(title, location)`, not
//! by identifier, and set only the contact URL: the submitted donation URL
//! is dropped by the update path. That asymmetry is a known quirk of the
//! write path and is preserved deliberately.

use crate::geo::{point_in_bounds, within_range, within_range_exec, GeoPoint};
use crate::text::{lex_le, lex_le_exec, similar, similar_exec};
use vstd::multiset::Multiset;
use vstd::prelude::*;
use vstd::seq_lib::*;
use vstd::utf8::encode_utf8;

verus! {

broadcast use vstd::set::group_set_axioms, vstd::seq::group_seq_axioms,
    vstd::seq_lib::group_seq_properties, vstd::multiset::group_multiset_axioms;

/// A persisted shop record.
#[derive(Debug)]
pub struct Shop {
    pub id: i32,
    pub title: String,
    pub url: Option<String>,
    pub donation_url: Option<String>,
    pub location: GeoPoint,
    pub last_edited: i64,
}

/// A shop submission: a record without the store-assigned fields.
#[derive(Debug)]
pub struct NewShop {
    pub title: String,
    pub url: Option<String>,
    pub donation_url: Option<String>,
    pub location: GeoPoint,
}

/// A store failure.
#[derive(Debug, PartialEq, Eq, Structural, Clone, Copy)]
pub enum DBError {
    /// No row matched an update's `(title, location)` key.
    NotFound,
    /// A submission broke a store constraint: empty title, out-of-bounds
    /// coordinates, or an exhausted identifier space.
    ConstraintViolation,
    /// A query's center point lies outside the coordinate ranges.
    BadCoordinates,
}

/// The mathematical value of a shop record.
pub struct ShopView {
    pub id: int,
    pub title: Seq<char>,
    pub url: Option<Seq<char>>,
    pub donation_url: Option<Seq<char>>,
    pub location: GeoPoint,
    pub last_edited: int,
}

/// The mathematical value of a submission.
pub struct NewShopView {
    pub title: Seq<char>,
    pub url: Option<Seq<char>>,
    pub donation_url: Option<Seq<char>>,
    pub location: GeoPoint,
}

/// The view of an optional string.
pub open spec fn opt_view(o: Option<String>) -> Option<Seq<char>> {
    match o {
        Some(s) => Some(s@),
        None => None,
    }
}

impl View for Shop {
    type V = ShopView;

    open spec fn view(&self) -> ShopView {
        ShopView {
            id: self.id as int,
            title: self.title@,
            url: opt_view(self.url),
            donation_url: opt_view(self.donation_url),
            location: self.location,
            last_edited: self.last_edited as int,
        }
    }
}

impl View for NewShop {
    type V = NewShopView;

    open spec fn view(&self) -> NewShopView {
        NewShopView {
            title: self.title@,
            url: opt_view(self.url),
            donation_url: opt_view(self.donation_url),
            location: self.location,
        }
    }
}

/// The views of a sequence of records.
pub open spec fn views_of(shops: Seq<Shop>) -> Seq<ShopView> {
    shops.map_values(|s: Shop| s@)
}

/// Clones an optional string, keeping its view.
fn clone_opt_string(o: &Option<String>) -> (r: Option<String>)
    ensures
        opt_view(r) == opt_view(*o),
{
    match o {
        Some(s) => Some(s.clone()),
        None => None,
    }
}

impl Clone for Shop {
    /// A clone keeps the record's value.
    fn clone(&self) -> (r: Self)
        ensures
            r@ == self@,
    {
        Shop {
            id: self.id,
            title: self.title.clone(),
            url: clone_opt_string(&self.url),
            donation_url: clone_opt_string(&self.donation_url),
            location: self.location,
            last_edited: self.last_edited,
        }
    }
}

/// Relies on chrono's `Utc::now`, converted by `timestamp` to seconds
/// since the Unix epoch. The result depends on the wall clock, so nothing
/// is promised of it.
#[verifier::external_body]
fn current_timestamp() -> i64 {
    chrono::Utc::now().timestamp()
}

/// The store: every persisted record, and the next free identifier.
pub struct ShopStore {
    shops: Vec<Shop>,
    next_id: i32,
}

impl View for ShopStore {
    type V = Seq<ShopView>;

    closed spec fn view(&self) -> Seq<ShopView> {
        views_of(self.shops@)
    }
}

impl ShopStore {
    /// The identifier the next accepted insert will get.
    pub closed spec fn spec_next_id(&self) -> int {
        self.next_id as int
    }

    /// Well-formedness: identifiers are unique and below the next free
    /// one, coordinates are in bounds, titles are nonempty.
    pub closed spec fn wf(&self) -> bool {
        &&& forall|i: int| 0 <= i < self@.len() ==> (#[trigger] self@[i]).id < self.next_id as int
        &&& forall|i: int, j: int|
            0 <= i < j < self@.len() ==> self@[i].id != self@[j].id
        &&& forall|i: int| 0 <= i < self@.len() ==> point_in_bounds((#[trigger] self@[i]).location)
        &&& forall|i: int| 0 <= i < self@.len() ==> (#[trigger] self@[i]).title.len() > 0
    }

    /// An empty store.
    pub fn new() -> (s: ShopStore)
        ensures
            s.wf(),
            s@ == Seq::<ShopView>::empty(),
            s.spec_next_id() == 1,
    {
        let s = ShopStore { shops: Vec::new(), next_id: 1 };
        proof {
            assert(s@ =~= Seq::<ShopView>::empty());
        }
        s
    }

    /// How many records the store holds.
    pub fn len(&self) -> (n: usize)
        ensures
            n == self@.len(),
    {
        self.shops.len()
    }
}

/// Whether a submission passes the store's constraints against a store
/// whose next identifier is `next_id`.
pub open spec fn insert_accepted(n: NewShopView, next_id: int) -> bool {
    n.title.len() > 0 && point_in_bounds(n.location) && next_id < i32::MAX as int
}

/// The record an accepted submission becomes, apart from its timestamp.
pub open spec fn inserted_shop(s: ShopView, n: NewShopView, id: int) -> bool {
    s.id == id && s.title == n.title && s.url == n.url && s.donation_url == n.donation_url
        && s.location == n.location
}

/// Inserts a row. The store assigns the identifier and the timestamp; the
/// returned record carries the submitted fields unchanged — in particular
/// the submitted coordinates, exactly. Fails with `ConstraintViolation`
/// exactly when the submission breaks a store constraint.
pub fn insert_new_shop(store: &mut ShopStore, new_shop: &NewShop) -> (r: Result<Shop, DBError>)
    requires
        old(store).wf(),
    ensures
        final(store).wf(),
        insert_accepted(new_shop@, old(store).spec_next_id()) ==> match r {
            Ok(s) => inserted_shop(s@, new_shop@, old(store).spec_next_id()) && final(store)@
                == old(store)@.push(s@)
                && final(store).spec_next_id() == old(store).spec_next_id() + 1,
            Err(_) => false,
        },
        !insert_accepted(new_shop@, old(store).spec_next_id()) ==> r == Err::<
            Shop,
            DBError,
        >(DBError::ConstraintViolation) && final(store)@ == old(store)@
            && final(store).spec_next_id() == old(store).spec_next_id(),
{
    if new_shop.title.as_str().is_empty() || !new_shop.location.in_bounds() || store.next_id
        == i32::MAX {
        return Err(DBError::ConstraintViolation);
    }
    let ts = current_timestamp();
    let shop = Shop {
        id: store.next_id,
        title: new_shop.title.clone(),
        url: clone_opt_string(&new_shop.url),
        donation_url: clone_opt_string(&new_shop.donation_url),
        location: new_shop.location,
        last_edited: ts,
    };
    let ret = shop.clone();
    let ghost pre = store.shops@;
    store.shops.push(shop);
    store.next_id = store.next_id + 1;
    proof {
        assert(store@ =~= views_of(pre).push(ret@));
        assert(forall|i: int| 0 <= i < pre.len() ==> store@[i] == old(store)@[i]);
    }
    Ok(ret)
}

/// Whether `s` is within range of `center` for the range query.
pub open spec fn shops_in_range_spec(shops: Seq<ShopView>, center: GeoPoint, d: int) -> Seq<
    ShopView,
> {
    shops.filter(|s: ShopView| within_range(center, s.location, d))
}

/// One step of the range filter, from the left.
proof fn lemma_range_filter_take(shops: Seq<ShopView>, center: GeoPoint, d: int, i: int)
    requires
        0 <= i < shops.len(),
    ensures
        shops_in_range_spec(shops.take(i + 1), center, d) == if within_range(
            center,
            shops[i].location,
            d,
        ) {
            shops_in_range_spec(shops.take(i), center, d).push(shops[i])
        } else {
            shops_in_range_spec(shops.take(i), center, d)
        },
{
    reveal(Seq::filter);
    assert(shops.take(i + 1).drop_last() =~= shops.take(i));
    assert(shops.take(i + 1).last() == shops[i]);
}

/// The range filter of nothing is nothing.
proof fn lemma_range_filter_empty(shops: Seq<ShopView>, center: GeoPoint, d: int)
    ensures
        shops_in_range_spec(shops.take(0), center, d) == Seq::<ShopView>::empty(),
{
    reveal(Seq::filter);
    assert(shops.take(0) =~= Seq::<ShopView>::empty());
}

/// Pushing a record onto a sequence pushes its view.
proof fn lemma_views_push(shops: Seq<Shop>, x: Shop)
    ensures
        views_of(shops.push(x)) =~= views_of(shops).push(x@),
{
}

/// Returns every shop whose great-circle distance to `search_location` is
/// within `distance_m` meters — the boundary included — in store order.
/// Fails only on an out-of-bounds center.
pub fn get_shops_in_range(store: &ShopStore, search_location: GeoPoint, distance_m: i32) -> (r:
    Result<Vec<Shop>, DBError>)
    requires
        store.wf(),
    ensures
        match r {
            Ok(v) => point_in_bounds(search_location) && views_of(v@) == shops_in_range_spec(
                store@,
                search_location,
                distance_m as int,
            ),
            Err(e) => e == DBError::BadCoordinates && !point_in_bounds(search_location),
        },
{
    if !search_location.in_bounds() {
        return Err(DBError::BadCoordinates);
    }
    let mut out: Vec<Shop> = Vec::new();
    let mut i: usize = 0;
    proof {
        lemma_range_filter_empty(store@, search_location, distance_m as int);
        assert(views_of(out@) =~= Seq::<ShopView>::empty());
    }
    while i < store.shops.len()
        invariant
            store.wf(),
            point_in_bounds(search_location),
            i <= store@.len(),
            store@.len() == store.shops@.len(),
            views_of(out@) == shops_in_range_spec(
                store@.take(i as int),
                search_location,
                distance_m as int,
            ),
        decreases store@.len() - i,
    {
        let ghost pre = out@;
        let s = &store.shops[i];
        proof {
            assert(store@[i as int] == s@);
        }
        if within_range_exec(search_location, s.location, distance_m) {
            out.push(s.clone());
            proof {
                lemma_views_push(pre, store.shops@[i as int]);
            }
        }
        proof {
            lemma_range_filter_take(store@, search_location, distance_m as int, i as int);
        }
        i += 1;
    }
    proof {
        assert(store@.take(store@.len() as int) =~= store@);
    }
    Ok(out)
}

/// Whether `s` matches the fuzzy query `q` around `center`: in range, and
/// its title similar to `q` by trigram overlap.
pub open spec fn search_filter(shops: Seq<ShopView>, q: Seq<char>, center: GeoPoint, d: int) -> Seq<
    ShopView,
> {
    shops.filter(
        |s: ShopView|
            within_range(center, s.location, d) && similar(
                encode_utf8(s.title),
                encode_utf8(q),
            ),
    )
}

/// One step of the search filter, from the left.
proof fn lemma_search_filter_take(shops: Seq<ShopView>, q: Seq<char>, center: GeoPoint, d: int, i: int)
    requires
        0 <= i < shops.len(),
    ensures
        search_filter(shops.take(i + 1), q, center, d) == if within_range(
            center,
            shops[i].location,
            d,
        ) && similar(encode_utf8(shops[i].title), encode_utf8(q)) {
            search_filter(shops.take(i), q, center, d).push(shops[i])
        } else {
            search_filter(shops.take(i), q, center, d)
        },
{
    reveal(Seq::filter);
    assert(shops.take(i + 1).drop_last() =~= shops.take(i));
    assert(shops.take(i + 1).last() == shops[i]);
}

/// The search filter of nothing is nothing.
proof fn lemma_search_filter_empty(shops: Seq<ShopView>, q: Seq<char>, center: GeoPoint, d: int)
    ensures
        search_filter(shops.take(0), q, center, d) == Seq::<ShopView>::empty(),
{
    reveal(Seq::filter);
    assert(shops.take(0) =~= Seq::<ShopView>::empty());
}

/// Titles descending: every earlier title is at or above every later one.
pub open spec fn sorted_desc(v: Seq<ShopView>) -> bool {
    forall|i: int, j: int| 0 <= i < j < v.len() ==> lex_le(v[j].title, v[i].title)
}

/// The lexicographic order is transitive.
proof fn lemma_lex_le_trans(a: Seq<char>, b: Seq<char>, c: Seq<char>)
    requires
        lex_le(a, b),
        lex_le(b, c),
    ensures
        lex_le(a, c),
    decreases a.len(),
{
    if a.len() == 0 {
    } else {
        if (a[0] as u32) == (b[0] as u32) && (b[0] as u32) == (c[0] as u32) {
            lemma_lex_le_trans(a.drop_first(), b.drop_first(), c.drop_first());
        }
    }
}

/// What the fuzzy query returns: the at most five greatest titles, in
/// descending title order, drawn from the rows matching the filter. The
/// remainder `rest` witnesses which matching rows were left out: all of
/// them at or below everything returned.
pub open spec fn is_search_result(
    shops: Seq<ShopView>,
    q: Seq<char>,
    center: GeoPoint,
    d: int,
    out: Seq<ShopView>,
) -> bool {
    let f = search_filter(shops, q, center, d);
    &&& out.len() == if f.len() < 5 {
        f.len()
    } else {
        5
    }
    &&& sorted_desc(out)
    &&& exists|rest: Multiset<ShopView>|
        f.to_multiset() == out.to_multiset().add(rest) && (forall|x: ShopView, y: ShopView|
            rest.contains(x) && out.contains(y) ==> lex_le(x.title, y.title))
}

/// Removing an indexed record removes its view.
proof fn lemma_views_remove(shops: Seq<Shop>, i: int)
    requires
        0 <= i < shops.len(),
    ensures
        views_of(shops.remove(i)) =~= views_of(shops).remove(i),
{
}

/// Returns the shops within `distance_m` meters of `search_location` whose
/// title is trigram-similar to `name`, sorted by title descending, capped
/// at five rows. Fails only on an out-of-bounds center.
pub fn search_shops_in_range(
    store: &ShopStore,
    name: &String,
    search_location: GeoPoint,
    distance_m: i32,
) -> (r: Result<Vec<Shop>, DBError>)
    requires
        store.wf(),
    ensures
        match r {
            Ok(v) => point_in_bounds(search_location) && is_search_result(
                store@,
                name@,
                search_location,
                distance_m as int,
                views_of(v@),
            ),
            Err(e) => e == DBError::BadCoordinates && !point_in_bounds(search_location),
        },
{
    if !search_location.in_bounds() {
        return Err(DBError::BadCoordinates);
    }
    let ghost q = name@;
    let ghost d = distance_m as int;
    let qb = name.as_str().as_bytes();
    let mut work: Vec<Shop> = Vec::new();
    let mut i: usize = 0;
    proof {
        lemma_search_filter_empty(store@, q, search_location, d);
        assert(views_of(work@) =~= Seq::<ShopView>::empty());
    }
    while i < store.shops.len()
        invariant
            store.wf(),
            point_in_bounds(search_location),
            i <= store@.len(),
            store@.len() == store.shops@.len(),
            qb@ == encode_utf8(name@),
            views_of(work@) == search_filter(store@.take(i as int), name@, search_location, distance_m as int),
        decreases store@.len() - i,
    {
        let ghost pre = work@;
        let s = &store.shops[i];
        proof {
            assert(store@[i as int] == s@);
        }
        let tb = s.title.as_str().as_bytes();
        proof {
            assert(tb@ == encode_utf8(s@.title));
        }
        if within_range_exec(search_location, s.location, distance_m) && similar_exec(tb, qb) {
            work.push(s.clone());
            proof {
                lemma_views_push(pre, store.shops@[i as int]);
            }
        }
        proof {
            lemma_search_filter_take(store@, name@, search_location, distance_m as int, i as int);
        }
        i += 1;
    }
    proof {
        assert(store@.take(store@.len() as int) =~= store@);
    }
    let ghost f = search_filter(store@, name@, search_location, distance_m as int);
    let mut out: Vec<Shop> = Vec::new();
    proof {
        assert(views_of(out@) =~= Seq::<ShopView>::empty());
        assert(views_of(out@).to_multiset().add(views_of(work@).to_multiset()) =~= f.to_multiset());
    }
    while out.len() < 5 && work.len() > 0
        invariant
            out@.len() <= 5,
            views_of(out@).to_multiset().add(views_of(work@).to_multiset()) == f.to_multiset(),
            views_of(out@).len() + views_of(work@).len() == f.len(),
            sorted_desc(views_of(out@)),
            forall|x: int, y: int|
                0 <= x < views_of(work@).len() && 0 <= y < views_of(out@).len() ==> lex_le(
                    views_of(work@)[x].title,
                    views_of(out@)[y].title,
                ),
            out@.len() < 5 || out@.len() == 5,
        decreases work@.len(),
    {
        let mut best: usize = 0;
        let mut j: usize = 1;
        proof {
            crate::text::lemma_lex_le_total(views_of(work@)[0].title, views_of(work@)[0].title);
        }
        while j < work.len()
            invariant
                work@.len() > 0,
                best < j,
                j <= work@.len(),
                forall|k: int|
                    0 <= k < j ==> lex_le(
                        views_of(work@)[k].title,
                        views_of(work@)[best as int].title,
                    ),
            decreases work@.len() - j,
        {
            proof {
                assert(views_of(work@)[best as int] == work@[best as int]@);
                assert(views_of(work@)[j as int] == work@[j as int]@);
            }
            if lex_le_exec(work[best].title.as_str(), work[j].title.as_str()) {
                proof {
                    assert forall|k: int| 0 <= k < j + 1 implies lex_le(
                        views_of(work@)[k].title,
                        views_of(work@)[j as int].title,
                    ) by {
                        if k < j {
                            lemma_lex_le_trans(
                                views_of(work@)[k].title,
                                views_of(work@)[best as int].title,
                                views_of(work@)[j as int].title,
                            );
                        } else {
                            crate::text::lemma_lex_le_total(
                                views_of(work@)[j as int].title,
                                views_of(work@)[j as int].title,
                            );
                        }
                    }
                }
                best = j;
            } else {
                proof {
                    crate::text::lemma_lex_le_total(
                        views_of(work@)[best as int].title,
                        views_of(work@)[j as int].title,
                    );
                }
            }
            j += 1;
        }
        let ghost pre_out = out@;
        let ghost pre_work = work@;
        let m = work.remove(best);
        proof {
            lemma_views_remove(pre_work, best as int);
            assert(views_of(pre_work)[best as int] == m@);
        }
        out.push(m);
        proof {
            lemma_views_push(pre_out, m);
            assert(views_of(out@) =~= views_of(pre_out).push(m@));
            assert(views_of(out@).to_multiset() =~= views_of(pre_out).to_multiset().insert(m@));
            assert(views_of(work@) =~= views_of(pre_work).remove(best as int));
            assert(views_of(work@).to_multiset() =~= views_of(pre_work).to_multiset().remove(m@));
            assert(views_of(pre_work).to_multiset().contains(m@)) by {
                assert(views_of(pre_work)[best as int] == m@);
            }
            assert(views_of(out@).to_multiset().add(views_of(work@).to_multiset()) =~= f.to_multiset());
            assert(sorted_desc(views_of(out@))) by {
                assert(forall|y: int|
                    0 <= y < views_of(pre_out).len() ==> lex_le(m@.title, views_of(pre_out)[y].title));
            }
            assert forall|x: int, y: int|
                0 <= x < views_of(work@).len() && 0 <= y < views_of(out@).len() implies lex_le(
                views_of(work@)[x].title,
                views_of(out@)[y].title,
            ) by {
                let xv = views_of(work@)[x];
                assert(xv == if x < best as int {
                    views_of(pre_work)[x]
                } else {
                    views_of(pre_work)[x + 1]
                });
                if y < views_of(pre_out).len() {
                    lemma_lex_le_trans(xv.title, m@.title, views_of(out@)[y].title);
                }
            }
        }
    }
    proof {
        if out@.len() < 5 {
            assert(work@.len() == 0);
            assert(views_of(work@) =~= Seq::<ShopView>::empty());
        }
        let rest = views_of(work@).to_multiset();
        assert(f.to_multiset() == views_of(out@).to_multiset().add(rest));
        assert(f.len() == f.to_multiset().len());
        assert(views_of(out@).len() == views_of(out@).to_multiset().len());
        assert forall|x: ShopView, y: ShopView|
            rest.contains(x) && views_of(out@).contains(y) implies lex_le(x.title, y.title) by {
            assert(views_of(work@).contains(x));
            let xi = choose|xi: int|
                0 <= xi < views_of(work@).len() && views_of(work@)[xi] == x;
            let yi = choose|yi: int|
                0 <= yi < views_of(out@).len() && views_of(out@)[yi] == y;
        }
        assert(is_search_result(
            store@,
            name@,
            search_location,
            distance_m as int,
            views_of(out@),
        ));
    }
    Ok(out)
}

/// A record is always found by a range query centered on its own
/// location, for any nonnegative range: its distance to itself is zero and
/// the boundary is inclusive.
pub proof fn lemma_new_shop_found(shops: Seq<ShopView>, i: int, d: int)
    requires
        0 <= i < shops.len(),
        d >= 0,
    ensures
        shops_in_range_spec(shops, shops[i].location, d).contains(shops[i]),
{
    crate::geo::lemma_point_within_itself(shops[i].location, d);
    shops.lemma_filter_contains(|s: ShopView| within_range(shops[i].location, s.location, d), i);
}

/// Whether an update submission matches a stored record: exact equality of
/// the title and of both coordinates.
pub open spec fn update_key_matches(s: ShopView, n: NewShopView) -> bool {
    s.title == n.title && s.location == n.location
}

/// Whether any stored record matches the submission's key.
pub open spec fn some_match(shops: Seq<ShopView>, n: NewShopView) -> bool {
    exists|i: int| 0 <= i < shops.len() && update_key_matches(#[trigger] shops[i], n)
}

/// Whether `i` is the first index whose record matches the key.
pub open spec fn is_first_match(shops: Seq<ShopView>, n: NewShopView, i: int) -> bool {
    &&& 0 <= i < shops.len()
    &&& update_key_matches(shops[i], n)
    &&& forall|j: int| 0 <= j < i ==> !update_key_matches(#[trigger] shops[j], n)
}

/// The record `s` with its contact URL replaced and its timestamp set. The
/// donation URL is left as it was: the update path drops the submitted one.
pub open spec fn with_url(s: ShopView, url: Option<Seq<char>>, t: int) -> ShopView {
    ShopView { url: url, last_edited: t, ..s }
}

/// The store after an update: every record matching the key carries the
/// submitted contact URL and the new timestamp; every other record is
/// unchanged.
pub open spec fn update_applied(
    pre: Seq<ShopView>,
    post: Seq<ShopView>,
    n: NewShopView,
    t: int,
) -> bool {
    &&& post.len() == pre.len()
    &&& forall|i: int|
        0 <= i < pre.len() ==> post[i] == (if update_key_matches(#[trigger] pre[i], n) {
            with_url(pre[i], n.url, t)
        } else {
            pre[i]
        })
}

/// Updates the records matching the submission's `(title, location)` key —
/// exact equality on both — setting only the contact URL and the
/// timestamp, and returns the first updated record. The submitted donation
/// URL is dropped, a preserved quirk of the write path. Fails with
/// `NotFound` exactly when no record matches.
pub fn update_shop(store: &mut ShopStore, new_shop: NewShop) -> (r: Result<Shop, DBError>)
    requires
        old(store).wf(),
    ensures
        final(store).wf(),
        match r {
            Ok(s) => some_match(old(store)@, new_shop@) && exists|t: int|
                #[trigger] update_applied(old(store)@, final(store)@, new_shop@, t) && (exists|
                    fi: int,
                |
                    is_first_match(old(store)@, new_shop@, fi) && s@ == with_url(
                        old(store)@[fi],
                        new_shop@.url,
                        t,
                    )),
            Err(e) => e == DBError::NotFound && !some_match(old(store)@, new_shop@)
                && final(store)@ == old(store)@,
        },
        final(store).spec_next_id() == old(store).spec_next_id(),
{
    let ts = current_timestamp();
    let ghost pre = store@;
    let ghost n = new_shop@;
    let mut new_shops: Vec<Shop> = Vec::new();
    let mut result: Option<Shop> = None;
    let mut i: usize = 0;
    proof {
        assert(views_of(new_shops@) =~= Seq::<ShopView>::empty());
    }
    while i < store.shops.len()
        invariant
            store.wf(),
            store@ == pre,
            n == new_shop@,
            i <= pre.len(),
            pre.len() == store.shops@.len(),
            new_shops@.len() == i,
            forall|k: int|
                0 <= k < i ==> views_of(new_shops@)[k] == (if update_key_matches(
                    #[trigger] pre[k],
                    n,
                ) {
                    with_url(pre[k], n.url, ts as int)
                } else {
                    pre[k]
                }),
            match result {
                Some(s) => exists|fi: int|
                    0 <= fi < i && is_first_match(pre, n, fi) && s@ == with_url(
                        pre[fi],
                        n.url,
                        ts as int,
                    ),
                None => forall|k: int| 0 <= k < i ==> !update_key_matches(#[trigger] pre[k], n),
            },
        decreases pre.len() - i,
    {
        let ghost pre_new = new_shops@;
        let s = &store.shops[i];
        proof {
            assert(pre[i as int] == s@);
        }
        let matches = s.title == new_shop.title && s.location == new_shop.location;
        if matches {
            let updated = Shop {
                id: s.id,
                title: s.title.clone(),
                url: clone_opt_string(&new_shop.url),
                donation_url: clone_opt_string(&s.donation_url),
                location: s.location,
                last_edited: ts,
            };
            proof {
                assert(updated@ == with_url(pre[i as int], n.url, ts as int));
            }
            proof {
                assert(update_key_matches(pre[i as int], n));
            }
            if result.is_none() {
                result = Some(updated.clone());
                proof {
                    assert(is_first_match(pre, n, i as int));
                }
            }
            new_shops.push(updated);
            proof {
                lemma_views_push(pre_new, Shop {
                    id: s.id,
                    title: s.title,
                    url: new_shop.url,
                    donation_url: s.donation_url,
                    location: s.location,
                    last_edited: ts,
                });
            }
        } else {
            new_shops.push(s.clone());
        }
        proof {
            assert(views_of(new_shops@) =~= views_of(pre_new).push(views_of(new_shops@).last()));
        }
        i += 1;
    }
    match result {
        Some(s) => {
            store.shops = new_shops;
            proof {
                assert(update_applied(pre, store@, n, ts as int));
                assert(store.wf()) by {
                    assert(forall|k: int|
                        0 <= k < store@.len() ==> (#[trigger] store@[k]).id == pre[k].id);
                    assert(forall|k: int|
                        0 <= k < store@.len() ==> (#[trigger] store@[k]).location
                            == pre[k].location);
                    assert(forall|k: int|
                        0 <= k < store@.len() ==> (#[trigger] store@[k]).title == pre[k].title);
                }
            }
            Ok(s)
        },
        None => {
            proof {
                assert(!some_match(pre, n));
            }
            Err(DBError::NotFound)
        },
    }
}

impl DBError {
    /// The failure's value as a message sequence.
    pub open spec fn message_spec(self) -> Seq<char> {
        match self {
            DBError::NotFound => "Record not found"@,
            DBError::ConstraintViolation => "Constraint violation"@,
            DBError::BadCoordinates => "Coordinates out of range"@,
        }
    }

    /// The human-readable message of this failure.
    pub fn message(&self) -> (r: String)
        ensures
            r@ == self.message_spec(),
    {
        match self {
            DBError::NotFound => "Record not found".to_owned(),
            DBError::ConstraintViolation => "Constraint violation".to_owned(),
            DBError::BadCoordinates => "Coordinates out of range".to_owned(),
        }
    }
}

} // verus!

