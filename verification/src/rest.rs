//! The request handlers: the decisions each API endpoint makes, from
//! decoded request values to response values.
//!
//! The HTTP plumbing around them — routing, JSON, TLS, the lock on the
//! store — lives outside; these functions take the store and the decoded
//! request and produce the response body, or the error message that a
//! client-error response carries. Validation outcomes are produced by
//! [`crate::validate::validate_shop`], whose DNS steps the caller runs; the
//! mutating handlers take the finished outcome.

use crate::geo::{point_in_bounds, GeoPoint};
use crate::store::{
    insert_accepted, insert_new_shop, inserted_shop, is_first_match, is_search_result, opt_view,
    search_shops_in_range, shops_in_range_spec, some_match, update_applied, update_shop as
    store_update_shop, with_url, views_of, DBError, NewShop, NewShopView, Shop, ShopStore,
    ShopView,
};
use crate::validate::{StepView, ValidationStep};
use vstd::prelude::*;

verus! {

/// The health endpoint's body.
#[derive(Debug)]
pub struct HealthResp {
    pub healthy: bool,
}

/// The body of a client-error response.
#[derive(Debug)]
pub struct ErrorResp {
    pub msg: String,
}

impl View for ErrorResp {
    type V = Seq<char>;

    open spec fn view(&self) -> Seq<char> {
        self.msg@
    }
}

/// One shop on the wire: flat fields, coordinates in nanodegrees.
#[derive(Debug)]
pub struct ShopDto {
    pub title: String,
    pub url: Option<String>,
    pub donation_url: Option<String>,
    pub lon_nd: i64,
    pub lat_nd: i64,
}

/// The mathematical value of a wire shop.
pub struct ShopDtoView {
    pub title: Seq<char>,
    pub url: Option<Seq<char>>,
    pub donation_url: Option<Seq<char>>,
    pub lon_nd: int,
    pub lat_nd: int,
}

impl View for ShopDto {
    type V = ShopDtoView;

    open spec fn view(&self) -> ShopDtoView {
        ShopDtoView {
            title: self.title@,
            url: opt_view(self.url),
            donation_url: opt_view(self.donation_url),
            lon_nd: self.lon_nd as int,
            lat_nd: self.lat_nd as int,
        }
    }
}

impl DeepView for ShopDto {
    type V = ShopDtoView;

    open spec fn deep_view(&self) -> ShopDtoView {
        self.view()
    }
}

/// The wire form of a stored record.
pub open spec fn dto_of(s: ShopView) -> ShopDtoView {
    ShopDtoView {
        title: s.title,
        url: s.url,
        donation_url: s.donation_url,
        lon_nd: s.location.lon_nd as int,
        lat_nd: s.location.lat_nd as int,
    }
}

/// The wire forms of a sequence of stored records.
pub open spec fn dtos_of(v: Seq<ShopView>) -> Seq<ShopDtoView> {
    v.map_values(|s: ShopView| dto_of(s))
}

impl ShopDto {
    /// The wire form of one record.
    pub fn from_shop(shop: &Shop) -> (r: ShopDto)
        ensures
            r@ == dto_of(shop@),
    {
        ShopDto {
            title: shop.title.clone(),
            url: clone_opt(&shop.url),
            donation_url: clone_opt(&shop.donation_url),
            lon_nd: shop.location.lon_nd,
            lat_nd: shop.location.lat_nd,
        }
    }
}

/// Clones an optional string, keeping its view.
fn clone_opt(o: &Option<String>) -> (r: Option<String>)
    ensures
        opt_view(r) == opt_view(*o),
{
    match o {
        Some(s) => Some(s.clone()),
        None => None,
    }
}

/// The body of a successful read: the matching shops.
#[derive(Debug)]
pub struct GetShopResp {
    pub items: Vec<ShopDto>,
}

impl View for GetShopResp {
    type V = Seq<ShopDtoView>;

    open spec fn view(&self) -> Seq<ShopDtoView> {
        self.items.deep_view()
    }
}

impl GetShopResp {
    /// The wire form of a list of records.
    pub fn from_shops(shops: &Vec<Shop>) -> (r: GetShopResp)
        ensures
            r@ == dtos_of(views_of(shops@)),
    {
        let mut items: Vec<ShopDto> = Vec::new();
        let mut i: usize = 0;
        proof {
            assert(items.deep_view() =~= dtos_of(views_of(shops@.take(0))));
        }
        while i < shops.len()
            invariant
                i <= shops@.len(),
                items.deep_view() == dtos_of(views_of(shops@.take(i as int))),
            decreases shops@.len() - i,
        {
            let ghost pre = items.deep_view();
            let dto = ShopDto::from_shop(&shops[i]);
            items.push(dto);
            proof {
                assert(shops@.take(i as int + 1) =~= shops@.take(i as int).push(shops@[i as int]));
                assert(items.deep_view() =~= pre.push(dto@)) by {
                    assert(forall|k: int|
                        0 <= k < pre.len() ==> items.deep_view()[k] == pre[k]);
                }
                assert(dtos_of(views_of(shops@.take(i as int + 1))) =~= dtos_of(
                    views_of(shops@.take(i as int)),
                ).push(dto_of(shops@[i as int]@)));
            }
            i += 1;
        }
        proof {
            assert(shops@.take(shops@.len() as int) =~= shops@);
        }
        GetShopResp { items }
    }
}

/// An insert or update submission: flat fields, coordinates in
/// nanodegrees.
#[derive(Debug)]
pub struct InsertShopReq {
    pub title: String,
    pub url: Option<String>,
    pub donation_url: Option<String>,
    pub lon_nd: i64,
    pub lat_nd: i64,
}

/// The submission as a store value.
pub open spec fn submitted_shop(data: &InsertShopReq) -> NewShopView {
    NewShopView {
        title: data.title@,
        url: opt_view(data.url),
        donation_url: opt_view(data.donation_url),
        location: GeoPoint { lon_nd: data.lon_nd, lat_nd: data.lat_nd },
    }
}

impl InsertShopReq {
    /// The submission as a store value.
    pub fn into_new_shop(&self) -> (n: NewShop)
        ensures
            n@ == submitted_shop(self),
    {
        NewShop {
            title: self.title.clone(),
            url: clone_opt(&self.url),
            donation_url: clone_opt(&self.donation_url),
            location: GeoPoint { lon_nd: self.lon_nd, lat_nd: self.lat_nd },
        }
    }
}

/// The query of a read: a center, a range in meters, and an optional
/// fuzzy-search string.
#[derive(Debug)]
pub struct GetShopsParams {
    pub lon_nd: i64,
    pub lat_nd: i64,
    pub range: i32,
    pub q: Option<String>,
}

/// A bare search query string.
#[derive(Debug)]
pub struct SearchReqParams {
    pub q: String,
}

/// The health endpoint: positive unconditionally, without touching the
/// store.
pub fn healthy() -> (r: HealthResp)
    ensures
        r.healthy == true,
{
    HealthResp { healthy: true }
}

/// The read endpoint. With a query string shorter than two characters the
/// result is the empty list, whatever the store holds; with a longer one,
/// the fuzzy search result; with none, the range result. A failure carries
/// the store's message.
pub fn get_shops(store: &ShopStore, params: &GetShopsParams) -> (r: Result<GetShopResp, ErrorResp>)
    requires
        store.wf(),
    ensures
        ({
            let center = GeoPoint { lon_nd: params.lon_nd, lat_nd: params.lat_nd };
            match r {
                Ok(resp) => match opt_view(params.q) {
                    Some(q) => if q.len() < 2 {
                        resp@ == Seq::<ShopDtoView>::empty()
                    } else {
                        point_in_bounds(center) && exists|shops: Seq<ShopView>|
                            #[trigger] is_search_result(
                                store@,
                                q,
                                center,
                                params.range as int,
                                shops,
                            ) && resp@ == dtos_of(shops)
                    },
                    None => point_in_bounds(center) && resp@ == dtos_of(
                        shops_in_range_spec(store@, center, params.range as int),
                    ),
                },
                Err(e) => !point_in_bounds(center) && e@ == DBError::BadCoordinates.message_spec()
                    && (opt_view(params.q) is Some ==> opt_view(params.q)->Some_0.len() >= 2),
            }
        }),
{
    let center = GeoPoint { lon_nd: params.lon_nd, lat_nd: params.lat_nd };
    match &params.q {
        Some(query) => {
            if query.as_str().unicode_len() < 2 {
                let resp = GetShopResp { items: Vec::new() };
                proof {
                    assert(resp@ =~= Seq::<ShopDtoView>::empty());
                }
                Ok(resp)
            } else {
                match search_shops_in_range(store, query, center, params.range) {
                    Ok(shops) => {
                        let resp = GetShopResp::from_shops(&shops);
                        proof {
                            assert(is_search_result(
                                store@,
                                query@,
                                center,
                                params.range as int,
                                views_of(shops@),
                            ));
                        }
                        Ok(resp)
                    },
                    Err(e) => Err(ErrorResp { msg: e.message() }),
                }
            }
        },
        None => match crate::store::get_shops_in_range(store, center, params.range) {
            Ok(shops) => Ok(GetShopResp::from_shops(&shops)),
            Err(e) => Err(ErrorResp { msg: e.message() }),
        },
    }
}

/// The create endpoint, after validation. A rejected submission leaves the
/// store untouched and yields the reason's message; an accepted one is
/// inserted, and the created record — submitted coordinates unchanged —
/// comes back, or the store's message on a constraint failure.
pub fn insert_shop(store: &mut ShopStore, data: &InsertShopReq, validation: &ValidationStep) -> (r:
    Result<ShopDto, ErrorResp>)
    requires
        old(store).wf(),
        !(validation@ is Lookup),
    ensures
        final(store).wf(),
        validation@ matches StepView::Rejected(reason) ==> final(store)@ == old(store)@ && (
        r matches Err(resp) && resp@ == reason.message_spec()),
        validation@ is Accepted ==> ({
            let n = submitted_shop(data);
            if insert_accepted(n, old(store).spec_next_id()) {
                r matches Ok(dto) && exists|s: ShopView|
                    #[trigger] inserted_shop(s, n, old(store).spec_next_id()) && final(store)@
                        == old(store)@.push(s) && dto@ == dto_of(s)
            } else {
                final(store)@ == old(store)@ && (r matches Err(resp) && resp@
                    == DBError::ConstraintViolation.message_spec())
            }
        }),
{
    match validation {
        ValidationStep::Rejected { reason } => Err(ErrorResp { msg: reason.message() }),
        ValidationStep::Lookup { host: _ } => {
            proof {
                assert(false);
            }
            Err(ErrorResp { msg: String::new() })
        },
        ValidationStep::Accepted => {
            let new_shop = data.into_new_shop();
            match insert_new_shop(store, &new_shop) {
                Ok(shop) => {
                    let dto = ShopDto::from_shop(&shop);
                    proof {
                        assert(inserted_shop(shop@, submitted_shop(data), old(store).spec_next_id()));
                    }
                    Ok(dto)
                },
                Err(e) => Err(ErrorResp { msg: e.message() }),
            }
        },
    }
}

/// The update endpoint, after validation. A rejected submission leaves the
/// store untouched and yields the reason's message. An accepted one
/// updates the records matching the `(title, location)` key, setting only
/// the contact URL, and returns the first updated record; with no matching
/// record the store is untouched and the store's message comes back.
pub fn update_shop(store: &mut ShopStore, data: &InsertShopReq, validation: &ValidationStep) -> (r:
    Result<ShopDto, ErrorResp>)
    requires
        old(store).wf(),
        !(validation@ is Lookup),
    ensures
        final(store).wf(),
        validation@ matches StepView::Rejected(reason) ==> final(store)@ == old(store)@ && (
        r matches Err(resp) && resp@ == reason.message_spec()),
        validation@ is Accepted ==> ({
            let n = submitted_shop(data);
            match r {
                Ok(dto) => some_match(old(store)@, n) && exists|t: int|
                    #[trigger] update_applied(old(store)@, final(store)@, n, t) && (exists|fi: int|
                        is_first_match(old(store)@, n, fi) && dto@ == dto_of(
                            with_url(old(store)@[fi], n.url, t),
                        )),
                Err(resp) => !some_match(old(store)@, n) && final(store)@ == old(store)@ && resp@
                    == DBError::NotFound.message_spec(),
            }
        }),
{
    match validation {
        ValidationStep::Rejected { reason } => Err(ErrorResp { msg: reason.message() }),
        ValidationStep::Lookup { host: _ } => {
            proof {
                assert(false);
            }
            Err(ErrorResp { msg: String::new() })
        },
        ValidationStep::Accepted => {
            let ghost n = submitted_shop(data);
            let ghost pre = store@;
            let new_shop = data.into_new_shop();
            match store_update_shop(store, new_shop) {
                Ok(shop) => {
                    let dto = ShopDto::from_shop(&shop);
                    proof {
                        let t = choose|t: int|
                            #[trigger] update_applied(pre, store@, n, t) && (exists|fi: int|
                                is_first_match(pre, n, fi) && shop@ == with_url(pre[fi], n.url, t));
                        let fi = choose|fi: int|
                            is_first_match(pre, n, fi) && shop@ == with_url(pre[fi], n.url, t);
                        assert(update_applied(pre, store@, n, t));
                        assert(is_first_match(pre, n, fi) && dto@ == dto_of(
                            with_url(pre[fi], n.url, t),
                        ));
                    }
                    Ok(dto)
                },
                Err(e) => Err(ErrorResp { msg: e.message() }),
            }
        },
    }
}

} // verus!
