//! Request admission: the decisions each mutating request makes between its
//! storage reads and its storage writes.
//!
//! Each function here is pure: it takes what storage reported as plain
//! values, applies the validation and state rules, and returns either the
//! values to commit or the exact error to surface. The caller performs the
//! storage access around these decisions and, after a successful commit,
//! hands the fresh rows to the snapshot builder and the registry.

use vstd::prelude::*;

verus! {

use vstd::utf8::encode_utf8;
use crate::errors::FieldName;
use crate::errors::RequestError;
use crate::millicents::Millicents;
use crate::order::EntryRecord;
use crate::order::Order;
use crate::order::OrderRecord;
use crate::order::SingleOrderReply;
use crate::order::ORDER_STATE_OPEN;
use crate::order::entries_sorted_by_id;
use crate::order::make_single_order_reply;
use crate::order::build_order;
use crate::order::spec_entry_of;
use crate::validate::MAX_STR_LEN;
use crate::validate::length;

/// The highest entry price accepted, in millicents: ten thousand euros.
pub const MAX_ENTRY_PRICE_MILLICENTS: i64 = 10_000_00_000;

/// A request to open a new order for a menu.
#[derive(Debug, PartialEq)]
pub struct CreateOrderRequest {
    pub menu_url: String,
}

/// A request to add one entry to an order.
#[derive(Debug, PartialEq)]
pub struct AddOrderEntryRequest {
    pub order_id: i32,
    pub buyer: String,
    pub food: String,
    pub price_in_millicents: i64,
}

/// The order row a create request commits.
#[derive(Debug, PartialEq)]
pub struct OrderDraft {
    pub menu_url: String,
    pub state: i32,
}

/// The entry row an admitted add request commits.
#[derive(Debug, PartialEq)]
pub struct EntryDraft {
    pub order_id: i32,
    pub buyer: String,
    pub food: String,
    pub price_in_millicents: i64,
    pub paid: bool,
}

/// The order row a create request commits: the requested menu, in the open
/// state every order starts in.
pub fn get_order_from_create_request(request: CreateOrderRequest) -> (r: Option<OrderDraft>)
    ensures
        r matches Some(d) && d.menu_url == request.menu_url && d.state == ORDER_STATE_OPEN,
{
    Some(OrderDraft { menu_url: request.menu_url, state: ORDER_STATE_OPEN })
}

/// The entry row an add request asks to commit: the requested fields, not
/// yet paid. A price no [`Millicents`] value can carry yields nothing.
pub fn get_order_entry_from_add_request(request: AddOrderEntryRequest) -> (r: Option<EntryDraft>)
    ensures
        request.price_in_millicents >= 0 ==> (r matches Some(d) && d.order_id == request.order_id
            && d.buyer == request.buyer && d.food == request.food && d.price_in_millicents
            == request.price_in_millicents && d.paid == false),
        request.price_in_millicents < 0 ==> r is None,
{
    let price = match Millicents::from_raw(request.price_in_millicents) {
        Ok(price) => price,
        Err(_) => {
            return None;
        },
    };
    Some(
        EntryDraft {
            order_id: request.order_id,
            buyer: request.buyer,
            food: request.food,
            price_in_millicents: price.raw(),
            paid: false,
        },
    )
}

/// The exact decision [`admit_order_entry`] takes, in the order the checks
/// are applied: the order must exist and be open, the texts must fit
/// storage, and the price must be a representable amount below the ceiling.
pub open spec fn spec_admit_order_entry(
    order_state: Option<i32>,
    request: AddOrderEntryRequest,
) -> Result<EntryDraft, RequestError> {
    if order_state matches Some(state) && state == ORDER_STATE_OPEN {
        spec_admit_entry_fields(request)
    } else if order_state is None {
        Err(RequestError::OrderMissing)
    } else {
        Err(RequestError::OrderNotOpen)
    }
}

/// The field checks of [`spec_admit_order_entry`], applied once the order is
/// known to exist and be open.
pub open spec fn spec_admit_entry_fields(request: AddOrderEntryRequest) -> Result<
    EntryDraft,
    RequestError,
> {
    if encode_utf8(request.food@).len() > MAX_STR_LEN {
        Err(RequestError::FieldTooLong(FieldName::Food))
    } else if encode_utf8(request.buyer@).len() > MAX_STR_LEN {
        Err(RequestError::FieldTooLong(FieldName::Buyer))
    } else if request.price_in_millicents < 0 {
        Err(RequestError::EntryPriceNegative)
    } else if request.price_in_millicents > MAX_ENTRY_PRICE_MILLICENTS {
        Err(RequestError::EntryPriceTooHigh)
    } else {
        Ok(
            EntryDraft {
                order_id: request.order_id,
                buyer: request.buyer,
                food: request.food,
                price_in_millicents: request.price_in_millicents,
                paid: false,
            },
        )
    }
}

/// Admit or refuse one add-entry request, given the state of the order it
/// names (or nothing, if that order does not exist). On admission the caller
/// commits the returned row and then publishes the fresh snapshot.
pub fn admit_order_entry(order_state: Option<i32>, request: AddOrderEntryRequest) -> (r: Result<
    EntryDraft,
    RequestError,
>)
    ensures
        r == spec_admit_order_entry(order_state, request),
{
    let state = match order_state {
        Some(state) => state,
        None => {
            return Err(RequestError::OrderMissing);
        },
    };
    if state != ORDER_STATE_OPEN {
        return Err(RequestError::OrderNotOpen);
    }
    match length(FieldName::Food, request.food.as_str()) {
        Ok(_) => {},
        Err(e) => {
            return Err(e);
        },
    }
    match length(FieldName::Buyer, request.buyer.as_str()) {
        Ok(_) => {},
        Err(e) => {
            return Err(e);
        },
    }
    if request.price_in_millicents < 0 {
        return Err(RequestError::EntryPriceNegative);
    }
    if request.price_in_millicents > MAX_ENTRY_PRICE_MILLICENTS {
        return Err(RequestError::EntryPriceTooHigh);
    }
    Ok(
        EntryDraft {
            order_id: request.order_id,
            buyer: request.buyer,
            food: request.food,
            price_in_millicents: request.price_in_millicents,
            paid: false,
        },
    )
}

/// Admit or refuse a create-order request: only the menu text's length is
/// checked. On admission the caller commits the returned row.
pub fn admit_create_order(request: CreateOrderRequest) -> (r: Result<OrderDraft, RequestError>)
    ensures
        encode_utf8(request.menu_url@).len() > MAX_STR_LEN ==> r == Err::<
            OrderDraft,
            RequestError,
        >(RequestError::FieldTooLong(FieldName::MenuUrl)),
        encode_utf8(request.menu_url@).len() <= MAX_STR_LEN ==> (r matches Ok(d) && d.menu_url
            == request.menu_url && d.state == ORDER_STATE_OPEN),
{
    match length(FieldName::MenuUrl, request.menu_url.as_str()) {
        Ok(_) => {},
        Err(e) => {
            return Err(e);
        },
    }
    let draft = match get_order_from_create_request(request) {
        Some(draft) => draft,
        None => {
            return Err(RequestError::OrderMissing);
        },
    };
    Ok(draft)
}

/// The order row after a state change: the same order, under the requested
/// state; or "not found" if the order does not exist. No transition is
/// refused: the caller of the order decides its state.
pub fn apply_order_state(order: Option<OrderRecord>, new_state: i32) -> (r: Result<
    OrderRecord,
    RequestError,
>)
    ensures
        order is None ==> r == Err::<OrderRecord, RequestError>(RequestError::OrderNotFound),
        order matches Some(o) ==> (r matches Ok(updated) && updated.id == o.id
            && updated.menu_url == o.menu_url && updated.state == new_state),
{
    match order {
        None => Err(RequestError::OrderNotFound),
        Some(o) => Ok(OrderRecord { state: new_state, ..o }),
    }
}

/// The entry row after its paid flag is set; or "not found" if the entry
/// does not exist.
pub fn apply_entry_paid(entry: Option<EntryRecord>, paid: bool) -> (r: Result<
    EntryRecord,
    RequestError,
>)
    ensures
        entry is None ==> r == Err::<EntryRecord, RequestError>(RequestError::OrderEntryNotFound),
        entry matches Some(e) ==> (r matches Ok(updated) && updated.id == e.id
            && updated.order_id == e.order_id && updated.buyer == e.buyer && updated.food
            == e.food && updated.price_in_millicents == e.price_in_millicents && updated.paid
            == paid),
{
    match entry {
        None => Err(RequestError::OrderEntryNotFound),
        Some(e) => Ok(EntryRecord { paid, ..e }),
    }
}

/// Whether an entry may be removed: only an entry that exists can go; an
/// unknown entry id is "not found", and nothing is deleted for it.
pub fn apply_entry_removal(entry: Option<EntryRecord>) -> (r: Result<EntryRecord, RequestError>)
    ensures
        entry is None ==> r == Err::<EntryRecord, RequestError>(RequestError::OrderEntryNotFound),
        entry matches Some(e) ==> r == Ok::<EntryRecord, RequestError>(e),
{
    match entry {
        None => Err(RequestError::OrderEntryNotFound),
        Some(e) => Ok(e),
    }
}

/// The reply to a single-order lookup: the order's snapshot, or "not found"
/// when storage reported no such order.
pub fn order_lookup_reply(found: Option<(OrderRecord, Vec<EntryRecord>)>) -> (r: Result<
    SingleOrderReply,
    RequestError,
>)
    ensures
        found is None ==> r == Err::<SingleOrderReply, RequestError>(RequestError::OrderNotFound),
        found matches Some(row) ==> (r matches Ok(reply) && reply.order matches Some(o) && o.id
            == row.0.id && o.menu_url == row.0.menu_url && o.state == row.0.state
            && o.entries@.to_multiset() == row.1@.map_values(
            |e: EntryRecord| spec_entry_of(e),
        ).to_multiset() && entries_sorted_by_id(o.entries@)),
{
    match found {
        None => Err(RequestError::OrderNotFound),
        Some((order, entries)) => Ok(make_single_order_reply(order, entries)),
    }
}

/// The reply listing every order, one built snapshot per storage row, in the
/// order storage returned them.
pub struct GetOrdersReply {
    pub orders: Vec<Order>,
}

/// Build the list-orders reply: each row becomes its snapshot, rows keep
/// their order.
pub fn build_orders_reply(rows: Vec<(OrderRecord, Vec<EntryRecord>)>) -> (r: GetOrdersReply)
    ensures
        r.orders@.len() == rows@.len(),
        forall|i: int|
            0 <= i < rows@.len() ==> {
                let o = #[trigger] r.orders@[i];
                &&& o.id == rows@[i].0.id
                &&& o.menu_url == rows@[i].0.menu_url
                &&& o.state == rows@[i].0.state
                &&& o.entries@.to_multiset() == rows@[i].1@.map_values(
                    |e: EntryRecord| spec_entry_of(e),
                ).to_multiset()
                &&& entries_sorted_by_id(o.entries@)
            },
{
    let ghost rows0 = rows@;
    let mut rows = rows;
    let mut orders: Vec<Order> = Vec::new();
    let ghost mut consumed: int = 0;
    while rows.len() > 0
        invariant
            0 <= consumed <= rows0.len(),
            rows@.len() == rows0.len() - consumed,
            forall|k: int| 0 <= k < rows@.len() ==> rows@[k] == rows0[k + consumed],
            orders@.len() == consumed,
            forall|i: int|
                0 <= i < consumed ==> {
                    let o = #[trigger] orders@[i];
                    &&& o.id == rows0[i].0.id
                    &&& o.menu_url == rows0[i].0.menu_url
                    &&& o.state == rows0[i].0.state
                    &&& o.entries@.to_multiset() == rows0[i].1@.map_values(
                        |e: EntryRecord| spec_entry_of(e),
                    ).to_multiset()
                    &&& entries_sorted_by_id(o.entries@)
                },
        decreases rows@.len(),
    {
        let (order, entries) = rows.remove(0);
        let o = build_order(order, entries);
        orders.push(o);
        proof {
            consumed = consumed + 1;
        }
    }
    GetOrdersReply { orders }
}

} // verus!
