use napoli::create_example_order;
use napoli::errors::ErrorKind;
use napoli::errors::FieldName;
use napoli::errors::RequestError;
use napoli::handlers::admit_create_order;
use napoli::handlers::admit_order_entry;
use napoli::handlers::apply_entry_paid;
use napoli::handlers::apply_entry_removal;
use napoli::handlers::apply_order_state;
use napoli::handlers::build_orders_reply;
use napoli::handlers::get_order_entry_from_add_request;
use napoli::handlers::get_order_from_create_request;
use napoli::handlers::order_lookup_reply;
use napoli::handlers::AddOrderEntryRequest;
use napoli::handlers::CreateOrderRequest;
use napoli::order::make_single_order_reply;
use napoli::order::sort_entries_by_id;
use napoli::order::EntryRecord;
use napoli::order::OrderEntry;
use napoli::order::OrderRecord;
use napoli::validate::length;
use napoli::validate::MAX_STR_LEN;

fn entry_row(id: i32, order_id: i32, buyer: &str) -> EntryRecord {
    EntryRecord {
        id,
        order_id,
        buyer: buyer.to_string(),
        food: "pizza".to_string(),
        price_in_millicents: 1000000,
        paid: false,
    }
}

fn add_request(price_in_millicents: i64) -> AddOrderEntryRequest {
    AddOrderEntryRequest {
        order_id: 1,
        buyer: "John".to_string(),
        food: "pizza".to_string(),
        price_in_millicents,
    }
}

#[test]
fn example_order_has_two_entries() {
    let order = create_example_order();
    assert_eq!(order.id, 1);
    assert_eq!(order.menu_url, "https://www.napoli-pizza.com/menu");
    assert_eq!(order.state, 1);
    assert_eq!(order.entries.len(), 2);
    assert_eq!(order.entries[0].buyer, "John");
    assert_eq!(order.entries[1].buyer, "Jane");
    assert_eq!(order.entries[0].price_in_millicents, 10000);
    assert!(!order.entries[0].paid);
}

#[test]
fn single_order_reply_sorts_entries_by_id() {
    let order = OrderRecord { id: 4, menu_url: "menu".to_string(), state: 1 };
    let rows = vec![entry_row(3, 4, "c"), entry_row(1, 4, "a"), entry_row(2, 4, "b")];
    let reply = make_single_order_reply(order, rows);
    let o = reply.order.unwrap();
    assert_eq!(o.id, 4);
    assert_eq!(o.menu_url, "menu");
    let ids: Vec<i32> = o.entries.iter().map(|e| e.id).collect();
    assert_eq!(ids, vec![1, 2, 3]);
    let buyers: Vec<&str> = o.entries.iter().map(|e| e.buyer.as_str()).collect();
    assert_eq!(buyers, vec!["a", "b", "c"]);
}

#[test]
fn sorting_keeps_every_entry() {
    let entries = vec![
        OrderEntry {
            id: 2,
            buyer: "x".to_string(),
            food: "f".to_string(),
            price_in_millicents: 1,
            paid: true,
        },
        OrderEntry {
            id: 2,
            buyer: "y".to_string(),
            food: "g".to_string(),
            price_in_millicents: 2,
            paid: false,
        },
        OrderEntry {
            id: 1,
            buyer: "z".to_string(),
            food: "h".to_string(),
            price_in_millicents: 3,
            paid: false,
        },
    ];
    let sorted = sort_entries_by_id(entries);
    assert_eq!(sorted.len(), 3);
    assert_eq!(sorted[0].id, 1);
    assert_eq!(sorted[0].buyer, "z");
    assert_eq!(sorted[1].id, 2);
    assert_eq!(sorted[2].id, 2);
}

#[test]
fn orders_reply_builds_one_snapshot_per_row() {
    let rows = vec![
        (OrderRecord { id: 2, menu_url: "m2".to_string(), state: 1 }, vec![entry_row(2, 2, "b")]),
        (OrderRecord { id: 1, menu_url: "m1".to_string(), state: 1 }, vec![]),
    ];
    let reply = build_orders_reply(rows);
    assert_eq!(reply.orders.len(), 2);
    assert_eq!(reply.orders[0].id, 2);
    assert_eq!(reply.orders[0].entries.len(), 1);
    assert_eq!(reply.orders[1].id, 1);
    assert_eq!(reply.orders[1].entries.len(), 0);
}

#[test]
fn order_lookup_reports_missing_orders() {
    assert_eq!(order_lookup_reply(None), Err(RequestError::OrderNotFound));
    let order = OrderRecord { id: 4, menu_url: "menu".to_string(), state: 1 };
    let reply = order_lookup_reply(Some((order, vec![entry_row(1, 4, "a")]))).unwrap();
    assert_eq!(reply.order.unwrap().entries.len(), 1);
}

#[test]
fn create_request_becomes_an_open_order() {
    let draft = get_order_from_create_request(CreateOrderRequest {
        menu_url: "menu".to_string(),
    })
    .unwrap();
    assert_eq!(draft.menu_url, "menu");
    assert_eq!(draft.state, 1);
}

#[test]
fn add_request_becomes_an_unpaid_entry() {
    let draft = get_order_entry_from_add_request(add_request(5000)).unwrap();
    assert_eq!(draft.order_id, 1);
    assert_eq!(draft.buyer, "John");
    assert_eq!(draft.food, "pizza");
    assert_eq!(draft.price_in_millicents, 5000);
    assert!(!draft.paid);
    assert!(get_order_entry_from_add_request(add_request(-1)).is_none());
}

#[test]
fn entry_admission_checks_in_request_order() {
    assert_eq!(admit_order_entry(None, add_request(5000)), Err(RequestError::OrderMissing));
    assert_eq!(admit_order_entry(Some(2), add_request(5000)), Err(RequestError::OrderNotOpen));
    let mut long_food = add_request(5000);
    long_food.food = "f".repeat(MAX_STR_LEN + 1);
    assert_eq!(
        admit_order_entry(Some(1), long_food),
        Err(RequestError::FieldTooLong(FieldName::Food))
    );
    let mut long_buyer = add_request(5000);
    long_buyer.buyer = "b".repeat(MAX_STR_LEN + 1);
    assert_eq!(
        admit_order_entry(Some(1), long_buyer),
        Err(RequestError::FieldTooLong(FieldName::Buyer))
    );
    assert_eq!(
        admit_order_entry(Some(1), add_request(-1)),
        Err(RequestError::EntryPriceNegative)
    );
    assert_eq!(
        admit_order_entry(Some(1), add_request(10_000_00_001)),
        Err(RequestError::EntryPriceTooHigh)
    );
    let draft = admit_order_entry(Some(1), add_request(10_000_00_000)).unwrap();
    assert_eq!(draft.price_in_millicents, 10_000_00_000);
}

#[test]
fn create_admission_checks_menu_length() {
    let long = CreateOrderRequest { menu_url: "m".repeat(MAX_STR_LEN + 1) };
    assert_eq!(
        admit_create_order(long),
        Err(RequestError::FieldTooLong(FieldName::MenuUrl))
    );
    let ok = admit_create_order(CreateOrderRequest { menu_url: "menu".to_string() }).unwrap();
    assert_eq!(ok.state, 1);
}

#[test]
fn state_change_needs_an_existing_order() {
    assert_eq!(apply_order_state(None, 2), Err(RequestError::OrderNotFound));
    let order = OrderRecord { id: 7, menu_url: "m".to_string(), state: 1 };
    let updated = apply_order_state(Some(order), 2).unwrap();
    assert_eq!(updated.id, 7);
    assert_eq!(updated.state, 2);
}

#[test]
fn paid_flag_needs_an_existing_entry() {
    assert_eq!(apply_entry_paid(None, true), Err(RequestError::OrderEntryNotFound));
    let updated = apply_entry_paid(Some(entry_row(1, 4, "a")), true).unwrap();
    assert_eq!(updated.id, 1);
    assert!(updated.paid);
}

#[test]
fn removal_needs_an_existing_entry() {
    assert_eq!(apply_entry_removal(None), Err(RequestError::OrderEntryNotFound));
    let removed = apply_entry_removal(Some(entry_row(1, 4, "a"))).unwrap();
    assert_eq!(removed.id, 1);
}

#[test]
fn field_length_is_checked_in_bytes() {
    assert!(length(FieldName::Food, &"f".repeat(MAX_STR_LEN)).is_ok());
    assert_eq!(
        length(FieldName::Food, &"f".repeat(MAX_STR_LEN + 1)),
        Err(RequestError::FieldTooLong(FieldName::Food))
    );
    // one multi-byte character counts by its encoded size
    assert!(length(FieldName::Buyer, &"é".repeat(105)).is_ok());
    assert_eq!(
        length(FieldName::Buyer, &"é".repeat(106)),
        Err(RequestError::FieldTooLong(FieldName::Buyer))
    );
}

#[test]
fn errors_surface_under_their_kind() {
    assert_eq!(RequestError::OrderNotFound.kind(), ErrorKind::NotFound);
    assert_eq!(RequestError::OrderEntryNotFound.kind(), ErrorKind::NotFound);
    assert_eq!(RequestError::OrderMissing.kind(), ErrorKind::NotFound);
    assert_eq!(RequestError::OrderNotOpen.kind(), ErrorKind::InvalidArgument);
    assert_eq!(
        RequestError::FieldTooLong(FieldName::MenuUrl).kind(),
        ErrorKind::InvalidArgument
    );
    assert_eq!(RequestError::EntryPriceNegative.kind(), ErrorKind::InvalidArgument);
    assert_eq!(RequestError::EntryPriceTooHigh.kind(), ErrorKind::InvalidArgument);
}
