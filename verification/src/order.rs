//! Order snapshots and the snapshot builder.
//!
//! An [`Order`] is the immutable value that fans out to subscribers: the
//! order row plus its entries, with the entries sorted by entry id so that
//! every snapshot of the same state looks the same regardless of storage
//! order. [`OrderRecord`] and [`EntryRecord`] are the plain rows the storage
//! layer hands in; [`build_order`] is the pure builder from rows to snapshot.

use vstd::prelude::*;

verus! {

use vstd::multiset::Multiset;

/// Order state meaning the order still accepts entries; matches the storage
/// default for a fresh order.
pub const ORDER_STATE_OPEN: i32 = 1;

/// Mathematical image of an [`OrderEntry`].
#[verifier::ext_equal]
pub struct OrderEntryV {
    pub id: int,
    pub buyer: Seq<char>,
    pub food: Seq<char>,
    pub price_in_millicents: int,
    pub paid: bool,
}

/// Mathematical image of an [`Order`].
#[verifier::ext_equal]
pub struct OrderV {
    pub id: int,
    pub menu_url: Seq<char>,
    pub state: int,
    pub entries: Seq<OrderEntryV>,
}

/// One line of an order: who ordered which food at what price.
#[derive(Debug, PartialEq)]
pub struct OrderEntry {
    pub id: i32,
    pub buyer: String,
    pub food: String,
    pub price_in_millicents: i64,
    pub paid: bool,
}

/// An immutable snapshot of one order and all its entries.
#[derive(Debug, PartialEq)]
pub struct Order {
    pub id: i32,
    pub menu_url: String,
    pub state: i32,
    pub entries: Vec<OrderEntry>,
}

/// The reply value wrapped around a snapshot, as the stream and the mutating
/// calls both return it.
#[derive(Debug, PartialEq)]
pub struct SingleOrderReply {
    pub order: Option<Order>,
}

/// A persisted order row.
#[derive(Debug, PartialEq)]
pub struct OrderRecord {
    pub id: i32,
    pub menu_url: String,
    pub state: i32,
}

/// A persisted order-entry row.
#[derive(Debug, PartialEq)]
pub struct EntryRecord {
    pub id: i32,
    pub order_id: i32,
    pub buyer: String,
    pub food: String,
    pub price_in_millicents: i64,
    pub paid: bool,
}

impl View for OrderEntry {
    type V = OrderEntryV;

    open spec fn view(&self) -> OrderEntryV {
        OrderEntryV {
            id: self.id as int,
            buyer: self.buyer@,
            food: self.food@,
            price_in_millicents: self.price_in_millicents as int,
            paid: self.paid,
        }
    }
}

impl View for Order {
    type V = OrderV;

    open spec fn view(&self) -> OrderV {
        OrderV {
            id: self.id as int,
            menu_url: self.menu_url@,
            state: self.state as int,
            entries: Seq::new(self.entries@.len(), |i: int| self.entries@[i]@),
        }
    }
}

impl Clone for OrderEntry {
    /// A cloned entry is the same value.
    fn clone(&self) -> (res: Self)
        ensures
            res == *self,
    {
        OrderEntry {
            id: self.id,
            buyer: self.buyer.clone(),
            food: self.food.clone(),
            price_in_millicents: self.price_in_millicents,
            paid: self.paid,
        }
    }
}

impl Clone for Order {
    /// A cloned snapshot reads back exactly like the original.
    fn clone(&self) -> (res: Self)
        ensures
            res@ == self@,
    {
        let res = Order {
            id: self.id,
            menu_url: self.menu_url.clone(),
            state: self.state,
            entries: self.entries.clone(),
        };
        proof {
            assert(res@.entries =~= self@.entries);
            assert(res@ =~= self@);
        }
        res
    }
}

/// The snapshot entry a persisted row turns into: same fields, minus the
/// owning order id.
pub open spec fn spec_entry_of(r: EntryRecord) -> OrderEntry {
    OrderEntry {
        id: r.id,
        buyer: r.buyer,
        food: r.food,
        price_in_millicents: r.price_in_millicents,
        paid: r.paid,
    }
}

/// Entries stand in ascending entry-id order.
pub open spec fn entries_sorted_by_id(s: Seq<OrderEntry>) -> bool {
    forall|i: int, j: int| 0 <= i < j < s.len() ==> s[i].id <= s[j].id
}

/// Sort entries by entry id, keeping exactly the given entries.
pub fn sort_entries_by_id(entries: Vec<OrderEntry>) -> (res: Vec<OrderEntry>)
    ensures
        res@.to_multiset() == entries@.to_multiset(),
        entries_sorted_by_id(res@),
{
    let mut rest = entries;
    let mut out: Vec<OrderEntry> = Vec::new();
    proof {
        broadcast use vstd::seq_lib::group_to_multiset_ensures;
        broadcast use vstd::multiset::group_multiset_axioms;
        broadcast use vstd::multiset::lemma_multiset_empty_len;

        assert(out@.to_multiset() =~= Multiset::<OrderEntry>::empty());
        assert(out@.to_multiset().add(rest@.to_multiset()) =~= rest@.to_multiset());
    }
    while rest.len() > 0
        invariant
            out@.to_multiset().add(rest@.to_multiset()) == entries@.to_multiset(),
            entries_sorted_by_id(out@),
            forall|i: int, k: int|
                0 <= i < out@.len() && 0 <= k < rest@.len() ==> out@[i].id <= rest@[k].id,
        decreases rest@.len(),
    {
        let mut min_idx: usize = 0;
        let mut k: usize = 1;
        while k < rest.len()
            invariant
                rest@.len() > 0,
                min_idx < rest@.len(),
                k <= rest@.len(),
                forall|t: int| 0 <= t < k ==> rest@[min_idx as int].id <= rest@[t].id,
            decreases rest@.len() - k,
        {
            if rest[k].id < rest[min_idx].id {
                min_idx = k;
            }
            k = k + 1;
        }
        let ghost rest_before = rest@;
        let ghost out_before = out@;
        let e = rest.remove(min_idx);
        out.push(e);
        proof {
            broadcast use vstd::seq_lib::group_to_multiset_ensures;
            broadcast use vstd::multiset::group_multiset_axioms;

            assert(rest_before.remove(min_idx as int).to_multiset() =~= rest_before.to_multiset()
                .remove(e));
            assert(out_before.push(e).to_multiset() =~= out_before.to_multiset().insert(e));
            assert(out@.to_multiset().add(rest@.to_multiset()) =~= entries@.to_multiset());
        }
    }
    proof {
        broadcast use vstd::seq_lib::group_to_multiset_ensures;
        broadcast use vstd::multiset::group_multiset_axioms;
        broadcast use vstd::multiset::lemma_multiset_empty_len;

        assert(rest@.to_multiset() =~= Multiset::<OrderEntry>::empty());
        assert(out@.to_multiset() =~= out@.to_multiset().add(rest@.to_multiset()));
    }
    out
}

/// Build the immutable snapshot for a mutated order: the order row's fields
/// plus its entries, sorted by entry id.
pub fn build_order(order: OrderRecord, order_entries: Vec<EntryRecord>) -> (o: Order)
    ensures
        o.id == order.id,
        o.menu_url == order.menu_url,
        o.state == order.state,
        o.entries@.to_multiset() == order_entries@.map_values(
            |r: EntryRecord| spec_entry_of(r),
        ).to_multiset(),
        entries_sorted_by_id(o.entries@),
{
    let mut conv: Vec<OrderEntry> = Vec::new();
    let mut i: usize = 0;
    while i < order_entries.len()
        invariant
            i <= order_entries@.len(),
            conv@ == order_entries@.subrange(0, i as int).map_values(
                |r: EntryRecord| spec_entry_of(r),
            ),
        decreases order_entries@.len() - i,
    {
        let row = &order_entries[i];
        let entry = OrderEntry {
            id: row.id,
            buyer: row.buyer.clone(),
            food: row.food.clone(),
            price_in_millicents: row.price_in_millicents,
            paid: row.paid,
        };
        conv.push(entry);
        i = i + 1;
        proof {
            assert(conv@ =~= order_entries@.subrange(0, i as int).map_values(
                |r: EntryRecord| spec_entry_of(r),
            ));
        }
    }
    proof {
        assert(order_entries@.subrange(0, order_entries@.len() as int) =~= order_entries@);
    }
    let sorted = sort_entries_by_id(conv);
    Order { id: order.id, menu_url: order.menu_url, state: order.state, entries: sorted }
}

/// Wrap a freshly built snapshot as the reply the mutating calls return.
pub fn make_single_order_reply(order: OrderRecord, order_entries: Vec<EntryRecord>) -> (r:
    SingleOrderReply)
    ensures
        r.order matches Some(o) && o.id == order.id && o.menu_url == order.menu_url && o.state
            == order.state && o.entries@.to_multiset() == order_entries@.map_values(
            |r: EntryRecord| spec_entry_of(r),
        ).to_multiset() && entries_sorted_by_id(o.entries@),
{
    SingleOrderReply { order: Some(build_order(order, order_entries)) }
}

/// A ready-made order to show the wire format: one open order with two
/// example entries.
pub fn create_example_order() -> (o: Order)
    ensures
        o.id == 1,
        o.menu_url@ == "https://www.napoli-pizza.com/menu"@,
        o.state == ORDER_STATE_OPEN,
        o.entries@.len() == 2,
        o.entries@[0].id == 1,
        o.entries@[0].buyer@ == "John"@,
        o.entries@[0].food@ == "pizza"@,
        o.entries@[0].price_in_millicents == 10000,
        o.entries@[0].paid == false,
        o.entries@[1].id == 2,
        o.entries@[1].buyer@ == "Jane"@,
        o.entries@[1].food@ == "pizza"@,
        o.entries@[1].price_in_millicents == 10000,
        o.entries@[1].paid == false,
{
    let mut entries: Vec<OrderEntry> = Vec::new();
    entries.push(OrderEntry {
        id: 1,
        buyer: String::from_str("John"),
        food: String::from_str("pizza"),
        price_in_millicents: 10000,
        paid: false,
    });
    entries.push(OrderEntry {
        id: 2,
        buyer: String::from_str("Jane"),
        food: String::from_str("pizza"),
        price_in_millicents: 10000,
        paid: false,
    });
    Order {
        id: 1,
        menu_url: String::from_str("https://www.napoli-pizza.com/menu"),
        state: ORDER_STATE_OPEN,
        entries,
    }
}

} // verus!
