//! The order aggregate store: persists an order and its items as one unit
//! and enforces the pending-to-final state machine.
//!
//! The status transition is a compare-and-swap: it applies only while the
//! order is still pending, so a replayed callback matches nothing and is a
//! no-op. On approval the stock decrement for every item of the order and
//! the status update form one transaction: if any single decrement fails,
//! nothing changes at all.

use vstd::prelude::*;

use crate::errors::AppError;
use crate::ledger::{clone_color, spec_color_view, spec_find_entry, Ledger, LedgerEntry};
use crate::orders::{
    clone_order, clone_order_item, CheckoutRequest, CustomerInfo, Order, OrderItem, OrderItemData,
    OrderStatus,
};
use crate::text::str_eq;

verus! {

pub struct OrderStore {
    pub orders: Vec<Order>,
    pub items: Vec<OrderItem>,
    pub next_id: i32,
}

/// The mathematical state of the store: what its contracts are phrased
/// over.
pub struct StoreModel {
    pub orders: Seq<Order>,
    pub items: Seq<OrderItem>,
    pub next_id: int,
}

/// Well-formedness of a store state: surrogate ids and order references are
/// unique, every id is below the next one to be assigned, and the
/// data-model invariants hold — a positive amount on every order and a
/// positive quantity on every item.
pub open spec fn spec_store_wf(m: StoreModel) -> bool {
    &&& forall|i: int, j: int|
        0 <= i < j < m.orders.len() ==> (#[trigger] m.orders[i]).id != (
        #[trigger] m.orders[j]).id && m.orders[i].order_id@ != m.orders[j].order_id@
    &&& forall|i: int| 0 <= i < m.orders.len() ==> (#[trigger] m.orders[i]).id < m.next_id
    &&& forall|i: int| 0 <= i < m.orders.len() ==> (#[trigger] m.orders[i]).amount >= 1
    &&& forall|i: int| 0 <= i < m.items.len() ==> (#[trigger] m.items[i]).quantity >= 1
}

/// The index of the first order with the given reference, or -1.
pub open spec fn spec_find_order(orders: Seq<Order>, oref: Seq<char>) -> int
    decreases orders.len(),
{
    if orders.len() == 0 {
        -1
    } else if orders.first().order_id@ == oref {
        0
    } else {
        let rest = spec_find_order(orders.drop_first(), oref);
        if rest == -1 {
            -1
        } else {
            rest + 1
        }
    }
}

pub proof fn lemma_find_order_at(orders: Seq<Order>, oref: Seq<char>, i: int)
    requires
        0 <= i < orders.len(),
        orders[i].order_id@ == oref,
        forall|k: int| 0 <= k < i ==> (#[trigger] orders[k]).order_id@ != oref,
    ensures
        spec_find_order(orders, oref) == i,
    decreases i,
{
    if i > 0 {
        lemma_find_order_at(orders.drop_first(), oref, i - 1);
    }
}

pub proof fn lemma_find_order_none(orders: Seq<Order>, oref: Seq<char>)
    requires
        forall|k: int| 0 <= k < orders.len() ==> (#[trigger] orders[k]).order_id@ != oref,
    ensures
        spec_find_order(orders, oref) == -1,
    decreases orders.len(),
{
    if orders.len() > 0 {
        lemma_find_order_none(orders.drop_first(), oref);
    }
}

/// The lookup returns an in-range first match, or -1 and no match.
pub proof fn lemma_find_order_props(orders: Seq<Order>, oref: Seq<char>)
    ensures
        ({
            let idx = spec_find_order(orders, oref);
            &&& -1 <= idx < orders.len()
            &&& idx >= 0 ==> orders[idx].order_id@ == oref
            &&& forall|k: int|
                0 <= k < orders.len() && (idx == -1 || k < idx) ==> (
                #[trigger] orders[k]).order_id@ != oref
        }),
    decreases orders.len(),
{
    if orders.len() > 0 {
        lemma_find_order_props(orders.drop_first(), oref);
        assert(forall|k: int|
            1 <= k < orders.len() ==> #[trigger] orders[k] == orders.drop_first()[k - 1]);
    }
}

/// One conditional stock decrement for one order item, against a ledger
/// state: exactly the step `Ledger::try_decrement` takes.
pub open spec fn spec_deduct_item(entries: Seq<LedgerEntry>, item: OrderItem) -> Option<
    Seq<LedgerEntry>,
> {
    let idx = spec_find_entry(entries, item.product_id, spec_color_view(item.color));
    if idx >= 0 && entries[idx].quantity >= item.quantity {
        Some(
            entries.update(
                idx,
                LedgerEntry {
                    quantity: (entries[idx].quantity - item.quantity) as u64,
                    ..entries[idx]
                },
            ),
        )
    } else {
        None
    }
}

/// The stock decrements for every item of order `oid`, applied in item
/// order; `None` as soon as any single decrement fails.
pub open spec fn spec_deduct_for_order(
    entries: Seq<LedgerEntry>,
    items: Seq<OrderItem>,
    oid: i32,
) -> Option<Seq<LedgerEntry>>
    decreases items.len(),
{
    if items.len() == 0 {
        Some(entries)
    } else if items.first().order_id != oid {
        spec_deduct_for_order(entries, items.drop_first(), oid)
    } else {
        match spec_deduct_item(entries, items.first()) {
            None => None,
            Some(e2) => spec_deduct_for_order(e2, items.drop_first(), oid),
        }
    }
}

/// The settlement transition: what one authenticated callback does to the
/// store and the ledger. The order must still be pending (the
/// compare-and-swap); a transition to approved additionally requires every
/// item's stock decrement to succeed, else nothing changes.
pub open spec fn spec_transition(
    m: StoreModel,
    entries: Seq<LedgerEntry>,
    oref: Seq<char>,
    status: OrderStatus,
    payment_id: Option<i64>,
) -> (StoreModel, Seq<LedgerEntry>) {
    let idx = spec_find_order(m.orders, oref);
    if idx < 0 || !(m.orders[idx].status is Pending) {
        (m, entries)
    } else {
        let updated = Order { status, payment_id, ..m.orders[idx] };
        if status is Approved {
            match spec_deduct_for_order(entries, m.items, m.orders[idx].id) {
                Some(e2) => (StoreModel { orders: m.orders.update(idx, updated), ..m }, e2),
                None => (m, entries),
            }
        } else {
            (StoreModel { orders: m.orders.update(idx, updated), ..m }, entries)
        }
    }
}

/// The field facts of a freshly created order.
pub open spec fn spec_is_new_order(
    o: Order,
    id: i32,
    user_id: i32,
    oref: Seq<char>,
    amount: u64,
    customer: CustomerInfo,
    req: CheckoutRequest,
) -> bool {
    &&& o.id == id
    &&& o.user_id == user_id
    &&& o.order_id@ == oref
    &&& o.status is Pending
    &&& o.payment_id is None
    &&& o.amount == amount
    &&& o.currency@ == "GEL"@
    &&& o.customer == customer
    &&& o.email@ == req.email@
    &&& o.phone_number == req.phone_number
    &&& o.address@ == req.address@
    &&& o.delivery_type@ == req.delivery_type@
    &&& o.delivery_time@ == req.delivery_time@
    &&& o.checkout_url is None
}

/// The order item recorded for one line of data, under the owning order's
/// id.
pub open spec fn spec_item_of(d: OrderItemData, oid: i32) -> OrderItem {
    OrderItem {
        order_id: oid,
        product_id: d.product_id,
        color: d.color,
        quantity: d.quantity,
        price_at_purchase: d.price_at_purchase,
        product_name: d.product_name,
        image: d.image,
    }
}

/// Copies a ledger state.
fn clone_entries(v: &Vec<LedgerEntry>) -> (r: Vec<LedgerEntry>)
    ensures
        r@ == v@,
{
    let n = v.len();
    let mut r: Vec<LedgerEntry> = Vec::new();
    let mut i: usize = 0;
    while i < n
        invariant
            n == v@.len(),
            0 <= i <= n,
            r@ =~= v@.take(i as int),
        decreases n - i,
    {
        r.push(
            LedgerEntry {
                product_id: v[i].product_id,
                color: clone_color(&v[i].color),
                quantity: v[i].quantity,
            },
        );
        proof {
            assert(r@.last() == v@[i as int]);
            assert(r@ =~= v@.take(i + 1));
        }
        i += 1;
    }
    assert(v@.take(n as int) =~= v@);
    r
}

impl OrderStore {
    pub open spec fn model(self) -> StoreModel {
        StoreModel { orders: self.orders@, items: self.items@, next_id: self.next_id as int }
    }

    pub open spec fn wf(self) -> bool {
        spec_store_wf(self.model())
    }

    pub fn new() -> (r: OrderStore)
        ensures
            r.wf(),
            r.orders@.len() == 0,
            r.items@.len() == 0,
            r.next_id == 1,
    {
        OrderStore { orders: Vec::new(), items: Vec::new(), next_id: 1 }
    }

    /// The index of the order with the given reference, if any.
    fn find_order_index(&self, order_id: &str) -> (r: Option<usize>)
        ensures
            ({
                let idx = spec_find_order(self.orders@, order_id@);
                match r {
                    Some(i) => idx == i,
                    None => idx == -1,
                }
            }),
    {
        let n = self.orders.len();
        let mut i: usize = 0;
        while i < n
            invariant
                n == self.orders@.len(),
                0 <= i <= n,
                forall|k: int| 0 <= k < i ==> (#[trigger] self.orders@[k]).order_id@ != order_id@,
            decreases n - i,
        {
            if str_eq(self.orders[i].order_id.as_str(), order_id) {
                proof {
                    lemma_find_order_at(self.orders@, order_id@, i as int);
                }
                return Some(i);
            }
            i += 1;
        }
        proof {
            lemma_find_order_none(self.orders@, order_id@);
        }
        None
    }

    /// Persists an order and all its items as one unit, in state pending,
    /// with the price, name and image snapshots of its lines. Rejects a
    /// reference that is already taken, changing nothing — the store's
    /// uniqueness constraint.
    pub fn create_order_with_items(
        &mut self,
        user_id: i32,
        order_id: String,
        amount: u64,
        customer: CustomerInfo,
        req: &CheckoutRequest,
        items: Vec<OrderItemData>,
    ) -> (r: Result<Order, AppError>)
        requires
            old(self).wf(),
            old(self).next_id < i32::MAX,
            amount >= 1,
            forall|k: int| 0 <= k < items@.len() ==> (#[trigger] items@[k]).quantity >= 1,
        ensures
            final(self).wf(),
            ({
                let idx = spec_find_order(old(self).orders@, order_id@);
                match r {
                    Err(e) => {
                        &&& idx >= 0
                        &&& e is Conflict
                        &&& *final(self) == *old(self)
                    },
                    Ok(o) => {
                        &&& idx == -1
                        &&& spec_is_new_order(
                            o,
                            old(self).next_id,
                            user_id,
                            order_id@,
                            amount,
                            customer,
                            *req,
                        )
                        &&& final(self).orders@ == old(self).orders@.push(o)
                        &&& final(self).items@.len() == old(self).items@.len() + items@.len()
                        &&& final(self).items@.take(old(self).items@.len() as int) == old(
                            self,
                        ).items@
                        &&& forall|k: int|
                            0 <= k < items@.len() ==> final(self).items@[old(self).items@.len()
                                + k] == spec_item_of(#[trigger] items@[k], old(self).next_id)
                        &&& final(self).next_id == old(self).next_id + 1
                    },
                }
            }),
    {
        if self.find_order_index(order_id.as_str()).is_some() {
            return Err(AppError::Conflict("Order reference already exists".to_owned()));
        }
        proof {
            lemma_find_order_props(self.orders@, order_id@);
        }
        let id = self.next_id;
        // build the item rows first, then apply all writes as one unit
        let n_items = items.len();
        let ghost items_seq = items@;
        let mut data = items;
        let mut rows: Vec<OrderItem> = Vec::new();
        let mut k: usize = 0;
        assert(items_seq.skip(0) =~= items_seq);
        while k < n_items
            invariant
                n_items == items_seq.len(),
                0 <= k <= n_items,
                data@ =~= items_seq.skip(k as int),
                rows@.len() == k,
                forall|m: int|
                    0 <= m < k ==> rows@[m] == spec_item_of(#[trigger] items_seq[m], id),
            decreases n_items - k,
        {
            let d = data.remove(0);
            proof {
                assert(items_seq.skip(k as int)[0] == items_seq[k as int]);
                assert(items_seq.skip(k as int).drop_first() =~= items_seq.skip(k + 1));
            }
            rows.push(
                OrderItem {
                    order_id: id,
                    product_id: d.product_id,
                    color: d.color,
                    quantity: d.quantity,
                    price_at_purchase: d.price_at_purchase,
                    product_name: d.product_name,
                    image: d.image,
                },
            );
            k += 1;
        }
        let order = Order {
            id,
            user_id,
            order_id,
            status: OrderStatus::Pending,
            payment_id: None,
            amount,
            currency: "GEL".to_owned(),
            customer,
            email: req.email.clone(),
            phone_number: req.phone_number,
            address: req.address.clone(),
            delivery_type: req.delivery_type.clone(),
            delivery_time: req.delivery_time.clone(),
            checkout_url: None,
        };
        let result = clone_order(&order);
        let ghost prev_orders = self.orders@;
        let ghost prev_items = self.items@;
        let ghost rows_seq = rows@;
        self.orders.push(order);
        self.items.append(&mut rows);
        self.next_id = id + 1;
        proof {
            assert(self.items@.take(prev_items.len() as int) =~= prev_items);
            assert forall|i: int| 0 <= i < self.items@.len() implies (
            #[trigger] self.items@[i]).quantity >= 1 by {
                if i < prev_items.len() {
                    assert(self.items@[i] == prev_items[i]);
                } else {
                    assert(self.items@[i] == rows_seq[i - prev_items.len()]);
                    assert(rows_seq[i - prev_items.len()] == spec_item_of(
                        items_seq[i - prev_items.len()],
                        id,
                    ));
                }
            }
            assert forall|i: int, j: int|
                0 <= i < j < self.orders@.len() implies (#[trigger] self.orders@[i]).id != (
            #[trigger] self.orders@[j]).id && self.orders@[i].order_id@
                != self.orders@[j].order_id@ by {
                if j < prev_orders.len() {
                    assert(self.orders@[i] == prev_orders[i]);
                    assert(self.orders@[j] == prev_orders[j]);
                } else {
                    assert(self.orders@[i] == prev_orders[i]);
                }
            }
        }
        Ok(result)
    }

    /// The settlement step: if the order is still pending, set its status
    /// and provider payment id; on a transition to approved, additionally
    /// decrement stock for every item of the order in the same step, and
    /// change nothing at all if any single decrement fails. Returns `None`
    /// when no pending order matches the reference (the replayed-callback
    /// no-op), else the order and whether the transition applied.
    pub fn update_order_status_and_deduct_stock(
        &mut self,
        ledger: &mut Ledger,
        order_id: &str,
        status: OrderStatus,
        payment_id: Option<i64>,
    ) -> (r: Option<(Order, bool)>)
        requires
            old(self).wf(),
            old(ledger).wf(),
            !(status is Pending),
        ensures
            final(self).wf(),
            final(ledger).wf(),
            (final(self).model(), final(ledger).entries@) == spec_transition(
                old(self).model(),
                old(ledger).entries@,
                order_id@,
                status,
                payment_id,
            ),
            ({
                let idx = spec_find_order(old(self).orders@, order_id@);
                if idx < 0 || !(old(self).orders@[idx].status is Pending) {
                    r is None
                } else if status is Approved && spec_deduct_for_order(
                    old(ledger).entries@,
                    old(self).items@,
                    old(self).orders@[idx].id,
                ) is None {
                    r == Some((old(self).orders@[idx], false))
                } else {
                    r == Some((Order { status, payment_id, ..old(self).orders@[idx] }, true))
                }
            }),
    {
        let oi = match self.find_order_index(order_id) {
            Some(i) => i,
            None => {
                return None;
            },
        };
        proof {
            lemma_find_order_props(self.orders@, order_id@);
        }
        if !matches!(self.orders[oi].status, OrderStatus::Pending) {
            return None;
        }
        let oid = self.orders[oi].id;
        if matches!(status, OrderStatus::Approved) {
            let mut scratch = Ledger { entries: clone_entries(&ledger.entries) };
            let n_items = self.items.len();
            let mut k: usize = 0;
            assert(self.items@.skip(0) =~= self.items@);
            while k < n_items
                invariant
                    n_items == self.items@.len(),
                    0 <= k <= n_items,
                    self == old(self),
                    ledger == old(ledger),
                    old(self).wf(),
                    old(ledger).wf(),
                    scratch.wf(),
                    status is Approved,
                    0 <= oi < self.orders@.len(),
                    oi as int == spec_find_order(old(self).orders@, order_id@),
                    old(self).orders@[oi as int].status is Pending,
                    oid == old(self).orders@[oi as int].id,
                    spec_deduct_for_order(
                        scratch.entries@,
                        self.items@.skip(k as int),
                        oid,
                    ) == spec_deduct_for_order(old(ledger).entries@, self.items@, oid),
                decreases n_items - k,
            {
                proof {
                    assert(self.items@.skip(k as int)[0] == self.items@[k as int]);
                    assert(self.items@.skip(k as int).drop_first() =~= self.items@.skip(k + 1));
                }
                if self.items[k].order_id == oid {
                    let item = &self.items[k];
                    let ok = scratch.try_decrement(item.product_id, &item.color, item.quantity);
                    if !ok {
                        proof {
                            assert(spec_deduct_item(scratch.entries@, self.items@[k as int])
                                is None);
                        }
                        let snapshot = clone_order(&self.orders[oi]);
                        return Some((snapshot, false));
                    }
                }
                k += 1;
            }
            proof {
                assert(self.items@.skip(n_items as int) =~= Seq::<OrderItem>::empty());
            }
            *ledger = scratch;
        }
        let ghost prev_orders = self.orders@;
        self.orders[oi].status = status;
        self.orders[oi].payment_id = payment_id;
        proof {
            assert(self.orders@ =~= prev_orders.update(
                oi as int,
                Order { status, payment_id, ..prev_orders[oi as int] },
            ));
            assert forall|i: int, j: int|
                0 <= i < j < self.orders@.len() implies (#[trigger] self.orders@[i]).id != (
            #[trigger] self.orders@[j]).id && self.orders@[i].order_id@
                != self.orders@[j].order_id@ by {
                assert(prev_orders[i].id != prev_orders[j].id && prev_orders[i].order_id@
                    != prev_orders[j].order_id@);
            }
        }
        let updated = clone_order(&self.orders[oi]);
        Some((updated, true))
    }

    /// Records the gateway's redirect URL on the order with the given
    /// reference; everything else about the order is untouched.
    pub fn update_order_checkout_url(&mut self, order_id: &str, checkout_url: &str) -> (r: Option<
        Order,
    >)
        requires
            old(self).wf(),
        ensures
            final(self).wf(),
            ({
                let idx = spec_find_order(old(self).orders@, order_id@);
                if idx < 0 {
                    r is None && *final(self) == *old(self)
                } else {
                    &&& final(self).items@ == old(self).items@
                    &&& final(self).next_id == old(self).next_id
                    &&& final(self).orders@.len() == old(self).orders@.len()
                    &&& forall|k: int|
                        0 <= k < old(self).orders@.len() && k != idx ==> final(self).orders@[k]
                            == old(self).orders@[k]
                    &&& ({
                        let o = final(self).orders@[idx];
                        &&& o.checkout_url matches Some(u) && u@ == checkout_url@
                        &&& o == Order { checkout_url: o.checkout_url, ..old(self).orders@[idx] }
                    })
                    &&& r == Some(final(self).orders@[idx])
                }
            }),
    {
        let oi = match self.find_order_index(order_id) {
            Some(i) => i,
            None => {
                return None;
            },
        };
        proof {
            lemma_find_order_props(self.orders@, order_id@);
        }
        let ghost prev_orders = self.orders@;
        self.orders[oi].checkout_url = Some(checkout_url.to_owned());
        proof {
            assert forall|i: int, j: int|
                0 <= i < j < self.orders@.len() implies (#[trigger] self.orders@[i]).id != (
            #[trigger] self.orders@[j]).id && self.orders@[i].order_id@
                != self.orders@[j].order_id@ by {
                assert(prev_orders[i].id != prev_orders[j].id && prev_orders[i].order_id@
                    != prev_orders[j].order_id@);
            }
        }
        Some(clone_order(&self.orders[oi]))
    }

    /// The finalized orders of one user, most recent first: orders are
    /// created in id order, so recency is descending store order. Pending
    /// orders are not shown.
    pub open spec fn spec_user_orders(orders: Seq<Order>, user_id: i32) -> Seq<Order>
        decreases orders.len(),
    {
        if orders.len() == 0 {
            Seq::empty()
        } else {
            Self::spec_user_orders(orders.drop_first(), user_id) + (if orders.first().user_id
                == user_id && !(orders.first().status is Pending) {
                seq![orders.first()]
            } else {
                Seq::empty()
            })
        }
    }

    /// Lists one user's finalized orders, most recent first, mirroring
    /// `spec_user_orders`.
    pub fn get_user_orders(&self, user_id: i32) -> (r: Vec<Order>)
        ensures
            r@ == Self::spec_user_orders(self.orders@, user_id),
    {
        let n = self.orders.len();
        let mut r: Vec<Order> = Vec::new();
        let mut i: usize = n;
        assert(self.orders@.skip(n as int) =~= Seq::<Order>::empty());
        while i > 0
            invariant
                n == self.orders@.len(),
                0 <= i <= n,
                r@ == Self::spec_user_orders(self.orders@.skip(i as int), user_id),
            decreases i,
        {
            i -= 1;
            proof {
                assert(self.orders@.skip(i as int).drop_first() =~= self.orders@.skip(i + 1));
                assert(self.orders@.skip(i as int).first() == self.orders@[i as int]);
            }
            if self.orders[i].user_id == user_id && !matches!(
                self.orders[i].status,
                OrderStatus::Pending,
            ) {
                let ghost prev = r@;
                r.push(clone_order(&self.orders[i]));
                assert(r@ =~= prev + seq![self.orders@[i as int]]);
            }
        }
        assert(self.orders@.skip(0) =~= self.orders@);
        r
    }

    /// The items of one order, in store order.
    pub open spec fn spec_items_of_order(items: Seq<OrderItem>, oid: i32) -> Seq<OrderItem>
        decreases items.len(),
    {
        if items.len() == 0 {
            Seq::empty()
        } else {
            Self::spec_items_of_order(items.drop_last(), oid) + (if items.last().order_id
                == oid {
                seq![items.last()]
            } else {
                Seq::empty()
            })
        }
    }

    /// Lists the items of one order, mirroring `spec_items_of_order`.
    pub fn items_of_order(&self, oid: i32) -> (r: Vec<OrderItem>)
        ensures
            r@ == Self::spec_items_of_order(self.items@, oid),
    {
        let n = self.items.len();
        let mut r: Vec<OrderItem> = Vec::new();
        let mut i: usize = 0;
        assert(self.items@.take(0) =~= Seq::<OrderItem>::empty());
        while i < n
            invariant
                n == self.items@.len(),
                0 <= i <= n,
                r@ == Self::spec_items_of_order(self.items@.take(i as int), oid),
            decreases n - i,
        {
            proof {
                assert(self.items@.take(i + 1).drop_last() =~= self.items@.take(i as int));
                assert(self.items@.take(i + 1).last() == self.items@[i as int]);
            }
            if self.items[i].order_id == oid {
                let ghost prev = r@;
                r.push(clone_order_item(&self.items[i]));
                assert(r@ =~= prev + seq![self.items@[i as int]]);
            }
            i += 1;
        }
        assert(self.items@.take(n as int) =~= self.items@);
        r
    }

    /// One user's order history: each finalized order, most recent first,
    /// paired with its items.
    pub fn get_orders(&self, user_id: i32) -> (r: Vec<(Order, Vec<OrderItem>)>)
        ensures
            r@.len() == Self::spec_user_orders(self.orders@, user_id).len(),
            forall|k: int|
                0 <= k < r@.len() ==> (#[trigger] r@[k]).0 == Self::spec_user_orders(
                    self.orders@,
                    user_id,
                )[k] && r@[k].1@ == Self::spec_items_of_order(
                    self.items@,
                    Self::spec_user_orders(self.orders@, user_id)[k].id,
                ),
    {
        let orders = self.get_user_orders(user_id);
        let n = orders.len();
        let mut r: Vec<(Order, Vec<OrderItem>)> = Vec::new();
        let mut i: usize = 0;
        while i < n
            invariant
                n == orders@.len(),
                orders@ == Self::spec_user_orders(self.orders@, user_id),
                0 <= i <= n,
                r@.len() == i,
                forall|k: int|
                    0 <= k < i ==> (#[trigger] r@[k]).0 == orders@[k] && r@[k].1@
                        == Self::spec_items_of_order(self.items@, orders@[k].id),
            decreases n - i,
        {
            let items = self.items_of_order(orders[i].id);
            r.push((clone_order(&orders[i]), items));
            i += 1;
        }
        r
    }

    /// Whether an id occurs in the list.
    pub open spec fn spec_id_in(ids: Seq<i32>, id: i32) -> bool {
        exists|k: int| 0 <= k < ids.len() && ids[k] == id
    }

    /// The items belonging to any of the given orders, in store order.
    pub open spec fn spec_items_for_orders(items: Seq<OrderItem>, ids: Seq<i32>) -> Seq<OrderItem>
        decreases items.len(),
    {
        if items.len() == 0 {
            Seq::empty()
        } else {
            Self::spec_items_for_orders(items.drop_last(), ids) + (if Self::spec_id_in(
                ids,
                items.last().order_id,
            ) {
                seq![items.last()]
            } else {
                Seq::empty()
            })
        }
    }

    /// Lists the items of the given orders, mirroring
    /// `spec_items_for_orders`.
    pub fn get_items_for_orders(&self, order_db_ids: &Vec<i32>) -> (r: Vec<OrderItem>)
        ensures
            r@ == Self::spec_items_for_orders(self.items@, order_db_ids@),
    {
        let n = self.items.len();
        let m = order_db_ids.len();
        let mut r: Vec<OrderItem> = Vec::new();
        let mut i: usize = 0;
        assert(self.items@.take(0) =~= Seq::<OrderItem>::empty());
        while i < n
            invariant
                n == self.items@.len(),
                m == order_db_ids@.len(),
                0 <= i <= n,
                r@ == Self::spec_items_for_orders(self.items@.take(i as int), order_db_ids@),
            decreases n - i,
        {
            proof {
                assert(self.items@.take(i + 1).drop_last() =~= self.items@.take(i as int));
                assert(self.items@.take(i + 1).last() == self.items@[i as int]);
            }
            let mut found = false;
            let mut k: usize = 0;
            while k < m
                invariant
                    m == order_db_ids@.len(),
                    n == self.items@.len(),
                    0 <= i < n,
                    0 <= k <= m,
                    found == exists|t: int|
                        0 <= t < k && order_db_ids@[t] == self.items@[i as int].order_id,
                decreases m - k,
            {
                if order_db_ids[k] == self.items[i].order_id {
                    found = true;
                }
                k += 1;
            }
            if found {
                let ghost prev = r@;
                r.push(clone_order_item(&self.items[i]));
                assert(r@ =~= prev + seq![self.items@[i as int]]);
            } else {
                assert(!Self::spec_id_in(order_db_ids@, self.items@[i as int].order_id));
            }
            i += 1;
        }
        assert(self.items@.take(n as int) =~= self.items@);
        r
    }
}

} // verus!
