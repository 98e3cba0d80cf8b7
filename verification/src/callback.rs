//! The payment callback reconciler: authenticates an inbound provider
//! callback, extracts the fields the engine branches on, and applies the
//! exactly-once settlement transition.
//!
//! The handler is safe under arbitrary duplication and reordering: the
//! transition is a compare-and-swap on the pending status, so a replayed
//! callback is a pure no-op, acknowledged to the provider all the same to
//! stop retry storms. Only a malformed or wrongly signed callback is
//! rejected.

use vstd::prelude::*;

use crate::flitt::{
    lookup_field, spec_callback_sig_ok, spec_lookup, spec_pair_views, verify_callback_signature,
};
use crate::ledger::{Ledger, LedgerEntry};
use crate::orders::{Order, OrderStatus};
use crate::store::{spec_find_order, spec_transition, OrderStore, StoreModel};
use crate::text::{parse_digits_u64, spec_parse_digits, str_eq};

verus! {

/// What the handler answers the provider: 200 for every well-formed,
/// correctly signed callback, whatever the business outcome; 400 otherwise.
#[derive(Clone, Copy, PartialEq, Eq, Structural, Debug)]
pub enum CallbackResponse {
    Accepted,
    Rejected,
}

impl CallbackResponse {
    pub fn status_code(&self) -> (r: u16)
        ensures
            r == (if self is Accepted {
                200int
            } else {
                400int
            }),
    {
        match self {
            CallbackResponse::Accepted => 200,
            CallbackResponse::Rejected => 400,
        }
    }
}

/// The order status a callback's `order_status` field maps to; anything
/// but the three final statuses causes no transition.
pub open spec fn spec_callback_status(s: Seq<char>) -> Option<OrderStatus> {
    if s == "approved"@ {
        Some(OrderStatus::Approved)
    } else if s == "declined"@ {
        Some(OrderStatus::Declined)
    } else if s == "expired"@ {
        Some(OrderStatus::Expired)
    } else {
        None
    }
}

/// The `order_status` field of the callback, or `unknown` when absent.
pub open spec fn spec_status_field(params: Seq<(Seq<char>, Seq<char>)>) -> Seq<char> {
    match spec_lookup(params, "order_status"@) {
        Some(s) => s,
        None => "unknown"@,
    }
}

/// The provider payment id of the callback: its `payment_id` field read as
/// a decimal number, where present and in range.
pub open spec fn spec_payment_id(params: Seq<(Seq<char>, Seq<char>)>) -> Option<i64> {
    match spec_lookup(params, "payment_id"@) {
        None => None,
        Some(v) => match spec_parse_digits(v) {
            Some(n) => if n <= i64::MAX {
                Some(n as i64)
            } else {
                None
            },
            None => None,
        },
    }
}

/// What one callback delivery does to the whole state, and what it
/// answers: reject an invalid signature or a missing order reference
/// untouched; otherwise acknowledge, applying the settlement transition
/// when the status names one.
pub open spec fn spec_callback_step(
    m: StoreModel,
    entries: Seq<LedgerEntry>,
    secret: Seq<char>,
    params: Seq<(Seq<char>, Seq<char>)>,
) -> (StoreModel, Seq<LedgerEntry>, CallbackResponse) {
    if !spec_callback_sig_ok(secret, params) {
        (m, entries, CallbackResponse::Rejected)
    } else {
        match spec_lookup(params, "order_id"@) {
            None => (m, entries, CallbackResponse::Rejected),
            Some(oref) => match spec_callback_status(spec_status_field(params)) {
                None => (m, entries, CallbackResponse::Accepted),
                Some(st) => {
                    let t = spec_transition(m, entries, oref, st, spec_payment_id(params));
                    (t.0, t.1, CallbackResponse::Accepted)
                },
            },
        }
    }
}

/// Handles one provider callback, mirroring `spec_callback_step`:
/// authenticate, extract the order reference, status and payment id, and
/// apply the exactly-once transition.
pub fn flitt_callback(
    store: &mut OrderStore,
    ledger: &mut Ledger,
    secret_key: &str,
    params: &Vec<(String, String)>,
) -> (r: CallbackResponse)
    requires
        old(store).wf(),
        old(ledger).wf(),
    ensures
        final(store).wf(),
        final(ledger).wf(),
        (final(store).model(), final(ledger).entries@, r) == spec_callback_step(
            old(store).model(),
            old(ledger).entries@,
            secret_key@,
            spec_pair_views(params@),
        ),
{
    if !verify_callback_signature(secret_key, params) {
        return CallbackResponse::Rejected;
    }
    let order_id = match lookup_field(params, "order_id") {
        Some(s) => s,
        None => {
            return CallbackResponse::Rejected;
        },
    };
    let status_str = match lookup_field(params, "order_status") {
        Some(s) => s,
        None => "unknown".to_owned(),
    };
    let status = if str_eq(status_str.as_str(), "approved") {
        Some(OrderStatus::Approved)
    } else if str_eq(status_str.as_str(), "declined") {
        Some(OrderStatus::Declined)
    } else if str_eq(status_str.as_str(), "expired") {
        Some(OrderStatus::Expired)
    } else {
        None
    };
    let payment_id = match lookup_field(params, "payment_id") {
        Some(v) => match parse_digits_u64(v.as_str(), 9_223_372_036_854_775_807u64) {
            Some(n) => Some(n as i64),
            None => None,
        },
        None => None,
    };
    match status {
        None => CallbackResponse::Accepted,
        Some(st) => {
            let _ = store.update_order_status_and_deduct_stock(
                ledger,
                order_id.as_str(),
                st,
                payment_id,
            );
            CallbackResponse::Accepted
        },
    }
}

/// `spec_find_order` scans order references only, so it is blind to an
/// update that keeps them.
proof fn lemma_find_order_pointwise(a: Seq<Order>, b: Seq<Order>, oref: Seq<char>)
    requires
        a.len() == b.len(),
        forall|k: int| 0 <= k < a.len() ==> (#[trigger] a[k]).order_id@ == b[k].order_id@,
    ensures
        spec_find_order(a, oref) == spec_find_order(b, oref),
    decreases a.len(),
{
    if a.len() > 0 {
        assert(forall|k: int|
            0 <= k < a.len() - 1 ==> (#[trigger] a.drop_first()[k]).order_id@
                == b.drop_first()[k].order_id@);
        lemma_find_order_pointwise(a.drop_first(), b.drop_first(), oref);
    }
}

/// The settlement transition is idempotent: applied a second time with the
/// same arguments it changes nothing, because the first application either
/// changed nothing or took the order out of `Pending`.
pub proof fn lemma_transition_idempotent(
    m: StoreModel,
    entries: Seq<LedgerEntry>,
    oref: Seq<char>,
    status: OrderStatus,
    payment_id: Option<i64>,
)
    requires
        !(status is Pending),
    ensures
        ({
            let t1 = spec_transition(m, entries, oref, status, payment_id);
            spec_transition(t1.0, t1.1, oref, status, payment_id) == t1
        }),
{
    crate::store::lemma_find_order_props(m.orders, oref);
    let idx = spec_find_order(m.orders, oref);
    let t1 = spec_transition(m, entries, oref, status, payment_id);
    if idx < 0 || !(m.orders[idx].status is Pending) {
    } else {
        let updated = Order { status, payment_id, ..m.orders[idx] };
        let applied = StoreModel { orders: m.orders.update(idx, updated), ..m };
        if t1.0 == applied {
            assert(forall|k: int|
                0 <= k < m.orders.len() ==> (#[trigger] applied.orders[k]).order_id@
                    == m.orders[k].order_id@);
            lemma_find_order_pointwise(applied.orders, m.orders, oref);
            assert(spec_find_order(applied.orders, oref) == idx);
            assert(!(applied.orders[idx].status is Pending));
        }
    }
}

/// Snapshot immutability: a callback delivery never changes the stored
/// order items, nor any order's amount or reference — settlement touches
/// only the status and payment id of the one order it finalizes. In
/// particular a price captured at order creation is immune to anything
/// that happens afterwards.
pub proof fn lemma_callback_preserves_snapshots(
    m: StoreModel,
    entries: Seq<LedgerEntry>,
    secret: Seq<char>,
    params: Seq<(Seq<char>, Seq<char>)>,
)
    ensures
        ({
            let s1 = spec_callback_step(m, entries, secret, params);
            &&& s1.0.items == m.items
            &&& s1.0.orders.len() == m.orders.len()
            &&& forall|k: int|
                0 <= k < m.orders.len() ==> (#[trigger] s1.0.orders[k]).amount
                    == m.orders[k].amount && s1.0.orders[k].order_id@ == m.orders[k].order_id@
                    && s1.0.orders[k].id == m.orders[k].id
        }),
{
    if spec_callback_sig_ok(secret, params) {
        match spec_lookup(params, "order_id"@) {
            None => {},
            Some(oref) => {
                crate::store::lemma_find_order_props(m.orders, oref);
            },
        }
    }
}

/// Idempotent callback: delivering the identical callback twice leaves
/// exactly the state the first delivery produced — the order status changes
/// at most once and stock is decremented at most once; the second delivery
/// is a pure no-op.
pub proof fn lemma_callback_idempotent(
    m: StoreModel,
    entries: Seq<LedgerEntry>,
    secret: Seq<char>,
    params: Seq<(Seq<char>, Seq<char>)>,
)
    ensures
        ({
            let s1 = spec_callback_step(m, entries, secret, params);
            let s2 = spec_callback_step(s1.0, s1.1, secret, params);
            s2.0 == s1.0 && s2.1 == s1.1
        }),
{
    if spec_callback_sig_ok(secret, params) {
        match spec_lookup(params, "order_id"@) {
            None => {},
            Some(oref) => {
                match spec_callback_status(spec_status_field(params)) {
                    None => {},
                    Some(st) => {
                        lemma_transition_idempotent(
                            m,
                            entries,
                            oref,
                            st,
                            spec_payment_id(params),
                        );
                    },
                }
            },
        }
    }
}

} // verus!
