//! The checkout orchestrator: validates a cart request, checks aggregate
//! demand against the ledger, prices the order, persists the pending order
//! with its snapshots, and prepares the signed gateway request. Stock is
//! not decremented here — the check is advisory; the real enforcement is
//! the conditional decrement at settlement time.

use vstd::prelude::*;

use crate::auth::{extract_user_id, spec_email_ok, Claims};
use crate::catalog::{
    clone_image, find_product, has_two_colors, resolve_image, spec_find_product,
    spec_has_two_colors, spec_resolve_image, ProductSnapshot,
};
use crate::config::GatewayConfig;
use crate::errors::AppError;
use crate::flitt::{
    build_checkout_request, interpret_checkout_response, spec_checkout_params,
    spec_interpret_response, spec_signature, CheckoutSessionRequest, GatewayResponse,
};
use crate::ledger::{clone_color, color_eq, spec_color_view, spec_find_entry, Ledger};
use crate::money::{
    order_amount_minor, spec_sum_micros, spec_unit_price_micros, unit_price_micros,
    DELIVERY_MICROS, MICROS_PER_MINOR,
};
use crate::orders::{
    CartItem, CheckoutRequest, CheckoutResponse, CustomerInfo, Order, OrderItemData,
};
use crate::store::{spec_find_order, spec_is_new_order, spec_item_of, OrderStore};
use crate::text::{contains_char, i64_to_string, spec_dec_i64, spec_parse_digits, str_eq};

verus! {

/// Relies on `uuid::Uuid::new_v4` and its `Display` form: the hyphenated
/// textual form of a UUID is 36 characters.
#[verifier::external_body]
fn fresh_uuid() -> (r: String)
    ensures
        r@.len() == 36,
{
    uuid::Uuid::new_v4().to_string()
}

/// A fresh provider-facing order reference: a fixed prefix and a random
/// UUID.
pub fn new_order_reference() -> (r: String)
    ensures
        r@.len() == 41,
        r@.subrange(0, 5) == "tene_"@,
{
    proof {
        reveal_strlit("tene_");
    }
    let mut r = "tene_".to_owned();
    let u = fresh_uuid();
    r.append(u.as_str());
    proof {
        assert(r@.subrange(0, 5) =~= "tene_"@);
    }
    r
}

/// The customer snapshot a request resolves to: the variant named by
/// `customer_type` must be populated; anything else is invalid.
pub open spec fn spec_customer_of(req: CheckoutRequest) -> Option<CustomerInfo> {
    if req.customer_type@ == "individual"@ {
        match req.individual {
            Some(i) => Some(CustomerInfo::Individual { name: i.name, surname: i.surname }),
            None => None,
        }
    } else if req.customer_type@ == "company"@ {
        match req.company {
            Some(c) => Some(
                CustomerInfo::Company {
                    organization_type: c.organization_type,
                    organization_name: c.organization_name,
                    organization_code: c.organization_code,
                },
            ),
            None => None,
        }
    } else {
        None
    }
}

/// Resolves the customer snapshot, mirroring `spec_customer_of`.
pub fn resolve_customer(req: &CheckoutRequest) -> (r: Option<CustomerInfo>)
    ensures
        r == spec_customer_of(*req),
{
    if str_eq(req.customer_type.as_str(), "individual") {
        match &req.individual {
            Some(i) => Some(
                CustomerInfo::Individual { name: i.name.clone(), surname: i.surname.clone() },
            ),
            None => None,
        }
    } else if str_eq(req.customer_type.as_str(), "company") {
        match &req.company {
            Some(c) => Some(
                CustomerInfo::Company {
                    organization_type: c.organization_type.clone(),
                    organization_name: c.organization_name.clone(),
                    organization_code: c.organization_code.clone(),
                },
            ),
            None => None,
        }
    } else {
        None
    }
}

/// The total quantity the cart demands for one (product, variant) key,
/// summed across all its lines: sufficiency is checked against this
/// aggregate, never line by line.
pub open spec fn spec_demand(items: Seq<CartItem>, product_id: i32, color: Option<Seq<char>>) -> int
    decreases items.len(),
{
    if items.len() == 0 {
        0
    } else {
        spec_demand(items.drop_last(), product_id, color) + (if items.last().product_id
            == product_id && spec_color_view(items.last().color) == color {
            items.last().quantity as int
        } else {
            0
        })
    }
}

/// With non-negative quantities the demand of a prefix never exceeds the
/// demand of the whole cart.
proof fn lemma_demand_prefix(items: Seq<CartItem>, product_id: i32, color: Option<Seq<char>>, i: int)
    requires
        0 <= i <= items.len(),
        forall|k: int| 0 <= k < items.len() ==> (#[trigger] items[k]).quantity >= 0,
    ensures
        spec_demand(items.take(i), product_id, color) <= spec_demand(items, product_id, color),
    decreases items.len() - i,
{
    if i == items.len() {
        assert(items.take(i) =~= items);
    } else {
        assert(items.take(i + 1).drop_last() =~= items.take(i));
        assert(items.take(i + 1).last() == items[i]);
        lemma_demand_prefix(items, product_id, color, i + 1);
    }
}

/// With non-negative quantities the demand is non-negative.
proof fn lemma_demand_nonneg(items: Seq<CartItem>, product_id: i32, color: Option<Seq<char>>)
    requires
        forall|k: int| 0 <= k < items.len() ==> (#[trigger] items[k]).quantity >= 0,
    ensures
        spec_demand(items, product_id, color) >= 0,
    decreases items.len(),
{
    if items.len() > 0 {
        assert(forall|k: int|
            0 <= k < items.len() - 1 ==> (#[trigger] items.drop_last()[k]).quantity >= 0);
        lemma_demand_nonneg(items.drop_last(), product_id, color);
    }
}

/// Decides whether the cart's aggregate demand for a key stays within the
/// given stock.
#[verifier::loop_isolation(false)]
pub fn demand_within(
    items: &Vec<CartItem>,
    product_id: i32,
    color: &Option<String>,
    stock: u64,
) -> (r: bool)
    requires
        forall|k: int| 0 <= k < items@.len() ==> (#[trigger] items@[k]).quantity >= 0,
    ensures
        r == (spec_demand(items@, product_id, spec_color_view(*color)) <= stock),
{
    let n = items.len();
    let mut acc: u64 = 0;
    let mut i: usize = 0;
    assert(items@.take(0) =~= Seq::<CartItem>::empty());
    while i < n
        invariant
            0 <= i <= n,
            acc == spec_demand(items@.take(i as int), product_id, spec_color_view(*color)),
        decreases n - i,
    {
        proof {
            assert(items@.take(i + 1).drop_last() =~= items@.take(i as int));
            assert(items@.take(i + 1).last() == items@[i as int]);
        }
        if items[i].product_id == product_id && color_eq(&items[i].color, color) {
            acc = match acc.checked_add(items[i].quantity as u64) {
                Some(a) => a,
                None => {
                    proof {
                        lemma_demand_prefix(items@, product_id, spec_color_view(*color), i + 1);
                    }
                    return false;
                },
            };
        }
        i += 1;
    }
    assert(items@.take(n as int) =~= items@);
    acc <= stock
}

/// The first line with a non-positive quantity at or after position `j`,
/// or -1.
pub open spec fn spec_first_bad_qty(items: Seq<CartItem>, j: int) -> int
    decreases items.len() - j,
{
    if j < 0 || j >= items.len() {
        -1
    } else if items[j].quantity <= 0 {
        j
    } else {
        spec_first_bad_qty(items, j + 1)
    }
}

/// What can disqualify one cart line, checked in this order.
#[derive(Clone, Copy, PartialEq, Eq, Structural, Debug)]
pub enum LineFault {
    NotFound,
    Disabled,
    ColorRequired,
    ColorUnavailable,
    InsufficientStock,
}

/// The first fault of one line: an unknown or disabled product, a missing
/// colour selector where the product has several colours, an unresolvable
/// display image, or aggregate demand above the ledger's stock (a missing
/// ledger row counts as no stock).
pub open spec fn spec_line_fault(
    catalog: Seq<ProductSnapshot>,
    entries: Seq<crate::ledger::LedgerEntry>,
    items: Seq<CartItem>,
    line: CartItem,
) -> Option<LineFault> {
    let pidx = spec_find_product(catalog, line.product_id);
    if pidx < 0 {
        Some(LineFault::NotFound)
    } else if !catalog[pidx].enabled {
        Some(LineFault::Disabled)
    } else {
        let images = catalog[pidx].images@;
        if spec_has_two_colors(images) && line.color is None {
            Some(LineFault::ColorRequired)
        } else if spec_resolve_image(images, spec_color_view(line.color)) < 0 {
            Some(LineFault::ColorUnavailable)
        } else {
            let eidx = spec_find_entry(entries, line.product_id, spec_color_view(line.color));
            let stock = if eidx >= 0 {
                entries[eidx].quantity as int
            } else {
                -1
            };
            if stock < spec_demand(items, line.product_id, spec_color_view(line.color)) {
                Some(LineFault::InsufficientStock)
            } else {
                None
            }
        }
    }
}

/// The first faulty line at or after position `j`, with its fault.
pub open spec fn spec_first_fault_from(
    catalog: Seq<ProductSnapshot>,
    entries: Seq<crate::ledger::LedgerEntry>,
    items: Seq<CartItem>,
    j: int,
) -> Option<(int, LineFault)>
    decreases items.len() - j,
{
    if j < 0 || j >= items.len() {
        None
    } else {
        match spec_line_fault(catalog, entries, items, items[j]) {
            Some(f) => Some((j, f)),
            None => spec_first_fault_from(catalog, entries, items, j + 1),
        }
    }
}

proof fn lemma_first_fault_at(
    catalog: Seq<ProductSnapshot>,
    entries: Seq<crate::ledger::LedgerEntry>,
    items: Seq<CartItem>,
    j: int,
    i: int,
)
    requires
        0 <= j <= i < items.len(),
        forall|k: int|
            j <= k < i ==> spec_line_fault(catalog, entries, items, #[trigger] items[k]) is None,
        spec_line_fault(catalog, entries, items, items[i]) is Some,
    ensures
        spec_first_fault_from(catalog, entries, items, j) == Some(
            (i, spec_line_fault(catalog, entries, items, items[i]).unwrap()),
        ),
    decreases i - j,
{
    if j < i {
        lemma_first_fault_at(catalog, entries, items, j + 1, i);
    }
}

proof fn lemma_first_fault_none(
    catalog: Seq<ProductSnapshot>,
    entries: Seq<crate::ledger::LedgerEntry>,
    items: Seq<CartItem>,
    j: int,
)
    requires
        0 <= j <= items.len(),
        forall|k: int|
            j <= k < items.len() ==> spec_line_fault(
                catalog,
                entries,
                items,
                #[trigger] items[k],
            ) is None,
    ensures
        spec_first_fault_from(catalog, entries, items, j) is None,
    decreases items.len() - j,
{
    if j < items.len() {
        lemma_first_fault_none(catalog, entries, items, j + 1);
    }
}

/// The line total for one cart line, in micros.
pub open spec fn spec_line_total_micros(catalog: Seq<ProductSnapshot>, line: CartItem) -> int {
    let pidx = spec_find_product(catalog, line.product_id);
    spec_unit_price_micros(catalog[pidx].price_cents, catalog[pidx].discount_bp) * line.quantity
}

/// The sum of the cart's line totals, in micros.
pub open spec fn spec_cart_sum_micros(catalog: Seq<ProductSnapshot>, items: Seq<CartItem>) -> int
    decreases items.len(),
{
    if items.len() == 0 {
        0
    } else {
        spec_cart_sum_micros(catalog, items.drop_last()) + spec_line_total_micros(
            catalog,
            items.last(),
        )
    }
}

/// The order total in micros: the cart sum plus the delivery surcharge.
pub open spec fn spec_cart_total_micros(
    catalog: Seq<ProductSnapshot>,
    items: Seq<CartItem>,
) -> int {
    spec_cart_sum_micros(catalog, items) + DELIVERY_MICROS
}

/// The order amount in minor units: the total truncated once, at the end.
pub open spec fn spec_cart_amount_minor(
    catalog: Seq<ProductSnapshot>,
    items: Seq<CartItem>,
) -> int {
    spec_cart_total_micros(catalog, items) / (MICROS_PER_MINOR as int)
}

/// Whether every line addresses a known, well-formed catalog product with
/// a positive quantity: what holds of a cart that passed validation.
pub open spec fn spec_lines_priceable(
    catalog: Seq<ProductSnapshot>,
    items: Seq<CartItem>,
) -> bool {
    forall|k: int|
        0 <= k < items.len() ==> {
            let pidx = spec_find_product(catalog, (#[trigger] items[k]).product_id);
            &&& items[k].quantity >= 1
            &&& pidx >= 0
            &&& catalog[pidx].wf()
        }
}

/// For a priceable cart every line total is non-negative.
proof fn lemma_cart_line_nonneg(catalog: Seq<ProductSnapshot>, items: Seq<CartItem>, k: int)
    requires
        0 <= k < items.len(),
        spec_lines_priceable(catalog, items),
    ensures
        spec_line_total_micros(catalog, items[k]) >= 0,
{
    let line = items[k];
    let pidx = spec_find_product(catalog, line.product_id);
    assert(spec_unit_price_micros(catalog[pidx].price_cents, catalog[pidx].discount_bp)
        * line.quantity >= 0) by (nonlinear_arith)
        requires
            catalog[pidx].price_cents >= 0,
            catalog[pidx].discount_bp <= 10000,
            line.quantity >= 1,
    ;
}

/// For a priceable cart the sum of a prefix is non-negative and never
/// exceeds the sum of the whole cart.
proof fn lemma_cart_sum_prefix(catalog: Seq<ProductSnapshot>, items: Seq<CartItem>, i: int)
    requires
        0 <= i <= items.len(),
        spec_lines_priceable(catalog, items),
    ensures
        spec_cart_sum_micros(catalog, items.take(i)) <= spec_cart_sum_micros(catalog, items),
        spec_cart_sum_micros(catalog, items.take(i)) >= 0,
    decreases items.len() - i,
{
    if i == items.len() {
        assert(items.take(i) =~= items);
        lemma_cart_sum_nonneg_aux(catalog, items, i);
    } else {
        assert(items.take(i + 1).drop_last() =~= items.take(i));
        assert(items.take(i + 1).last() == items[i]);
        lemma_cart_line_nonneg(catalog, items, i);
        lemma_cart_sum_prefix(catalog, items, i + 1);
        lemma_cart_sum_nonneg_aux(catalog, items, i);
    }
}

/// The sum of the first `i` line totals of a priceable cart is
/// non-negative.
proof fn lemma_cart_sum_nonneg_aux(catalog: Seq<ProductSnapshot>, items: Seq<CartItem>, i: int)
    requires
        0 <= i <= items.len(),
        spec_lines_priceable(catalog, items),
    ensures
        spec_cart_sum_micros(catalog, items.take(i)) >= 0,
    decreases i,
{
    if i > 0 {
        assert(items.take(i).drop_last() =~= items.take(i - 1));
        assert(items.take(i).last() == items[i - 1]);
        lemma_cart_line_nonneg(catalog, items, i - 1);
        lemma_cart_sum_nonneg_aux(catalog, items, i - 1);
    }
}

/// The order-item data one cart line is recorded with: the chosen variant
/// and the price, name and image snapshots taken from the catalog now.
pub open spec fn spec_line_data(catalog: Seq<ProductSnapshot>, line: CartItem) -> OrderItemData {
    let pidx = spec_find_product(catalog, line.product_id);
    let p = catalog[pidx];
    let img = p.images@[spec_resolve_image(p.images@, spec_color_view(line.color))];
    OrderItemData {
        product_id: line.product_id,
        color: line.color,
        quantity: line.quantity as u64,
        price_at_purchase: spec_unit_price_micros(p.price_cents, p.discount_bp) as u64,
        product_name: p.name,
        image: img,
    }
}

/// How one checkout request is decided, in the order the checks run.
pub enum CheckoutDecision {
    Unauthorized,
    EmptyCart,
    InvalidEmail,
    MissingAddress,
    InvalidQuantity(i32),
    InvalidCustomer,
    FaultyLine(i32, LineFault),
    AmountOverflow,
    Priced(u64),
}

/// The decision for a request against a catalog and ledger state: the
/// first failing check, or the priced amount in minor units.
pub open spec fn spec_checkout_decision(
    catalog: Seq<ProductSnapshot>,
    entries: Seq<crate::ledger::LedgerEntry>,
    claims: Claims,
    req: CheckoutRequest,
) -> CheckoutDecision {
    if !(spec_parse_digits(claims.sub@) matches Some(v) && v <= i32::MAX) {
        CheckoutDecision::Unauthorized
    } else if req.items@.len() == 0 {
        CheckoutDecision::EmptyCart
    } else if !spec_email_ok(req.email@) {
        CheckoutDecision::InvalidEmail
    } else if req.address@.len() == 0 {
        CheckoutDecision::MissingAddress
    } else if spec_first_bad_qty(req.items@, 0) >= 0 {
        CheckoutDecision::InvalidQuantity(req.items@[spec_first_bad_qty(req.items@, 0)].product_id)
    } else if spec_customer_of(req) is None {
        CheckoutDecision::InvalidCustomer
    } else {
        match spec_first_fault_from(catalog, entries, req.items@, 0) {
            Some((i, f)) => CheckoutDecision::FaultyLine(req.items@[i].product_id, f),
            None => {
                if spec_cart_total_micros(catalog, req.items@) > u64::MAX {
                    CheckoutDecision::AmountOverflow
                } else {
                    CheckoutDecision::Priced(spec_cart_amount_minor(catalog, req.items@) as u64)
                }
            },
        }
    }
}

/// Builds a message of the shape `{prefix}{product id}`.
fn msg_id(prefix: &str, product_id: i32) -> (r: String)
    ensures
        r@ == prefix@ + spec_dec_i64(product_id as int),
{
    let mut r = prefix.to_owned();
    let id_s = i64_to_string(product_id as i64);
    r.append(id_s.as_str());
    r
}

/// Builds a message of the shape `{prefix}{product id}{suffix}`.
fn msg_id_suffix(prefix: &str, product_id: i32, suffix: &str) -> (r: String)
    ensures
        r@ == prefix@ + spec_dec_i64(product_id as int) + suffix@,
{
    let mut r = prefix.to_owned();
    let id_s = i64_to_string(product_id as i64);
    r.append(id_s.as_str());
    r.append(suffix);
    r
}

/// What a successful checkout hands back to the caller: the fresh order
/// reference, the priced amount, and the signed gateway request still to
/// be sent.
#[derive(Debug)]
pub struct CheckoutPrep {
    pub order_id: String,
    pub amount: u64,
    pub request: CheckoutSessionRequest,
}

/// Drives one checkout request up to the gateway call: validate the cart,
/// check aggregate demand against the ledger, price the order, persist the
/// pending order with its item snapshots, and prepare the signed
/// checkout-session request. The ledger is read, never written — stock is
/// only reserved logically; the decrement is deferred to settlement.
///
/// A priced cart succeeds, with one exception the contract names: the
/// freshly drawn order reference can collide with a stored one, so a
/// `Conflict` is possible only when some stored order already carries a
/// 41-character reference prefixed `tene_` — never on a store without one.
#[verifier::loop_isolation(false)]
pub fn checkout(
    store: &mut OrderStore,
    ledger: &Ledger,
    catalog: &Vec<ProductSnapshot>,
    cfg: &GatewayConfig,
    claims: &Claims,
    payload: &CheckoutRequest,
) -> (r: Result<CheckoutPrep, AppError>)
    requires
        old(store).wf(),
        old(store).next_id < i32::MAX,
        forall|k: int| 0 <= k < catalog@.len() ==> (#[trigger] catalog@[k]).wf(),
    ensures
        final(store).wf(),
        ({
            let d = spec_checkout_decision(catalog@, ledger.entries@, *claims, *payload);
            match d {
                CheckoutDecision::Unauthorized => r matches Err(e) && e is Unauthorized
                    && *final(store) == *old(store),
                CheckoutDecision::EmptyCart => r matches Err(AppError::BadRequest(m)) && m@
                    == "Cart is empty"@ && *final(store) == *old(store),
                CheckoutDecision::InvalidEmail => r matches Err(AppError::BadRequest(m)) && m@
                    == "Invalid email"@ && *final(store) == *old(store),
                CheckoutDecision::MissingAddress => r matches Err(AppError::BadRequest(m)) && m@
                    == "Address is required"@ && *final(store) == *old(store),
                CheckoutDecision::InvalidQuantity(pid) => r matches Err(AppError::BadRequest(m))
                    && m@ == "Invalid quantity for product "@ + spec_dec_i64(pid as int)
                    && *final(store) == *old(store),
                CheckoutDecision::InvalidCustomer => r matches Err(AppError::BadRequest(m)) && m@
                    == "Invalid customer information"@ && *final(store) == *old(store),
                CheckoutDecision::FaultyLine(pid, f) => *final(store) == *old(store) && (match f {
                    LineFault::NotFound => r matches Err(AppError::NotFound(m)) && m@
                        == "Product "@ + spec_dec_i64(pid as int) + " not found"@,
                    LineFault::Disabled => r matches Err(AppError::BadRequest(m)) && m@
                        == "Product "@ + spec_dec_i64(pid as int) + " is not available"@,
                    LineFault::ColorRequired => r matches Err(AppError::BadRequest(m)) && m@
                        == "Color is required for product "@ + spec_dec_i64(pid as int),
                    LineFault::ColorUnavailable => r matches Err(AppError::BadRequest(m)) && m@
                        == "Color not available for product "@ + spec_dec_i64(pid as int),
                    LineFault::InsufficientStock => r matches Err(AppError::BadRequest(m)) && m@
                        == "Insufficient stock for product "@ + spec_dec_i64(pid as int),
                }),
                CheckoutDecision::AmountOverflow => r matches Err(e) && e is InternalError
                    && *final(store) == *old(store),
                CheckoutDecision::Priced(amount) => match r {
                    Err(e) => e is Conflict && *final(store) == *old(store) && (exists|k: int|
                        0 <= k < old(store).orders@.len() && (
                        #[trigger] old(store).orders@[k]).order_id@.len() == 41 && old(
                            store,
                        ).orders@[k].order_id@.subrange(0, 5) == "tene_"@),
                    Ok(prep) => {
                        let uid = spec_parse_digits(claims.sub@).unwrap() as i32;
                        &&& prep.amount == amount
                        &&& amount >= 1
                        &&& prep.order_id@.len() == 41
                        &&& prep.order_id@.subrange(0, 5) == "tene_"@
                        &&& spec_find_order(old(store).orders@, prep.order_id@) == -1
                        &&& final(store).orders@.len() == old(store).orders@.len() + 1
                        &&& final(store).orders@.drop_last() == old(store).orders@
                        &&& spec_is_new_order(
                            final(store).orders@.last(),
                            old(store).next_id,
                            uid,
                            prep.order_id@,
                            amount,
                            spec_customer_of(*payload).unwrap(),
                            *payload,
                        )
                        &&& final(store).items@.len() == old(store).items@.len()
                            + payload.items@.len()
                        &&& final(store).items@.take(old(store).items@.len() as int) == old(
                            store,
                        ).items@
                        &&& forall|k: int|
                            0 <= k < payload.items@.len() ==> final(store).items@[old(
                                store,
                            ).items@.len() + k] == spec_item_of(
                                spec_line_data(catalog@, #[trigger] payload.items@[k]),
                                old(store).next_id,
                            )
                        &&& final(store).next_id == old(store).next_id + 1
                        &&& prep.request.merchant_id == cfg.merchant_id
                        &&& prep.request.order_id@ == prep.order_id@
                        &&& prep.request.amount == amount
                        &&& prep.request.order_desc@ == "Tene order "@ + prep.order_id@
                        &&& prep.request.server_callback_url@ == cfg.backend_url@
                            + "/payments/callback"@
                        &&& prep.request.response_url@ == cfg.frontend_url@ + "/checkout/result"@
                        &&& prep.request.signature@ == spec_signature(
                            cfg.secret_key@,
                            spec_checkout_params(
                                cfg.merchant_id,
                                prep.order_id@,
                                amount,
                                "Tene order "@ + prep.order_id@,
                                cfg.backend_url@ + "/payments/callback"@,
                                cfg.frontend_url@ + "/checkout/result"@,
                            ),
                        )
                    },
                },
            }
        }),
{
    let user_id = match extract_user_id(claims) {
        Ok(u) => u,
        Err(e) => {
            return Err(e);
        },
    };
    if payload.items.len() == 0 {
        return Err(AppError::BadRequest("Cart is empty".to_owned()));
    }
    if payload.email.as_str().is_empty() || !contains_char(payload.email.as_str(), '@') {
        return Err(AppError::BadRequest("Invalid email".to_owned()));
    }
    if payload.address.as_str().is_empty() {
        return Err(AppError::BadRequest("Address is required".to_owned()));
    }
    let n = payload.items.len();
    let mut i: usize = 0;
    while i < n
        invariant
            0 <= i <= n,
            forall|k: int| 0 <= k < i ==> (#[trigger] payload.items@[k]).quantity >= 1,
        decreases n - i,
    {
        if payload.items[i].quantity <= 0 {
            proof {
                lemma_bad_qty_at(payload.items@, 0, i as int);
            }
            return Err(
                AppError::BadRequest(
                    msg_id("Invalid quantity for product ", payload.items[i].product_id),
                ),
            );
        }
        i += 1;
    }
    proof {
        lemma_bad_qty_none(payload.items@, 0);
    }
    let customer = match resolve_customer(payload) {
        Some(c) => c,
        None => {
            return Err(AppError::BadRequest("Invalid customer information".to_owned()));
        },
    };
    // first pass: validate every line and remember its catalog positions
    let mut pidxs: Vec<usize> = Vec::new();
    let mut images_resolved: Vec<crate::catalog::ProductImage> = Vec::new();
    let mut i2: usize = 0;
    while i2 < n
        invariant
            0 <= i2 <= n,
            pidxs@.len() == i2,
            images_resolved@.len() == i2,
            forall|k: int|
                0 <= k < i2 ==> spec_line_fault(
                    catalog@,
                    ledger.entries@,
                    payload.items@,
                    #[trigger] payload.items@[k],
                ) is None,
            forall|k: int|
                0 <= k < i2 ==> (#[trigger] pidxs@[k]) as int == spec_find_product(
                    catalog@,
                    payload.items@[k].product_id,
                ) && pidxs@[k] < catalog@.len(),
            forall|k: int|
                0 <= k < i2 ==> #[trigger] images_resolved@[k]
                    == catalog@[pidxs@[k] as int].images@[spec_resolve_image(
                    catalog@[pidxs@[k] as int].images@,
                    spec_color_view(payload.items@[k].color),
                )],
        decreases n - i2,
    {
        let line = &payload.items[i2];
        let pid = line.product_id;
        let product = match find_product(catalog, pid) {
            Some(p) => p,
            None => {
                proof {
                    lemma_first_fault_at(catalog@, ledger.entries@, payload.items@, 0, i2 as int);
                }
                return Err(
                    AppError::NotFound(msg_id_suffix("Product ", pid, " not found")),
                );
            },
        };
        let ghost pidx = spec_find_product(catalog@, pid);
        if !product.enabled {
            proof {
                lemma_first_fault_at(catalog@, ledger.entries@, payload.items@, 0, i2 as int);
            }
            return Err(
                AppError::BadRequest(msg_id_suffix("Product ", pid, " is not available")),
            );
        }
        if has_two_colors(&product.images) && line.color.is_none() {
            proof {
                lemma_first_fault_at(catalog@, ledger.entries@, payload.items@, 0, i2 as int);
            }
            return Err(
                AppError::BadRequest(msg_id("Color is required for product ", pid)),
            );
        }
        let display_image = match resolve_image(&product.images, &line.color) {
            Some(img) => clone_image(img),
            None => {
                proof {
                    lemma_first_fault_at(catalog@, ledger.entries@, payload.items@, 0, i2 as int);
                }
                return Err(
                    AppError::BadRequest(msg_id("Color not available for product ", pid)),
                );
            },
        };
        let stock = ledger.quantity(pid, &line.color);
        let enough = match stock {
            Some(q) => demand_within(&payload.items, pid, &line.color, q),
            None => {
                proof {
                    lemma_demand_nonneg(
                        payload.items@,
                        pid,
                        spec_color_view(payload.items@[i2 as int].color),
                    );
                }
                false
            },
        };
        if !enough {
            proof {
                lemma_first_fault_at(catalog@, ledger.entries@, payload.items@, 0, i2 as int);
            }
            return Err(
                AppError::BadRequest(msg_id("Insufficient stock for product ", pid)),
            );
        }
        let cat_idx = find_product_index(catalog, pid);
        pidxs.push(cat_idx);
        images_resolved.push(display_image);
        i2 += 1;
    }
    proof {
        lemma_first_fault_none(catalog@, ledger.entries@, payload.items@, 0);
        assert forall|k: int| 0 <= k < payload.items@.len() implies ({
            let pidx = spec_find_product(catalog@, (#[trigger] payload.items@[k]).product_id);
            &&& payload.items@[k].quantity >= 1
            &&& pidx >= 0
            &&& catalog@[pidx].wf()
        }) by {
            assert(pidxs@[k] as int == spec_find_product(
                catalog@,
                payload.items@[k].product_id,
            ));
        }
        assert(spec_lines_priceable(catalog@, payload.items@));
    }
    // second pass: price every line and take the item snapshots
    let mut lines: Vec<(u64, u64)> = Vec::new();
    let mut data: Vec<OrderItemData> = Vec::new();
    let mut i3: usize = 0;
    assert(payload.items@.take(0) =~= Seq::<CartItem>::empty());
    while i3 < n
        invariant
            0 <= i3 <= n,
            pidxs@.len() == n,
            images_resolved@.len() == n,
            lines@.len() == i3,
            data@.len() == i3,
            forall|k: int|
                0 <= k < n ==> (#[trigger] pidxs@[k]) as int == spec_find_product(
                    catalog@,
                    payload.items@[k].product_id,
                ) && pidxs@[k] < catalog@.len(),
            forall|k: int|
                0 <= k < n ==> #[trigger] images_resolved@[k]
                    == catalog@[pidxs@[k] as int].images@[spec_resolve_image(
                    catalog@[pidxs@[k] as int].images@,
                    spec_color_view(payload.items@[k].color),
                )],
            forall|k: int| 0 <= k < lines@.len() ==> (#[trigger] lines@[k]).1 >= 1,
            spec_sum_micros(lines@) == spec_cart_sum_micros(
                catalog@,
                payload.items@.take(i3 as int),
            ),
            forall|k: int|
                0 <= k < i3 ==> data@[k] == spec_line_data(catalog@, #[trigger] payload.items@[k]),
        decreases n - i3,
    {
        let line = &payload.items[i3];
        let cat_idx = pidxs[i3];
        let product = &catalog[cat_idx];
        proof {
            assert(payload.items@.take(i3 + 1).drop_last() =~= payload.items@.take(i3 as int));
            assert(payload.items@.take(i3 + 1).last() == payload.items@[i3 as int]);
        }
        let unit = match unit_price_micros(product.price_cents, product.discount_bp) {
            Some(u) => u,
            None => {
                proof {
                    lemma_overflow_implies_total(catalog@, payload.items@, i3 as int);
                }
                return Err(AppError::InternalError("Failed to calculate amount".to_owned()));
            },
        };
        let qty = line.quantity as u64;
        let ghost prev_lines = lines@;
        lines.push((unit, qty));
        proof {
            assert(lines@.drop_last() =~= prev_lines);
            assert(lines@.last() == (unit, qty));
        }
        let item_data = OrderItemData {
            product_id: line.product_id,
            color: clone_color(&line.color),
            quantity: qty,
            price_at_purchase: unit,
            product_name: product.name.clone(),
            image: clone_image(&images_resolved[i3]),
        };
        data.push(item_data);
        i3 += 1;
    }
    proof {
        assert(payload.items@.take(n as int) =~= payload.items@);
    }
    let amount = match order_amount_minor(&lines) {
        Ok(a) => a,
        Err(e) => {
            return Err(e);
        },
    };
    let order_ref = new_order_reference();
    let order_id_copy = order_ref.clone();
    proof {
        assert forall|k: int| 0 <= k < data@.len() implies (#[trigger] data@[k]).quantity
            >= 1 by {
            assert(data@[k] == spec_line_data(catalog@, payload.items@[k]));
            assert(payload.items@[k].quantity >= 1);
        }
    }
    match store.create_order_with_items(user_id, order_id_copy, amount, customer, payload, data) {
        Ok(_created) => {
            proof {
                assert(store.orders@.drop_last() =~= old(store).orders@);
            }
            let mut server_callback_url = cfg.backend_url.clone();
            server_callback_url.append("/payments/callback");
            let mut response_url = cfg.frontend_url.clone();
            response_url.append("/checkout/result");
            let mut order_desc = "Tene order ".to_owned();
            order_desc.append(order_ref.as_str());
            let request = build_checkout_request(
                cfg.merchant_id,
                cfg.secret_key.as_str(),
                order_ref.as_str(),
                amount,
                order_desc.as_str(),
                server_callback_url.as_str(),
                response_url.as_str(),
            );
            Ok(CheckoutPrep { order_id: order_ref, amount, request })
        },
        Err(e) => {
            // the store refused the reference, so a stored order already
            // carries the freshly drawn one: a collision witness
            proof {
                crate::store::lemma_find_order_props(old(store).orders@, order_ref@);
                let idx = spec_find_order(old(store).orders@, order_ref@);
                assert(0 <= idx < old(store).orders@.len());
                assert(old(store).orders@[idx].order_id@.len() == 41);
                assert(old(store).orders@[idx].order_id@.subrange(0, 5) == "tene_"@);
            }
            Err(e)
        },
    }
}

proof fn lemma_bad_qty_at(items: Seq<CartItem>, j: int, i: int)
    requires
        0 <= j <= i < items.len(),
        forall|k: int| j <= k < i ==> (#[trigger] items[k]).quantity >= 1,
        items[i].quantity <= 0,
    ensures
        spec_first_bad_qty(items, j) == i,
    decreases i - j,
{
    if j < i {
        lemma_bad_qty_at(items, j + 1, i);
    }
}

proof fn lemma_bad_qty_none(items: Seq<CartItem>, j: int)
    requires
        0 <= j <= items.len(),
        forall|k: int| j <= k < items.len() ==> (#[trigger] items[k]).quantity >= 1,
    ensures
        spec_first_bad_qty(items, j) == -1,
    decreases items.len() - j,
{
    if j < items.len() {
        lemma_bad_qty_none(items, j + 1);
    }
}

/// If one line's unit price alone exceeds `u64::MAX`, so does the order
/// total.
proof fn lemma_overflow_implies_total(
    catalog: Seq<ProductSnapshot>,
    items: Seq<CartItem>,
    i: int,
)
    requires
        0 <= i < items.len(),
        spec_lines_priceable(catalog, items),
        ({
            let pidx = spec_find_product(catalog, items[i].product_id);
            spec_unit_price_micros(catalog[pidx].price_cents, catalog[pidx].discount_bp)
                > u64::MAX
        }),
    ensures
        spec_cart_total_micros(catalog, items) > u64::MAX,
{
    let pidx = spec_find_product(catalog, items[i].product_id);
    let unit = spec_unit_price_micros(catalog[pidx].price_cents, catalog[pidx].discount_bp);
    assert(unit * items[i].quantity >= unit) by (nonlinear_arith)
        requires
            unit >= 0,
            items[i].quantity >= 1,
    ;
    assert(items.take(i + 1).drop_last() =~= items.take(i));
    assert(items.take(i + 1).last() == items[i]);
    lemma_cart_sum_prefix(catalog, items, i + 1);
    lemma_cart_sum_prefix(catalog, items, i);
}

/// The position of the product `find_product` finds.
#[verifier::loop_isolation(false)]
fn find_product_index(catalog: &Vec<ProductSnapshot>, product_id: i32) -> (r: usize)
    requires
        spec_find_product(catalog@, product_id) >= 0,
    ensures
        r as int == spec_find_product(catalog@, product_id),
        r < catalog@.len(),
{
    let n = catalog.len();
    let mut i: usize = 0;
    while i < n
        invariant
            0 <= i <= n,
            forall|k: int| 0 <= k < i ==> (#[trigger] catalog@[k]).id != product_id,
        decreases n - i,
    {
        if catalog[i].id == product_id {
            proof {
                crate::catalog::lemma_find_product_at(catalog@, product_id, i as int);
            }
            return i;
        }
        i += 1;
    }
    proof {
        crate::catalog::lemma_find_product_none(catalog@, product_id);
    }
    unreached()
}

/// Settles the gateway's answer into the order: interprets the provider's
/// response, records the redirect URL on the order, and shapes the
/// response to the client. A gateway failure leaves the pending order
/// without a URL — the accepted, inspectable abandoned state.
pub fn finish_checkout(
    store: &mut OrderStore,
    order_id: String,
    resp: &Option<GatewayResponse>,
) -> (r: Result<CheckoutResponse, AppError>)
    requires
        old(store).wf(),
    ensures
        final(store).wf(),
        match spec_interpret_response(*resp) {
            Err(msg) => r matches Err(AppError::InternalError(m)) && m@ == msg && *final(store)
                == *old(store),
            Ok(url) => {
                let idx = spec_find_order(old(store).orders@, order_id@);
                &&& r matches Ok(resp_out) && resp_out.order_id@ == order_id@
                    && resp_out.checkout_url@ == url
                &&& (idx < 0 ==> *final(store) == *old(store))
                &&& (idx >= 0 ==> {
                    &&& final(store).items@ == old(store).items@
                    &&& final(store).next_id == old(store).next_id
                    &&& final(store).orders@.len() == old(store).orders@.len()
                    &&& forall|k: int|
                        0 <= k < old(store).orders@.len() && k != idx ==> final(store).orders@[k]
                            == old(store).orders@[k]
                    &&& ({
                        let o = final(store).orders@[idx];
                        &&& o.checkout_url matches Some(u) && u@ == url
                        &&& o == Order { checkout_url: o.checkout_url, ..old(store).orders@[idx] }
                    })
                })
            },
        },
{
    let url = match interpret_checkout_response(resp) {
        Ok(u) => u,
        Err(e) => {
            return Err(e);
        },
    };
    let _ = store.update_order_checkout_url(order_id.as_str(), url.as_str());
    Ok(CheckoutResponse { order_id, checkout_url: url })
}

} // verus!
