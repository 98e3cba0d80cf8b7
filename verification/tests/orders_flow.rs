use tene_checkout::auth::Claims;
use tene_checkout::callback::{flitt_callback, CallbackResponse};
use tene_checkout::catalog::{ProductImage, ProductSnapshot};
use tene_checkout::checkout::{checkout, finish_checkout};
use tene_checkout::config::GatewayConfig;
use tene_checkout::errors::AppError;
use tene_checkout::flitt::{generate_signature, GatewayResponse};
use tene_checkout::ledger::Ledger;
use tene_checkout::orders::{
    CartItem, CheckoutRequest, CustomerInfo, IndividualInfo, OrderStatus,
};
use tene_checkout::store::OrderStore;

fn product(id: i32, price_cents: u64, discount_bp: u32) -> ProductSnapshot {
    ProductSnapshot {
        id,
        name: format!("Product {}", id),
        enabled: true,
        price_cents,
        discount_bp,
        images: vec![ProductImage {
            product_id: id,
            image_uuid: format!("img-{}", id),
            color: None,
            is_primary: true,
            extension: "jpg".to_string(),
        }],
    }
}

fn gateway_config() -> GatewayConfig {
    GatewayConfig {
        merchant_id: 1400,
        secret_key: "merchant-secret".to_string(),
        backend_url: "https://api.example.com".to_string(),
        frontend_url: "https://shop.example.com".to_string(),
    }
}

fn claims_for(user: &str) -> Claims {
    Claims {
        sub: user.to_string(),
        email: "user@example.com".to_string(),
        exp: 2_000_000_000,
    }
}

fn request(items: Vec<CartItem>) -> CheckoutRequest {
    CheckoutRequest {
        customer_type: "individual".to_string(),
        individual: Some(IndividualInfo {
            name: "Nino".to_string(),
            surname: "B.".to_string(),
        }),
        company: None,
        email: "user@example.com".to_string(),
        phone_number: 555_123_456,
        address: "1 Main Street".to_string(),
        delivery_type: "courier".to_string(),
        delivery_time: "evening".to_string(),
        items,
    }
}

fn signed_callback(secret: &str, fields: &[(&str, &str)]) -> Vec<(String, String)> {
    let mut v: Vec<(String, String)> = fields
        .iter()
        .map(|(k, val)| (k.to_string(), val.to_string()))
        .collect();
    let sig = generate_signature(secret, &v);
    v.push(("signature".to_string(), sig));
    v
}

fn approved_callback(secret: &str, order_id: &str) -> Vec<(String, String)> {
    signed_callback(
        secret,
        &[
            ("amount", "10500"),
            ("currency", "GEL"),
            ("order_id", order_id),
            ("order_status", "approved"),
            ("payment_id", "777"),
        ],
    )
}

#[test]
fn end_to_end_checkout_approval_and_replay() {
    // cart [{productId=7, quantity=2}], product 7 at 50.00, no discount,
    // one primary variant with stock 5
    let catalog = vec![product(7, 5000, 0)];
    let mut ledger = Ledger::new();
    assert!(ledger.add_entry(7, None, 5));
    let mut store = OrderStore::new();
    let cfg = gateway_config();
    let payload = request(vec![CartItem { product_id: 7, color: None, quantity: 2 }]);

    let prep = checkout(
        &mut store,
        &ledger,
        &catalog,
        &cfg,
        &claims_for("42"),
        &payload,
    )
    .unwrap();

    // amount = (2 * 50.00 + 5.00 delivery) * 100, truncated
    assert_eq!(prep.amount, 10_500);
    assert!(prep.order_id.starts_with("tene_"));
    assert_eq!(prep.order_id.len(), 41);
    assert_eq!(prep.request.amount, 10_500);
    assert_eq!(prep.request.merchant_id, 1400);
    assert_eq!(prep.request.order_id, prep.order_id);
    assert_eq!(
        prep.request.server_callback_url,
        "https://api.example.com/payments/callback"
    );
    assert_eq!(
        prep.request.response_url,
        "https://shop.example.com/checkout/result"
    );

    // the order is pending and stock is untouched until approval
    assert_eq!(store.orders.len(), 1);
    assert_eq!(store.orders[0].status, OrderStatus::Pending);
    assert_eq!(store.orders[0].amount, 10_500);
    assert_eq!(store.orders[0].user_id, 42);
    assert_eq!(store.items.len(), 1);
    assert_eq!(ledger.quantity(7, &None), Some(5));

    // a valid approved callback settles the order and decrements stock
    let params = approved_callback(&cfg.secret_key, &prep.order_id);
    let r1 = flitt_callback(&mut store, &mut ledger, &cfg.secret_key, &params);
    assert_eq!(r1, CallbackResponse::Accepted);
    assert_eq!(r1.status_code(), 200);
    assert_eq!(store.orders[0].status, OrderStatus::Approved);
    assert_eq!(store.orders[0].payment_id, Some(777));
    assert_eq!(ledger.quantity(7, &None), Some(3));

    // the identical callback again is a pure no-op, still acknowledged
    let r2 = flitt_callback(&mut store, &mut ledger, &cfg.secret_key, &params);
    assert_eq!(r2, CallbackResponse::Accepted);
    assert_eq!(store.orders[0].status, OrderStatus::Approved);
    assert_eq!(store.orders[0].payment_id, Some(777));
    assert_eq!(ledger.quantity(7, &None), Some(3));
}

#[test]
fn aggregate_demand_is_checked_not_lines() {
    // two lines of the same (product, variant) with quantities 3 and 4
    // against stock 6: each line alone fits, the aggregate of 7 does not
    let catalog = vec![product(7, 5000, 0)];
    let mut ledger = Ledger::new();
    assert!(ledger.add_entry(7, None, 6));
    let mut store = OrderStore::new();
    let payload = request(vec![
        CartItem { product_id: 7, color: None, quantity: 3 },
        CartItem { product_id: 7, color: None, quantity: 4 },
    ]);
    let r = checkout(
        &mut store,
        &ledger,
        &catalog,
        &gateway_config(),
        &claims_for("42"),
        &payload,
    );
    match r {
        Err(AppError::BadRequest(m)) => assert_eq!(m, "Insufficient stock for product 7"),
        _ => panic!("expected a bad-request rejection"),
    }
    assert_eq!(store.orders.len(), 0);
    assert_eq!(ledger.quantity(7, &None), Some(6));
}

#[test]
fn price_snapshot_survives_catalog_changes() {
    // product at 100.00 with 10% discount: captured unit price 90.00
    let mut catalog = vec![product(3, 10_000, 1000)];
    let mut ledger = Ledger::new();
    assert!(ledger.add_entry(3, None, 10));
    let mut store = OrderStore::new();
    let payload = request(vec![CartItem { product_id: 3, color: None, quantity: 1 }]);
    checkout(
        &mut store,
        &ledger,
        &catalog,
        &gateway_config(),
        &claims_for("42"),
        &payload,
    )
    .unwrap();
    assert_eq!(store.items[0].price_at_purchase, 90_000_000);

    // a later catalog price change must not alter the stored snapshot
    catalog[0].price_cents = 20_000;
    catalog[0].discount_bp = 0;
    assert_eq!(store.items[0].price_at_purchase, 90_000_000);
    assert_eq!(store.items[0].product_name, "Product 3");
}

#[test]
fn tampered_callback_changes_no_state() {
    let catalog = vec![product(7, 5000, 0)];
    let mut ledger = Ledger::new();
    assert!(ledger.add_entry(7, None, 5));
    let mut store = OrderStore::new();
    let cfg = gateway_config();
    let payload = request(vec![CartItem { product_id: 7, color: None, quantity: 2 }]);
    let prep = checkout(&mut store, &ledger, &catalog, &cfg, &claims_for("42"), &payload)
        .unwrap();

    let mut params = approved_callback(&cfg.secret_key, &prep.order_id);
    for p in params.iter_mut() {
        if p.0 == "amount" {
            p.1 = "1".to_string();
        }
    }
    let r = flitt_callback(&mut store, &mut ledger, &cfg.secret_key, &params);
    assert_eq!(r, CallbackResponse::Rejected);
    assert_eq!(r.status_code(), 400);
    assert_eq!(store.orders[0].status, OrderStatus::Pending);
    assert_eq!(store.orders[0].payment_id, None);
    assert_eq!(ledger.quantity(7, &None), Some(5));
}

#[test]
fn callback_without_order_reference_is_rejected() {
    let mut ledger = Ledger::new();
    let mut store = OrderStore::new();
    let params = signed_callback("merchant-secret", &[("order_status", "approved")]);
    let r = flitt_callback(&mut store, &mut ledger, "merchant-secret", &params);
    assert_eq!(r, CallbackResponse::Rejected);
}

#[test]
fn callback_for_unknown_order_is_acknowledged() {
    let mut ledger = Ledger::new();
    let mut store = OrderStore::new();
    let params = approved_callback("merchant-secret", "tene_missing");
    let r = flitt_callback(&mut store, &mut ledger, "merchant-secret", &params);
    assert_eq!(r, CallbackResponse::Accepted);
}

#[test]
fn unknown_status_is_acknowledged_without_transition() {
    let catalog = vec![product(7, 5000, 0)];
    let mut ledger = Ledger::new();
    assert!(ledger.add_entry(7, None, 5));
    let mut store = OrderStore::new();
    let cfg = gateway_config();
    let payload = request(vec![CartItem { product_id: 7, color: None, quantity: 1 }]);
    let prep = checkout(&mut store, &ledger, &catalog, &cfg, &claims_for("42"), &payload)
        .unwrap();

    let params = signed_callback(
        &cfg.secret_key,
        &[("order_id", prep.order_id.as_str()), ("order_status", "processing")],
    );
    let r = flitt_callback(&mut store, &mut ledger, &cfg.secret_key, &params);
    assert_eq!(r, CallbackResponse::Accepted);
    assert_eq!(store.orders[0].status, OrderStatus::Pending);
    assert_eq!(ledger.quantity(7, &None), Some(5));
}

#[test]
fn declined_callback_finalizes_without_stock_action() {
    let catalog = vec![product(7, 5000, 0)];
    let mut ledger = Ledger::new();
    assert!(ledger.add_entry(7, None, 5));
    let mut store = OrderStore::new();
    let cfg = gateway_config();
    let payload = request(vec![CartItem { product_id: 7, color: None, quantity: 2 }]);
    let prep = checkout(&mut store, &ledger, &catalog, &cfg, &claims_for("42"), &payload)
        .unwrap();

    let params = signed_callback(
        &cfg.secret_key,
        &[("order_id", prep.order_id.as_str()), ("order_status", "declined")],
    );
    let r = flitt_callback(&mut store, &mut ledger, &cfg.secret_key, &params);
    assert_eq!(r, CallbackResponse::Accepted);
    assert_eq!(store.orders[0].status, OrderStatus::Declined);
    assert_eq!(ledger.quantity(7, &None), Some(5));

    // a late approval can no longer move the finalized order
    let params2 = approved_callback(&cfg.secret_key, &prep.order_id);
    let r2 = flitt_callback(&mut store, &mut ledger, &cfg.secret_key, &params2);
    assert_eq!(r2, CallbackResponse::Accepted);
    assert_eq!(store.orders[0].status, OrderStatus::Declined);
    assert_eq!(ledger.quantity(7, &None), Some(5));
}

#[test]
fn approval_with_drained_stock_rolls_back() {
    let catalog = vec![product(7, 5000, 0)];
    let mut ledger = Ledger::new();
    assert!(ledger.add_entry(7, None, 5));
    let mut store = OrderStore::new();
    let cfg = gateway_config();
    let payload = request(vec![CartItem { product_id: 7, color: None, quantity: 2 }]);
    let prep = checkout(&mut store, &ledger, &catalog, &cfg, &claims_for("42"), &payload)
        .unwrap();

    // stock drains between checkout and settlement
    assert!(ledger.try_decrement(7, &None, 4));
    assert_eq!(ledger.quantity(7, &None), Some(1));

    let params = approved_callback(&cfg.secret_key, &prep.order_id);
    let r = flitt_callback(&mut store, &mut ledger, &cfg.secret_key, &params);
    // acknowledged to the provider, but the transaction rolled back whole:
    // the order stays pending and nothing was decremented
    assert_eq!(r, CallbackResponse::Accepted);
    assert_eq!(store.orders[0].status, OrderStatus::Pending);
    assert_eq!(ledger.quantity(7, &None), Some(1));
}

#[test]
fn finish_checkout_records_redirect_url() {
    let catalog = vec![product(7, 5000, 0)];
    let mut ledger = Ledger::new();
    assert!(ledger.add_entry(7, None, 5));
    let mut store = OrderStore::new();
    let cfg = gateway_config();
    let payload = request(vec![CartItem { product_id: 7, color: None, quantity: 1 }]);
    let prep = checkout(&mut store, &ledger, &catalog, &cfg, &claims_for("42"), &payload)
        .unwrap();
    assert_eq!(store.orders[0].checkout_url, None);

    let resp = Some(GatewayResponse {
        response_status: Some("success".to_string()),
        error_message: None,
        checkout_url: Some("https://pay.example.com/c/9".to_string()),
    });
    let out = finish_checkout(&mut store, prep.order_id.clone(), &resp).unwrap();
    assert_eq!(out.order_id, prep.order_id);
    assert_eq!(out.checkout_url, "https://pay.example.com/c/9");
    assert_eq!(
        store.orders[0].checkout_url.as_deref(),
        Some("https://pay.example.com/c/9")
    );
}

#[test]
fn gateway_failure_leaves_pending_order_without_url() {
    let catalog = vec![product(7, 5000, 0)];
    let mut ledger = Ledger::new();
    assert!(ledger.add_entry(7, None, 5));
    let mut store = OrderStore::new();
    let cfg = gateway_config();
    let payload = request(vec![CartItem { product_id: 7, color: None, quantity: 1 }]);
    let prep = checkout(&mut store, &ledger, &catalog, &cfg, &claims_for("42"), &payload)
        .unwrap();

    let r = finish_checkout(&mut store, prep.order_id.clone(), &None);
    assert!(matches!(r, Err(AppError::InternalError(_))));
    assert_eq!(store.orders[0].status, OrderStatus::Pending);
    assert_eq!(store.orders[0].checkout_url, None);
}

#[test]
fn user_orders_show_only_finalized_orders_of_that_user() {
    let catalog = vec![product(7, 5000, 0)];
    let mut ledger = Ledger::new();
    assert!(ledger.add_entry(7, None, 50));
    let mut store = OrderStore::new();
    let cfg = gateway_config();
    let payload = request(vec![CartItem { product_id: 7, color: None, quantity: 1 }]);

    let p1 = checkout(&mut store, &ledger, &catalog, &cfg, &claims_for("42"), &payload)
        .unwrap();
    let _p2 = checkout(&mut store, &ledger, &catalog, &cfg, &claims_for("42"), &payload)
        .unwrap();
    let _p3 = checkout(&mut store, &ledger, &catalog, &cfg, &claims_for("99"), &payload)
        .unwrap();

    // only the first order of user 42 is finalized
    let params = approved_callback(&cfg.secret_key, &p1.order_id);
    flitt_callback(&mut store, &mut ledger, &cfg.secret_key, &params);

    let visible = store.get_user_orders(42);
    assert_eq!(visible.len(), 1);
    assert_eq!(visible[0].order_id, p1.order_id);
    assert_eq!(visible[0].status, OrderStatus::Approved);
    assert_eq!(store.get_user_orders(99).len(), 0);

    let items = store.get_items_for_orders(&vec![visible[0].id]);
    assert_eq!(items.len(), 1);
    assert_eq!(items[0].product_id, 7);
}

#[test]
fn order_history_is_most_recent_first_with_items() {
    let catalog = vec![product(7, 5000, 0), product(8, 1000, 0)];
    let mut ledger = Ledger::new();
    assert!(ledger.add_entry(7, None, 50));
    assert!(ledger.add_entry(8, None, 50));
    let mut store = OrderStore::new();
    let cfg = gateway_config();

    let first = checkout(
        &mut store,
        &ledger,
        &catalog,
        &cfg,
        &claims_for("42"),
        &request(vec![CartItem { product_id: 7, color: None, quantity: 1 }]),
    )
    .unwrap();
    let second = checkout(
        &mut store,
        &ledger,
        &catalog,
        &cfg,
        &claims_for("42"),
        &request(vec![CartItem { product_id: 8, color: None, quantity: 2 }]),
    )
    .unwrap();

    for prep in [&first, &second] {
        let params = signed_callback(
            &cfg.secret_key,
            &[("order_id", prep.order_id.as_str()), ("order_status", "approved")],
        );
        assert_eq!(
            flitt_callback(&mut store, &mut ledger, &cfg.secret_key, &params),
            CallbackResponse::Accepted
        );
    }

    let history = store.get_orders(42);
    assert_eq!(history.len(), 2);
    // the most recent order comes first
    assert_eq!(history[0].0.order_id, second.order_id);
    assert_eq!(history[1].0.order_id, first.order_id);
    assert_eq!(history[0].1.len(), 1);
    assert_eq!(history[0].1[0].product_id, 8);
    assert_eq!(history[0].1[0].quantity, 2);
    assert_eq!(history[1].1[0].product_id, 7);
}

#[test]
fn duplicate_order_reference_is_a_conflict() {
    let mut store = OrderStore::new();
    let payload = request(vec![]);
    let customer = CustomerInfo::Individual {
        name: "Nino".to_string(),
        surname: "B.".to_string(),
    };
    store
        .create_order_with_items(1, "tene_fixed".to_string(), 500, customer, &payload, vec![])
        .unwrap();
    let customer2 = CustomerInfo::Individual {
        name: "Nino".to_string(),
        surname: "B.".to_string(),
    };
    let r = store.create_order_with_items(
        1,
        "tene_fixed".to_string(),
        500,
        customer2,
        &payload,
        vec![],
    );
    assert!(matches!(r, Err(AppError::Conflict(_))));
    assert_eq!(store.orders.len(), 1);
}
