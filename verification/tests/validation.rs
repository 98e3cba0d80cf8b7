use tene_checkout::auth::{
    extract_user_id, validate_email, validate_registration, Claims, RegisterRequest,
};
use tene_checkout::catalog::{ProductImage, ProductSnapshot};
use tene_checkout::checkout::checkout;
use tene_checkout::config::{AppConfig, CorsConfig, DatabaseConfig, GatewayConfig, ServerConfig};
use tene_checkout::errors::AppError;
use tene_checkout::ledger::Ledger;
use tene_checkout::orders::{CartItem, CheckoutRequest, IndividualInfo};
use tene_checkout::store::OrderStore;

fn claims_for(user: &str) -> Claims {
    Claims {
        sub: user.to_string(),
        email: "user@example.com".to_string(),
        exp: 2_000_000_000,
    }
}

fn gateway_config() -> GatewayConfig {
    GatewayConfig {
        merchant_id: 1400,
        secret_key: "merchant-secret".to_string(),
        backend_url: "https://api.example.com".to_string(),
        frontend_url: "https://shop.example.com".to_string(),
    }
}

fn request(items: Vec<CartItem>) -> CheckoutRequest {
    CheckoutRequest {
        customer_type: "individual".to_string(),
        individual: Some(IndividualInfo {
            name: "Nino".to_string(),
            surname: "B.".to_string(),
        }),
        company: None,
        email: "user@example.com".to_string(),
        phone_number: 555_123_456,
        address: "1 Main Street".to_string(),
        delivery_type: "courier".to_string(),
        delivery_time: "evening".to_string(),
        items,
    }
}

fn run_checkout(
    catalog: &Vec<ProductSnapshot>,
    ledger: &Ledger,
    claims: &Claims,
    payload: &CheckoutRequest,
) -> Result<String, AppError> {
    let mut store = OrderStore::new();
    checkout(&mut store, ledger, catalog, &gateway_config(), claims, payload)
        .map(|p| p.order_id)
}

fn expect_bad_request(r: Result<String, AppError>, message: &str) {
    match r {
        Err(AppError::BadRequest(m)) => assert_eq!(m, message),
        _ => panic!("expected a bad request: {}", message),
    }
}

#[test]
fn user_id_extraction() {
    assert_eq!(extract_user_id(&claims_for("42")).unwrap(), 42);
    assert!(matches!(
        extract_user_id(&claims_for("nobody")),
        Err(AppError::Unauthorized(_))
    ));
    assert!(matches!(
        extract_user_id(&claims_for("")),
        Err(AppError::Unauthorized(_))
    ));
    // beyond i32 range
    assert!(matches!(
        extract_user_id(&claims_for("9999999999")),
        Err(AppError::Unauthorized(_))
    ));
}

#[test]
fn registration_validation() {
    let ok = RegisterRequest {
        email: "a@b.c".to_string(),
        name: "Nino".to_string(),
        password: "longenough".to_string(),
    };
    assert!(validate_registration(&ok).is_ok());

    let bad_email = RegisterRequest { email: "nowhere".to_string(), ..reg(&ok) };
    match validate_registration(&bad_email) {
        Err(AppError::BadRequest(m)) => assert_eq!(m, "Invalid email address"),
        _ => panic!("expected rejection"),
    }

    let blank_name = RegisterRequest { name: "   ".to_string(), ..reg(&ok) };
    match validate_registration(&blank_name) {
        Err(AppError::BadRequest(m)) => assert_eq!(m, "Name cannot be empty"),
        _ => panic!("expected rejection"),
    }

    let tab_name = RegisterRequest { name: "\t \r\n".to_string(), ..reg(&ok) };
    match validate_registration(&tab_name) {
        Err(AppError::BadRequest(m)) => assert_eq!(m, "Name cannot be empty"),
        _ => panic!("expected rejection"),
    }

    let short_password = RegisterRequest { password: "short".to_string(), ..reg(&ok) };
    match validate_registration(&short_password) {
        Err(AppError::BadRequest(m)) => assert_eq!(m, "Password must be at least 8 characters"),
        _ => panic!("expected rejection"),
    }
}

fn reg(r: &RegisterRequest) -> RegisterRequest {
    RegisterRequest {
        email: r.email.clone(),
        name: r.name.clone(),
        password: r.password.clone(),
    }
}

#[test]
fn email_validation() {
    assert!(validate_email("a@b.c").is_ok());
    assert!(validate_email("").is_err());
    assert!(validate_email("nowhere").is_err());
}

#[test]
fn server_address_formats_host_and_port() {
    let cfg = AppConfig {
        server: ServerConfig {
            host: "0.0.0.0".to_string(),
            port: 3000,
            max_body_size: 10_485_760,
        },
        database: DatabaseConfig { url: "postgres://localhost/app".to_string(), max_connections: 20 },
        cors: CorsConfig { allowed_origins: vec!["https://shop.example.com".to_string()] },
    };
    assert_eq!(cfg.server_address(), "0.0.0.0:3000");
}

#[test]
fn empty_cart_is_rejected() {
    let catalog = vec![];
    let ledger = Ledger::new();
    let r = run_checkout(&catalog, &ledger, &claims_for("42"), &request(vec![]));
    expect_bad_request(r, "Cart is empty");
}

#[test]
fn invalid_email_is_rejected() {
    let catalog = vec![];
    let ledger = Ledger::new();
    let mut payload = request(vec![CartItem { product_id: 7, color: None, quantity: 1 }]);
    payload.email = "no-at-sign".to_string();
    let r = run_checkout(&catalog, &ledger, &claims_for("42"), &payload);
    expect_bad_request(r, "Invalid email");
}

#[test]
fn missing_address_is_rejected() {
    let catalog = vec![];
    let ledger = Ledger::new();
    let mut payload = request(vec![CartItem { product_id: 7, color: None, quantity: 1 }]);
    payload.address = String::new();
    let r = run_checkout(&catalog, &ledger, &claims_for("42"), &payload);
    expect_bad_request(r, "Address is required");
}

#[test]
fn non_positive_quantity_is_rejected() {
    let catalog = vec![];
    let ledger = Ledger::new();
    let payload = request(vec![
        CartItem { product_id: 5, color: None, quantity: 1 },
        CartItem { product_id: 7, color: None, quantity: 0 },
    ]);
    let r = run_checkout(&catalog, &ledger, &claims_for("42"), &payload);
    expect_bad_request(r, "Invalid quantity for product 7");
}

#[test]
fn mismatched_customer_variant_is_rejected() {
    let catalog = vec![];
    let ledger = Ledger::new();
    let mut payload = request(vec![CartItem { product_id: 7, color: None, quantity: 1 }]);
    payload.individual = None;
    let r = run_checkout(&catalog, &ledger, &claims_for("42"), &payload);
    expect_bad_request(r, "Invalid customer information");
}

#[test]
fn unknown_product_is_not_found() {
    let catalog = vec![];
    let ledger = Ledger::new();
    let payload = request(vec![CartItem { product_id: 7, color: None, quantity: 1 }]);
    let r = run_checkout(&catalog, &ledger, &claims_for("42"), &payload);
    match r {
        Err(AppError::NotFound(m)) => assert_eq!(m, "Product 7 not found"),
        _ => panic!("expected not-found"),
    }
}

#[test]
fn disabled_product_is_rejected() {
    let mut p = ProductSnapshot {
        id: 7,
        name: "P".to_string(),
        enabled: true,
        price_cents: 5000,
        discount_bp: 0,
        images: vec![ProductImage {
            product_id: 7,
            image_uuid: "u".to_string(),
            color: None,
            is_primary: true,
            extension: "jpg".to_string(),
        }],
    };
    p.enabled = false;
    let catalog = vec![p];
    let mut ledger = Ledger::new();
    assert!(ledger.add_entry(7, None, 5));
    let payload = request(vec![CartItem { product_id: 7, color: None, quantity: 1 }]);
    let r = run_checkout(&catalog, &ledger, &claims_for("42"), &payload);
    expect_bad_request(r, "Product 7 is not available");
}

#[test]
fn color_required_for_multi_color_product() {
    let catalog = vec![ProductSnapshot {
        id: 7,
        name: "P".to_string(),
        enabled: true,
        price_cents: 5000,
        discount_bp: 0,
        images: vec![
            ProductImage {
                product_id: 7,
                image_uuid: "u1".to_string(),
                color: Some("red".to_string()),
                is_primary: true,
                extension: "jpg".to_string(),
            },
            ProductImage {
                product_id: 7,
                image_uuid: "u2".to_string(),
                color: Some("blue".to_string()),
                is_primary: false,
                extension: "jpg".to_string(),
            },
        ],
    }];
    let mut ledger = Ledger::new();
    assert!(ledger.add_entry(7, Some("red".to_string()), 5));
    assert!(ledger.add_entry(7, Some("blue".to_string()), 5));
    let payload = request(vec![CartItem { product_id: 7, color: None, quantity: 1 }]);
    let r = run_checkout(&catalog, &ledger, &claims_for("42"), &payload);
    expect_bad_request(r, "Color is required for product 7");

    // naming a colour that does not exist fails differently
    let payload2 = request(vec![CartItem {
        product_id: 7,
        color: Some("green".to_string()),
        quantity: 1,
    }]);
    let r2 = run_checkout(&catalog, &ledger, &claims_for("42"), &payload2);
    expect_bad_request(r2, "Color not available for product 7");

    // naming an existing colour succeeds against its own ledger row
    let mut store = OrderStore::new();
    let payload3 = request(vec![CartItem {
        product_id: 7,
        color: Some("blue".to_string()),
        quantity: 2,
    }]);
    let prep = checkout(
        &mut store,
        &ledger,
        &catalog,
        &gateway_config(),
        &claims_for("42"),
        &payload3,
    )
    .unwrap();
    assert_eq!(prep.amount, 10_500);
    assert_eq!(store.items[0].image.image_uuid, "u2");
}

#[test]
fn unauthorized_claims_reject_checkout() {
    let catalog = vec![];
    let ledger = Ledger::new();
    let payload = request(vec![CartItem { product_id: 7, color: None, quantity: 1 }]);
    let r = run_checkout(&catalog, &ledger, &claims_for("guest"), &payload);
    assert!(matches!(r, Err(AppError::Unauthorized(_))));
}
