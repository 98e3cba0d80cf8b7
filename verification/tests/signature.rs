use tene_checkout::flitt::{
    generate_signature, interpret_checkout_response, verify_callback_signature, GatewayResponse,
};
use tene_checkout::errors::AppError;

fn pairs(fields: &[(&str, &str)]) -> Vec<(String, String)> {
    fields.iter().map(|(k, v)| (k.to_string(), v.to_string())).collect()
}

fn signed(secret: &str, fields: &[(&str, &str)]) -> Vec<(String, String)> {
    let mut v = pairs(fields);
    let sig = generate_signature(secret, &v);
    v.push(("signature".to_string(), sig));
    v
}

#[test]
fn signature_of_secret_alone_is_sha1_of_secret() {
    // with no fields the base string is the bare secret; sha1("abc") is the
    // classic test vector
    assert_eq!(
        generate_signature("abc", &vec![]),
        "a9993e364706816aba3e25717850c26c9cd0d89d"
    );
    assert_eq!(
        generate_signature("", &vec![]),
        "da39a3ee5e6b4b0d3255bfef95601890afd80709"
    );
}

#[test]
fn signature_sorts_fields_by_key() {
    let a = generate_signature("sec", &pairs(&[("b", "2"), ("a", "1")]));
    let b = generate_signature("sec", &pairs(&[("a", "1"), ("b", "2")]));
    assert_eq!(a, b);
}

#[test]
fn signature_drops_empty_values() {
    let with_empty = generate_signature("sec", &pairs(&[("a", "1"), ("z", "")]));
    let without = generate_signature("sec", &pairs(&[("a", "1")]));
    assert_eq!(with_empty, without);
}

#[test]
fn signature_depends_on_values() {
    let a = generate_signature("sec", &pairs(&[("a", "1")]));
    let b = generate_signature("sec", &pairs(&[("a", "2")]));
    assert_ne!(a, b);
}

#[test]
fn callback_signature_round_trip() {
    let params = signed(
        "merchant-secret",
        &[
            ("amount", "10500"),
            ("currency", "GEL"),
            ("order_id", "tene_x1"),
            ("order_status", "approved"),
        ],
    );
    assert!(verify_callback_signature("merchant-secret", &params));
}

#[test]
fn callback_signature_ignores_response_signature_string() {
    let mut params = signed(
        "merchant-secret",
        &[("amount", "10500"), ("order_id", "tene_x1")],
    );
    params.push((
        "response_signature_string".to_string(),
        "amount|order_id".to_string(),
    ));
    assert!(verify_callback_signature("merchant-secret", &params));
}

#[test]
fn altered_field_is_rejected() {
    let mut params = signed(
        "merchant-secret",
        &[
            ("amount", "10500"),
            ("currency", "GEL"),
            ("order_id", "tene_x1"),
            ("order_status", "approved"),
        ],
    );
    // tamper with a single field after signing
    for p in params.iter_mut() {
        if p.0 == "amount" {
            p.1 = "10501".to_string();
        }
    }
    assert!(!verify_callback_signature("merchant-secret", &params));
}

#[test]
fn wrong_secret_is_rejected() {
    let params = signed("merchant-secret", &[("order_id", "tene_x1")]);
    assert!(!verify_callback_signature("another-secret", &params));
}

#[test]
fn missing_signature_field_is_rejected() {
    let params = pairs(&[("order_id", "tene_x1"), ("order_status", "approved")]);
    assert!(!verify_callback_signature("merchant-secret", &params));
}

#[test]
fn gateway_response_success_yields_url() {
    let resp = Some(GatewayResponse {
        response_status: Some("success".to_string()),
        error_message: None,
        checkout_url: Some("https://pay.example.com/c/1".to_string()),
    });
    assert_eq!(
        interpret_checkout_response(&resp).unwrap(),
        "https://pay.example.com/c/1"
    );
}

#[test]
fn gateway_response_failure_carries_provider_message() {
    let resp = Some(GatewayResponse {
        response_status: Some("failure".to_string()),
        error_message: Some("order rejected".to_string()),
        checkout_url: None,
    });
    match interpret_checkout_response(&resp) {
        Err(AppError::InternalError(m)) => {
            assert_eq!(m, "Flitt order creation failed: order rejected")
        }
        other => panic!("unexpected result: {:?}", other.is_ok()),
    }
}

#[test]
fn gateway_response_failure_without_message() {
    let resp = Some(GatewayResponse {
        response_status: None,
        error_message: None,
        checkout_url: None,
    });
    match interpret_checkout_response(&resp) {
        Err(AppError::InternalError(m)) => {
            assert_eq!(m, "Flitt order creation failed: Unknown Flitt error")
        }
        _ => panic!("expected an internal error"),
    }
}

#[test]
fn gateway_response_missing_body_is_internal_error() {
    match interpret_checkout_response(&None) {
        Err(AppError::InternalError(m)) => assert_eq!(m, "Invalid Flitt response format"),
        _ => panic!("expected an internal error"),
    }
}

#[test]
fn gateway_response_success_without_url_is_internal_error() {
    let resp = Some(GatewayResponse {
        response_status: Some("success".to_string()),
        error_message: None,
        checkout_url: None,
    });
    match interpret_checkout_response(&resp) {
        Err(AppError::InternalError(m)) => {
            assert_eq!(m, "Flitt response missing checkout_url")
        }
        _ => panic!("expected an internal error"),
    }
}
