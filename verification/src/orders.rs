//! The order data model: the order aggregate, its line items, the customer
//! snapshot, and the inbound checkout request and response shapes.

use vstd::prelude::*;

use crate::catalog::{clone_image, ProductImage};
use crate::ledger::clone_color;

verus! {

/// The order lifecycle. An order is created `Pending` and moves to exactly
/// one of the other states, at most once, by an authenticated callback.
#[derive(Clone, Copy, PartialEq, Eq, Structural, Debug)]
pub enum OrderStatus {
    Pending,
    Approved,
    Declined,
    Expired,
}

/// The customer snapshot: an individual or an organization, never both and
/// never neither.
#[derive(Debug)]
pub enum CustomerInfo {
    Individual { name: String, surname: String },
    Company {
        organization_type: String,
        organization_name: String,
        organization_code: String,
    },
}

/// Copies a customer snapshot; the copy equals the original.
pub fn clone_customer(c: &CustomerInfo) -> (r: CustomerInfo)
    ensures
        r == *c,
{
    match c {
        CustomerInfo::Individual { name, surname } => CustomerInfo::Individual {
            name: name.clone(),
            surname: surname.clone(),
        },
        CustomerInfo::Company { organization_type, organization_name, organization_code } => (
        CustomerInfo::Company {
            organization_type: organization_type.clone(),
            organization_name: organization_name.clone(),
            organization_code: organization_code.clone(),
        }),
    }
}

/// One durable order. `order_id` is the provider-facing reference, distinct
/// from the surrogate `id`; `amount` is in minor currency units.
#[derive(Debug)]
pub struct Order {
    pub id: i32,
    pub user_id: i32,
    pub order_id: String,
    pub status: OrderStatus,
    pub payment_id: Option<i64>,
    pub amount: u64,
    pub currency: String,
    pub customer: CustomerInfo,
    pub email: String,
    pub phone_number: i64,
    pub address: String,
    pub delivery_type: String,
    pub delivery_time: String,
    pub checkout_url: Option<String>,
}

/// Copies an order; the copy equals the original.
pub fn clone_order(o: &Order) -> (r: Order)
    ensures
        r == *o,
{
    Order {
        id: o.id,
        user_id: o.user_id,
        order_id: o.order_id.clone(),
        status: o.status,
        payment_id: o.payment_id,
        amount: o.amount,
        currency: o.currency.clone(),
        customer: clone_customer(&o.customer),
        email: o.email.clone(),
        phone_number: o.phone_number,
        address: o.address.clone(),
        delivery_type: o.delivery_type.clone(),
        delivery_time: o.delivery_time.clone(),
        checkout_url: clone_color(&o.checkout_url),
    }
}

/// One order line: the product, the chosen variant, and the price, name and
/// image captured at order-creation time, immune to later catalog edits.
/// `price_at_purchase` is the discounted unit price in micros — millionths
/// of a currency unit, not cents.
#[derive(Debug)]
pub struct OrderItem {
    pub order_id: i32,
    pub product_id: i32,
    pub color: Option<String>,
    pub quantity: u64,
    pub price_at_purchase: u64,
    pub product_name: String,
    pub image: ProductImage,
}

/// Copies an order item; the copy equals the original.
pub fn clone_order_item(it: &OrderItem) -> (r: OrderItem)
    ensures
        r == *it,
{
    OrderItem {
        order_id: it.order_id,
        product_id: it.product_id,
        color: clone_color(&it.color),
        quantity: it.quantity,
        price_at_purchase: it.price_at_purchase,
        product_name: it.product_name.clone(),
        image: clone_image(&it.image),
    }
}

/// The data for one order line at creation time, before the owning order's
/// surrogate id exists. `price_at_purchase` is the discounted unit price
/// in micros — millionths of a currency unit, not cents.
#[derive(Debug)]
pub struct OrderItemData {
    pub product_id: i32,
    pub color: Option<String>,
    pub quantity: u64,
    pub price_at_purchase: u64,
    pub product_name: String,
    pub image: ProductImage,
}

// Request types

#[derive(Debug)]
pub struct IndividualInfo {
    pub name: String,
    pub surname: String,
}

#[derive(Debug)]
pub struct CompanyInfo {
    pub organization_type: String,
    pub organization_name: String,
    pub organization_code: String,
}

/// One cart line of the inbound checkout request.
#[derive(Debug)]
pub struct CartItem {
    pub product_id: i32,
    pub color: Option<String>,
    pub quantity: i64,
}

/// The inbound checkout request: cart lines, the customer identity variant,
/// and the contact and delivery fields.
#[derive(Debug)]
pub struct CheckoutRequest {
    pub customer_type: String,
    pub individual: Option<IndividualInfo>,
    pub company: Option<CompanyInfo>,
    pub email: String,
    pub phone_number: i64,
    pub address: String,
    pub delivery_type: String,
    pub delivery_time: String,
    pub items: Vec<CartItem>,
}

/// What a successful checkout returns to the caller.
#[derive(Debug)]
pub struct CheckoutResponse {
    pub order_id: String,
    pub checkout_url: String,
}

} // verus!
