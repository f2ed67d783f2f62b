//! Request and response shapes the surrounding web handlers exchange:
//! plain data, no behaviour. Identifiers and timestamps live with the
//! handlers; only the plain-valued shapes are kept here.

use vstd::prelude::*;

verus! {

#[derive(Debug, Clone)]
pub struct CreateBlogPost {
    pub title: String,
    pub content: String,
    pub excerpt: String,
    pub author: String,
    pub categories: Vec<String>,
    pub tags: Vec<String>,
    pub featured_image: Option<String>,
    pub published: bool,
}

#[derive(Debug, Clone)]
pub struct UpdateBlogPost {
    pub title: Option<String>,
    pub content: Option<String>,
    pub excerpt: Option<String>,
    pub author: Option<String>,
    pub categories: Option<Vec<String>>,
    pub tags: Option<Vec<String>>,
    pub featured_image: Option<String>,
    pub published: Option<bool>,
}

#[derive(Debug, Clone)]
pub struct UpdateCartItemRequest {
    pub quantity: i32,
}

#[derive(Debug, Clone)]
pub struct CartSummary {
    pub total_items: i32,
    pub subtotal: i32,
    pub estimated_shipping: i32,
    pub total: i32,
}

#[derive(Debug, Clone)]
pub struct Address {
    pub first_name: String,
    pub last_name: String,
    pub email: String,
    pub phone: Option<String>,
    pub address_line_1: String,
    pub address_line_2: Option<String>,
    pub city: String,
    pub state: String,
    pub postal_code: String,
    pub country: String,
}

#[derive(Debug, Clone)]
pub enum OrderStatus {
    Pending,
    Processing,
    Shipped,
    Delivered,
    Cancelled,
    Refunded,
}

#[derive(Debug, Clone)]
pub struct CreateProduct {
    pub name: String,
    pub description: String,
    pub price: i32,
    pub category: String,
    pub brand: String,
    pub material: String,
    pub care_instructions: String,
    pub images: Vec<String>,
    pub sizes: Vec<String>,
    pub colors: Vec<String>,
}

#[derive(Debug, Clone)]
pub struct UpdateProduct {
    pub name: Option<String>,
    pub description: Option<String>,
    pub price: Option<i32>,
    pub category: Option<String>,
    pub brand: Option<String>,
    pub material: Option<String>,
    pub care_instructions: Option<String>,
    pub images: Option<Vec<String>>,
    pub sizes: Option<Vec<String>>,
    pub colors: Option<Vec<String>>,
    pub in_stock: Option<bool>,
}

#[derive(Debug, Clone)]
pub struct CreateUser {
    pub email: String,
    pub first_name: String,
    pub last_name: String,
    pub password: String,
    pub newsletter_subscribed: bool,
}

#[derive(Debug, Clone)]
pub struct UpdateUser {
    pub first_name: Option<String>,
    pub last_name: Option<String>,
    pub newsletter_subscribed: Option<bool>,
}

#[derive(Debug, Clone)]
pub struct LoginRequest {
    pub email: String,
    pub password: String,
}

} // verus!
