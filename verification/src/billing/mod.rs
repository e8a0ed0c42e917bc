//! Billing: turns signed subscription events into what each vault may store.
pub mod checkout;
pub mod effects;
pub mod entitlements;
pub mod stripe;
