//! The service's endpoints: what each of them decides.

pub mod admin;
pub mod dashboard;
pub mod health;
pub mod ws;
