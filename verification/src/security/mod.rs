//! Access control: tokens, TLS identities, and their rotation.

pub mod admin;
pub mod auth;
pub mod shared;
pub mod tls;

pub use admin::is_admin_authorized;
pub use auth::{secure_eq, AccessControl};
pub use shared::{Loaded, SharedSecurity, TokenFile};
