//! A verified record store for per-user auto-run network configurations.
//!
//! Each row maps a user to one virtual network instance the user wants
//! started automatically, together with an opaque serialized configuration
//! payload and a disabled flag. The store enforces, and its contracts state:
//! a globally unique `network_instance_id`, a foreign key from every row to
//! an existing user (kept by cascade on user deletion), and per-row
//! `update_time >= create_time`.

pub mod laws;
pub mod model;
pub mod store;

pub use model::Model;
pub use model::ModelView;
pub use model::StoreError;
pub use store::Store;
pub use store::StoreView;
