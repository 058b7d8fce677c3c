//! Verified core of a small admin backend: the dictionary-type service with
//! its paginated search, create, edit, bulk-delete and lookup operations, the
//! online-session table with its bulk delete and log-out, the uniform
//! response envelope, and the login-log table schema. The relational store
//! is modelled as a sequence of row views; every operation carries a
//! contract over that model, and the dictionary-type rows are kept sorted
//! by primary key, which is also how every listing is ordered.

pub mod envelope;
mod gen;
pub mod login_log;
pub mod models;
pub mod order;
pub mod page;
pub mod table;
pub mod user_online;
