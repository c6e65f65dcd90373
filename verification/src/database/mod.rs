//! Database operations: the SQL the library runs and the decisions it makes
//! around it.
pub mod add;
pub mod query;
pub mod models;
pub mod remove;

pub use add::Add;
pub use query::{OrderField, Query, QueryCriteria};
pub use remove::{Remove, RemoveOptions};
