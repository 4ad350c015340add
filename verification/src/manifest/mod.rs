//! Transfer metadata: schema, completed-range bookkeeping and the metadata actor state.
pub mod actor;
pub mod schema;
