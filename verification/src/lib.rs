pub mod aircraft;
pub mod airport;
pub mod catalog;
pub mod laws;
pub mod modifier;
pub mod query;
pub mod text;
