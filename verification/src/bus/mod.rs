//! The queues that the workers of a search share.

pub mod table_bus;
