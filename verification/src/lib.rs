pub mod bot;
pub mod buckets;
pub mod registry;
pub mod reminder;
pub mod router;
pub mod scheduler;
pub mod text;
