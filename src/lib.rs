pub mod batch;
pub mod location;
pub mod record;
pub mod session;
pub mod upsert;
