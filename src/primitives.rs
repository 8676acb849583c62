pub mod encoding;
pub mod hashing;
pub mod transaction;
