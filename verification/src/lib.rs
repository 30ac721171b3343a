pub mod dispatch;
pub mod entries;
pub mod key;
pub mod laws;
pub mod page;
pub mod platform;
pub mod snippet;
