pub mod listing;
pub mod x86_64;
