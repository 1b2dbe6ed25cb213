pub mod stable;
pub mod types;
pub mod reach;
pub mod layout;
pub mod laws;
