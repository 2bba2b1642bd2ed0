pub mod modes;
pub mod errors;
pub mod store;
pub mod laws;
pub mod resolve;
pub mod paths;
pub mod git;
