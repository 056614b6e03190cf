pub mod history;
pub mod market;
pub mod position;
