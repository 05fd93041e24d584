pub mod cost;
pub mod info;
pub mod nodes;
pub mod walk;
