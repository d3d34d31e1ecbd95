pub mod error;
pub mod json;
pub mod model;
pub mod order;
pub mod remote;
pub mod text;
pub mod time;
