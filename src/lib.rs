pub mod catalog;
pub mod input;
pub mod movie;
pub mod number;
pub mod record;
pub mod text;
