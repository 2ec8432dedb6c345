pub mod base;
pub mod char_iter;
