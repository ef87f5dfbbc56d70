pub mod base;
pub mod term;
pub mod text;
pub mod ui;
pub mod serde;
pub mod intro;
pub mod anim;
