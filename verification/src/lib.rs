pub mod common;
pub mod net;
pub mod proxy;
pub mod text;
