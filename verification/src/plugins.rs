//! The logic of the bundled game plugins: what they declare and how they turn
//! a mod list into load-order files.
pub mod load_order_text;
pub mod security_test;
pub mod witcher3;
