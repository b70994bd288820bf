//! Window and space inventory, handle resolution and focus switching for a
//! desktop window switcher, over plain values that a platform layer gathers
//! from the window server and hands in.

pub mod catalog;
pub mod focus;
pub mod icon;
pub mod inventory;
pub mod manager;
pub mod pending;
pub mod picker;
pub mod ranking;
pub mod record;
pub mod resolver;
pub mod types;
