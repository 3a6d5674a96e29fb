pub mod address;
pub mod backend;
pub mod discord;
pub mod gateway;
pub mod icon;
pub mod netparse;
pub mod proxy;
pub mod router;
pub mod session;
pub mod socks;
pub mod startup;
pub mod text;
pub mod tor;
pub mod tray;
pub mod ui;
