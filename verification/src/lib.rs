//! Verified core of the PowerChecker smart-meter system.

pub mod power;
pub mod clock;
pub mod history;
pub mod text;
pub mod net;
pub mod serial;
pub mod bp35c2;
pub mod bmp;
pub mod auth;
pub mod ui;
pub mod server;
pub mod link;
