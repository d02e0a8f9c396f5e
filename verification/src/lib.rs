//! Verified core of a server blocker: the tunnel list, probe results, the
//! interactive application state and the plans for the boot unit.

pub mod app;
pub mod app_laws;
pub mod command_laws;
pub mod commands;
pub mod list_laws;
pub mod operation_laws;
pub mod operations;
pub mod picks;
pub mod ping;
pub mod ping_laws;
pub mod reading_laws;
pub mod server;
pub mod server_laws;
pub mod settings;
pub mod systemd;
pub mod text;
pub mod text_laws;
pub mod tunnel_laws;
pub mod tunnels;
