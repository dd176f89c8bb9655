pub mod text;
pub mod num;
pub mod net;
pub mod config;
pub mod auto;
pub mod blocklist;
pub mod catalogue;
pub mod ipc;
pub mod packet;
pub mod dns;
pub mod reply;
pub mod procnet;
pub mod sandbox;
pub mod state;
pub mod blocked;
pub mod tap;
pub mod log;
pub mod cli;
pub mod ruleset;
pub mod tui;
pub mod address;
pub mod panes;
pub mod keys;
pub mod names;
pub mod key_order;
