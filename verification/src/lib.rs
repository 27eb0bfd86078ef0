//! Verified core of a map-overlay tool for a multiplayer game: the wire
//! protocol between the memory-reading server and the map client, the
//! client's spawn bookkeeping and filters, and the server's executable and
//! memory scanners.
pub mod text;
pub mod bytes;
pub mod protocol;
pub mod status;
pub mod network;
pub mod scanner;
pub mod offsets;
pub mod server_logic;
pub mod filters;
pub mod assoc;
pub mod game_data;
pub mod config;
pub mod spawn_filter;
pub mod spawns;
pub mod alerts;
pub mod logger;
pub mod timers;
pub mod stores;
pub mod observer;
pub mod wizard;
pub mod memory;
pub mod filter_file;
pub mod debugger;
pub mod timer_file;
pub mod annotation_file;
pub mod obs_file;
pub mod scan_log;
pub mod map_text;
pub mod mem_walk;
pub mod client_tick;
pub mod scan_run;
pub mod debug_walk;
pub mod wizard_save;
