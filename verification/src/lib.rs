use vstd::prelude::*;

pub mod audio;
pub mod bsp;
pub mod bsp_render;
pub mod bytes;
pub mod cli;
pub mod clc;
pub mod com_parse;
pub mod com_path;
pub mod client;
pub mod client_messages;
pub mod collision;
pub mod config;
pub mod crc;
pub mod cvar;
pub mod data_paths;
pub mod entities;
pub mod decimal;
pub mod defs;
pub mod downloads;
pub mod handshake;
pub mod info;
pub mod input;
pub mod md4;
pub mod mdl;
pub mod model_cache;
pub mod msg;
pub mod netaddr;
pub mod netchan;
pub mod oob;
pub mod pak;
pub mod palette;
pub mod pcx;
pub mod progs;
pub mod protocol;
pub mod render;
pub mod server;
pub mod sound;
pub mod spr;
pub mod state;
pub mod svc;
pub mod svc_laws;
pub mod text;
pub mod vfs;
pub mod vm;
pub mod wad;

verus! {
} // verus!
