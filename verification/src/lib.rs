//! Verified core of a radar for a game client: the decisions and data
//! transformations of the memory reader, the map packer and the relay server.
pub mod cstring;
pub mod memory;
pub mod overview;
pub mod player;
pub mod protocol;
pub mod radar;
pub mod radar_map;
pub mod relay;
pub mod signatures;
