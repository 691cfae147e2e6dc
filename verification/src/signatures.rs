//! Offsets into the game client's memory.
use vstd::prelude::*;

verus! {

/// Offset, in the engine module, of the pointer to the client state.
pub const DW_CLIENT_STATE: usize = 0xe27a08;

/// Offset, in the client state, of the connection state.
pub const DW_CLIENT_STATE_STATE: usize = 0x1a0;

/// Offset, in the client state, of the current map's name (a 128-byte buffer).
pub const DW_CLIENT_STATE_MAP: usize = 0x324;

/// Offset, in the client state, of the maximum number of players.
pub const DW_CLIENT_STATE_MAX_PLAYERS: usize = 0x420;

/// Offset, in the client module, of the pointer to the local player.
pub const LOCAL_PLAYER: usize = 0x234e748;

/// Offset, in the client module, of the entity list.
pub const ENTITY_LIST: usize = 0x237e560;

/// Distance between two slots of the entity list.
pub const ENTITY_LIST_STRIDE: u32 = 0x20;

/// Offset of an entity's health.
pub const HEALTH: usize = 0x138;

/// Offset of an entity's team number.
pub const TEAM: usize = 0x12c;

/// Offset of an entity's position (three `f32`).
pub const POSITION: usize = 0x170;

/// Offset of an entity's view angles (two `f32`).
pub const ANG_ROTATION: usize = 0x164;

/// What is added to the pointer read at `DW_CLIENT_STATE` to reach the
/// client state.
pub const CLIENT_STATE_ADJUST: usize = 8;

/// The connection state in which a map is loaded and the game is running.
pub const CLIENT_STATE_IN_GAME: u32 = 6;

} // verus!
