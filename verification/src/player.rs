//! Players as seen by the radar: team names, IEEE-754 equality of
//! positions held as raw `f32` bit patterns, and assembling a player.
use vstd::prelude::*;
use vstd::string::StringExecFns;

verus! {

/// Whether the `f32` with bit pattern `bits` is a NaN: all exponent bits
/// set and a non-zero mantissa.
pub open spec fn is_nan_bits(bits: u32) -> bool {
    (bits & 0x7f80_0000u32) == 0x7f80_0000u32 && (bits & 0x007f_ffffu32) != 0
}

/// Whether the `f32` with bit pattern `bits` is `+0.0` or `-0.0`.
pub open spec fn is_zero_bits(bits: u32) -> bool {
    (bits & 0x7fff_ffffu32) == 0
}

/// IEEE-754 equality of two `f32` values given by their bit patterns:
/// a NaN equals nothing, the two zeros are equal, and otherwise two
/// values are equal exactly when their bit patterns are.
pub open spec fn f32_bits_eq(a: u32, b: u32) -> bool {
    &&& !is_nan_bits(a)
    &&& !is_nan_bits(b)
    &&& (a == b || (is_zero_bits(a) && is_zero_bits(b)))
}

/// `==` on two `f32` values held as bit patterns.
pub fn float_bits_eq(a: u32, b: u32) -> (res: bool)
    ensures
        res == f32_bits_eq(a, b),
{
    let a_nan = (a & 0x7f80_0000u32) == 0x7f80_0000u32 && (a & 0x007f_ffffu32) != 0;
    let b_nan = (b & 0x7f80_0000u32) == 0x7f80_0000u32 && (b & 0x007f_ffffu32) != 0;
    if a_nan || b_nan {
        false
    } else {
        a == b || ((a & 0x7fff_ffffu32) == 0 && (b & 0x7fff_ffffu32) == 0)
    }
}

/// A player as the radar reports it. Positions and view angles are `f32`
/// values held by their bit patterns.
pub struct PlayerInfo {
    /// `"T"`, `"CT"` or `"Unknown"`.
    pub team: String,
    /// Whether this is the player running the radar.
    pub is_local: bool,
    pub health: u32,
    pub position: [u32; 3],
    pub ang_rotation: [u32; 2],
}

/// The team label of the team number `raw`: 2 is the terrorists, 3 the
/// counter-terrorists, any other number unknown.
pub open spec fn team_label(raw: u32) -> Seq<char> {
    if raw == 2 {
        seq!['T']
    } else if raw == 3 {
        seq!['C', 'T']
    } else {
        seq!['U', 'n', 'k', 'n', 'o', 'w', 'n']
    }
}

/// The team label of the team number `raw`.
pub fn team_name(raw: u32) -> (res: String)
    ensures
        res@ == team_label(raw),
        raw == 2 ==> res@ == seq!['T'],
        raw == 3 ==> res@ == seq!['C', 'T'],
        raw != 2 && raw != 3 ==> res@ == seq!['U', 'n', 'k', 'n', 'o', 'w', 'n'],
{
    if raw == 2 {
        proof {
            reveal_strlit("T");
        }
        String::from_str("T")
    } else if raw == 3 {
        proof {
            reveal_strlit("CT");
        }
        String::from_str("CT")
    } else {
        proof {
            reveal_strlit("Unknown");
        }
        String::from_str("Unknown")
    }
}

/// `==` on two positions: each coordinate equal as an `f32`.
pub open spec fn same_position(a: [u32; 3], b: [u32; 3]) -> bool {
    forall|i: int| 0 <= i < 3 ==> f32_bits_eq(#[trigger] a@[i], b@[i])
}

/// Two positions are the same exactly when each of their three
/// coordinates is equal as an `f32`: positions that differ in any one
/// coordinate are different.
pub proof fn lemma_same_position_by_coordinates(a: [u32; 3], b: [u32; 3])
    ensures
        same_position(a, b) <==> (f32_bits_eq(a[0], b[0]) && f32_bits_eq(a[1], b[1])
            && f32_bits_eq(a[2], b[2])),
        !f32_bits_eq(a[0], b[0]) ==> !same_position(a, b),
        !f32_bits_eq(a[1], b[1]) ==> !same_position(a, b),
        !f32_bits_eq(a[2], b[2]) ==> !same_position(a, b),
{
    if f32_bits_eq(a[0], b[0]) && f32_bits_eq(a[1], b[1]) && f32_bits_eq(a[2], b[2]) {
        assert forall|i: int| 0 <= i < 3 implies f32_bits_eq(#[trigger] a@[i], b@[i]) by {
            if i == 0 {
            } else if i == 1 {
            } else {
            }
        }
    }
    assert(a@[0] == a[0] && a@[1] == a[1] && a@[2] == a[2]);
    assert(b@[0] == b[0] && b@[1] == b[1] && b@[2] == b[2]);
}

/// `f32` equality on bit patterns is symmetric; a value whose exponent bits
/// are not all set equals itself; the two zeros are equal; a NaN equals
/// nothing, itself included; and two different bit patterns are equal only
/// when both are zeros.
pub proof fn lemma_f32_eq_laws(a: u32, b: u32)
    ensures
        f32_bits_eq(a, b) == f32_bits_eq(b, a),
        (a & 0x7f80_0000u32) != 0x7f80_0000u32 ==> f32_bits_eq(a, a),
        f32_bits_eq(0u32, 0x8000_0000u32),
        (a & 0x7f80_0000u32) == 0x7f80_0000u32 && (a & 0x007f_ffffu32) != 0 ==> !f32_bits_eq(a, b),
        a != b && f32_bits_eq(a, b) ==> (a & 0x7fff_ffffu32) == 0 && (b & 0x7fff_ffffu32) == 0,
{
    assert((0u32 & 0x7fff_ffffu32) == 0) by (bit_vector);
    assert((0x8000_0000u32 & 0x7fff_ffffu32) == 0) by (bit_vector);
    assert((0u32 & 0x7f80_0000u32) != 0x7f80_0000u32) by (bit_vector);
    assert((0x8000_0000u32 & 0x7f80_0000u32) != 0x7f80_0000u32) by (bit_vector);
}

/// Tests `same_position`.
pub fn positions_equal(a: [u32; 3], b: [u32; 3]) -> (res: bool)
    ensures
        res == same_position(a, b),
        res == (f32_bits_eq(a[0], b[0]) && f32_bits_eq(a[1], b[1]) && f32_bits_eq(a[2], b[2])),
{
    let e0 = float_bits_eq(a[0], b[0]);
    let e1 = float_bits_eq(a[1], b[1]);
    let e2 = float_bits_eq(a[2], b[2]);
    proof {
        if e0 && e1 && e2 {
            assert forall|i: int| 0 <= i < 3 implies f32_bits_eq(#[trigger] a@[i], b@[i]) by {
                if i == 0 {
                } else if i == 1 {
                } else {
                }
            }
        }
    }
    e0 && e1 && e2
}

/// Whether a slot of the entity list, or the pointer it holds, leads to a
/// player: a null pointer means the slot is empty.
pub fn is_present(ptr: u64) -> (res: bool)
    ensures
        res == (ptr != 0),
{
    ptr != 0
}

/// The player whose health, team number, position and view angles were
/// read; it is the local player when it stands at the local player's
/// position `local_position`.
pub fn build_player(
    health: u32,
    team_raw: u32,
    position: [u32; 3],
    ang_rotation: [u32; 2],
    local_position: [u32; 3],
) -> (res: PlayerInfo)
    ensures
        res.team@ == team_label(team_raw),
        res.is_local == same_position(position, local_position),
        res.is_local == (f32_bits_eq(position[0], local_position[0]) && f32_bits_eq(
            position[1],
            local_position[1],
        ) && f32_bits_eq(position[2], local_position[2])),
        res.health == health,
        res.position == position,
        res.ang_rotation == ang_rotation,
{
    let team = team_name(team_raw);
    let is_local = positions_equal(position, local_position);
    PlayerInfo { team, is_local, health, position, ang_rotation }
}

} // verus!
