//! The messages the radar reader sends to the relay, which forwards them
//! unchanged to the WebSocket clients.
use vstd::prelude::*;
use crate::player::PlayerInfo;
use crate::radar_map::{MapChunk, MapInfo};

verus! {

/// One message of the radar protocol.
pub enum Message {
    /// A map was loaded: its description and the number of image chunks
    /// that follow.
    InitMap(MapInfo),
    /// One chunk of the current map's radar image.
    MapChunk(MapChunk),
    /// The players read in one round.
    Players(Vec<PlayerInfo>),
}

/// The messages of one round, in the order they are sent: when the map is
/// to be sent, its announcement and then each chunk in order; last, the
/// players.
pub open spec fn round_messages_of(
    map: Option<(MapInfo, Vec<MapChunk>)>,
    players: Vec<PlayerInfo>,
) -> Seq<Message> {
    match map {
        Some((info, chunks)) => seq![Message::InitMap(info)] + chunks@.map_values(
            |c: MapChunk| Message::MapChunk(c),
        ) + seq![Message::Players(players)],
        None => seq![Message::Players(players)],
    }
}

/// The messages to send at the end of a round: the map, if one is to be
/// sent, then the players.
pub fn round_messages(map: Option<(MapInfo, Vec<MapChunk>)>, players: Vec<PlayerInfo>) -> (res:
    Vec<Message>)
    ensures
        res@ == round_messages_of(map, players),
        map is None ==> res@ == seq![Message::Players(players)],
        map matches Some((info, chunks)) ==> {
            &&& res@.len() == chunks@.len() + 2
            &&& res@[0] == Message::InitMap(info)
            &&& forall|k: int|
                0 <= k < chunks@.len() ==> res@[k + 1] == Message::MapChunk(#[trigger] chunks@[k])
            &&& res@.last() == Message::Players(players)
        },
{
    let mut out: Vec<Message> = Vec::new();
    match map {
        Some((info, chunks)) => {
            out.push(Message::InitMap(info));
            let ghost start = out@;
            let ghost cs = chunks@;
            for c in it: chunks
                invariant
                    start == seq![Message::InitMap(info)],
                    it.seq() == cs,
                    out@ == start + it.seq().take(it.index()).map_values(
                        |c: MapChunk| Message::MapChunk(c),
                    ),
            {
                out.push(Message::MapChunk(c));
                assert(out@ =~= start + it.seq().take(it.index() + 1).map_values(
                    |c: MapChunk| Message::MapChunk(c),
                ));
            }
            assert(out@ =~= start + cs.map_values(|c: MapChunk| Message::MapChunk(c)));
        },
        None => {},
    }
    out.push(Message::Players(players));
    proof {
        lemma_round_order(map, players);
    }
    out
}

/// The messages of a round: with a map, its announcement comes first and
/// is exactly the map's `MapInfo`, each chunk follows in order and
/// unchanged, and the players come last; without a map, only the players.
pub proof fn lemma_round_order(map: Option<(MapInfo, Vec<MapChunk>)>, players: Vec<PlayerInfo>)
    ensures
        map is None ==> round_messages_of(map, players) == seq![Message::Players(players)],
        map matches Some((info, chunks)) ==> {
            let m = round_messages_of(map, players);
            &&& m.len() == chunks@.len() + 2
            &&& m[0] == Message::InitMap(info)
            &&& forall|k: int|
                0 <= k < chunks@.len() ==> m[k + 1] == Message::MapChunk(#[trigger] chunks@[k])
            &&& m.last() == Message::Players(players)
        },
{
}

} // verus!
