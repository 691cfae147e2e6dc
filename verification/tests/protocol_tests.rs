use readonly::player::build_player;
use readonly::protocol::{round_messages, Message};
use readonly::radar_map::pack_map;

#[test]
fn round_sends_map_then_chunks_then_players() {
    let text = vec![7u8; 50_000];
    let (info, chunks) = pack_map("de_train", 1, 2, 3, &text);
    let n = chunks.len();
    assert!(n >= 2);
    let players = vec![build_player(100, 2, [0; 3], [0; 2], [1; 3])];
    let msgs = round_messages(Some((info, chunks)), players);
    assert_eq!(msgs.len(), n + 2);
    assert!(matches!(&msgs[0], Message::InitMap(i) if i.name == "de_train" && i.chunks == n));
    for k in 0..n {
        assert!(matches!(&msgs[k + 1], Message::MapChunk(c) if c.i == k));
    }
    assert!(matches!(&msgs[n + 1], Message::Players(p) if p.len() == 1 && p[0].team == "T"));
}

#[test]
fn round_without_map_sends_players_only() {
    let msgs = round_messages(None, Vec::new());
    assert_eq!(msgs.len(), 1);
    assert!(matches!(&msgs[0], Message::Players(p) if p.is_empty()));
}
