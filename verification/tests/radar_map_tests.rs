use readonly::radar_map::{chunk_encoded, pack_map, CHUNK_LEN};

#[test]
fn pack_map_encodes_base64() {
    let (info, chunks) = pack_map("de_dust2", 1, 2, 3, b"hello");
    assert_eq!(info.name, "de_dust2");
    assert_eq!(info.chunks, 1);
    assert_eq!((info.upper_left_x, info.upper_left_y, info.scale), (1, 2, 3));
    assert_eq!(chunks.len(), 1);
    assert_eq!(chunks[0].i, 0);
    assert_eq!(chunks[0].data, "aGVsbG8=");
}

#[test]
fn pack_map_empty_image_has_no_chunks() {
    let (info, chunks) = pack_map("x", 0, 0, 0, b"");
    assert_eq!(info.chunks, 0);
    assert!(chunks.is_empty());
}

#[test]
fn chunks_are_cut_at_chunk_len() {
    let text: String = (0..(2 * CHUNK_LEN + 5)).map(|k| (b'A' + (k % 26) as u8) as char).collect();
    let (info, chunks) = chunk_encoded("m", 0, 0, 0, &text);
    assert_eq!(info.chunks, 3);
    assert_eq!(chunks.len(), 3);
    assert_eq!(chunks[0].data.len(), CHUNK_LEN);
    assert_eq!(chunks[1].data.len(), CHUNK_LEN);
    assert_eq!(chunks[2].data.len(), 5);
    for (k, c) in chunks.iter().enumerate() {
        assert_eq!(c.i, k);
    }
    let joined: String = chunks.iter().map(|c| c.data.as_str()).collect();
    assert_eq!(joined, text);
}

#[test]
fn chunks_exact_multiple() {
    let text = "Q".repeat(CHUNK_LEN);
    let (info, chunks) = chunk_encoded("m", 0, 0, 0, &text);
    assert_eq!(info.chunks, 1);
    assert_eq!(chunks[0].data, text);
}

#[test]
fn pack_map_large_image_rejoins() {
    let bytes: Vec<u8> = (0..100_000u32).map(|k| (k * 7 % 251) as u8).collect();
    let (info, chunks) = pack_map("big", 0, 0, 0, &bytes);
    let joined: String = chunks.iter().map(|c| c.data.as_str()).collect();
    assert_eq!(joined.len(), 4 * ((bytes.len() + 2) / 3));
    assert_eq!(info.chunks, chunks.len());
    assert_eq!(chunks.len(), (joined.len() + CHUNK_LEN - 1) / CHUNK_LEN);
    assert!(joined.chars().all(|c| c.is_ascii_alphanumeric() || c == '+' || c == '/' || c == '='));
    assert!(joined.starts_with("AAcOFRwjKjE4P0Z"));
}
