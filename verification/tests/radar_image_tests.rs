use readonly::radar_map::{pack_radar_image, radar_jpeg, RadarImage};

/// A 4x4 DXT1 image, white above and black below.
fn dds_half_white() -> Vec<u8> {
    let mut d = Vec::new();
    d.extend_from_slice(b"DDS ");
    for v in [124u32, 0x1007, 4, 4, 8, 0, 0] {
        d.extend_from_slice(&v.to_le_bytes());
    }
    d.extend_from_slice(&[0u8; 44]);
    d.extend_from_slice(&32u32.to_le_bytes());
    d.extend_from_slice(&4u32.to_le_bytes());
    d.extend_from_slice(b"DXT1");
    d.extend_from_slice(&[0u8; 20]);
    d.extend_from_slice(&0x1000u32.to_le_bytes());
    d.extend_from_slice(&[0u8; 16]);
    d.extend_from_slice(&0xffffu16.to_le_bytes());
    d.extend_from_slice(&0x0000u16.to_le_bytes());
    d.extend_from_slice(&0x5555_0000u32.to_le_bytes());
    d
}

fn expected_jpeg(dds: &[u8], rotate: bool) -> Vec<u8> {
    let img = image::load_from_memory_with_format(dds, image::ImageFormat::Dds).unwrap();
    let img = if rotate { img.rotate180() } else { img };
    let mut w = std::io::Cursor::new(Vec::new());
    img.write_to(&mut w, image::ImageOutputFormat::Jpeg(80)).unwrap();
    w.into_inner()
}

#[test]
fn radar_jpeg_rotates_unless_upright() {
    let dds = dds_half_white();
    let upright = radar_jpeg(&dds, true).unwrap();
    let turned = radar_jpeg(&dds, false).unwrap();
    assert_eq!(upright, expected_jpeg(&dds, false));
    assert_eq!(turned, expected_jpeg(&dds, true));
    assert_ne!(upright, turned);
    assert_eq!(&upright[..2], &[0xff, 0xd8]);
}

#[test]
fn radar_jpeg_rejects_other_bytes() {
    assert!(radar_jpeg(b"not a dds file", true).is_none());
    assert!(radar_jpeg(b"", false).is_none());
}

#[test]
fn pack_radar_image_packs_the_jpeg() {
    let dds = dds_half_white();
    match pack_radar_image("de_test", 5, 6, 7, &dds, false) {
        RadarImage::Packed(info, chunks) => {
            assert_eq!(info.name, "de_test");
            assert_eq!((info.upper_left_x, info.upper_left_y, info.scale), (5, 6, 7));
            assert_eq!(info.chunks, chunks.len());
            let joined: String = chunks.iter().map(|c| c.data.as_str()).collect();
            #[allow(deprecated)]
            let expected = base64::encode(expected_jpeg(&dds, true));
            assert_eq!(joined, expected);
        }
        _ => panic!("not packed"),
    }
}

#[test]
fn pack_radar_image_unreadable() {
    assert!(matches!(pack_radar_image("x", 0, 0, 0, b"DDS ", true), RadarImage::Unreadable));
}
