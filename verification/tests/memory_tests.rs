use readonly::memory::{
    get_module_address, offset_address, pick_region, pointer_field, MapRegion, ModuleBases,
    Permissions,
};
use readonly::signatures::{CLIENT_STATE_ADJUST, DW_CLIENT_STATE, ENTITY_LIST};

fn region(start: usize, size: usize, file: Option<&str>, r: bool, w: bool, x: bool) -> MapRegion {
    MapRegion {
        start,
        size,
        filename: file.map(|f| f.to_string()),
        read: r,
        write: w,
        execute: x,
    }
}

fn rx() -> Option<Permissions> {
    Some(Permissions { read: true, write: false, execute: true })
}

fn maps() -> Vec<MapRegion> {
    vec![
        region(0x1000, 0x1000, None, true, true, false),
        region(0x2000, 0x500, Some("/game/bin/engine_client.so"), true, false, false),
        region(0x3000, 0x800, Some("/game/bin/engine_client.so"), true, false, true),
        region(0x4000, 0x100, Some("/game/bin/myengine_client.so"), true, false, true),
        region(0x5000, 0x900, Some("/game/csgo/bin/client_client.so"), true, false, true),
    ]
}

#[test]
fn module_with_permissions() {
    assert_eq!(get_module_address(&maps(), "engine_client.so", rx()), Some((0x3000, 0x3800)));
    assert_eq!(get_module_address(&maps(), "client_client.so", rx()), Some((0x5000, 0x5900)));
}

#[test]
fn module_without_permissions_takes_first() {
    assert_eq!(get_module_address(&maps(), "engine_client.so", None), Some((0x2000, 0x2500)));
}

#[test]
fn module_matches_whole_components() {
    let regions = vec![region(0x4000, 0x100, Some("/game/bin/myengine_client.so"), true, false, true)];
    assert_eq!(get_module_address(&regions, "engine_client.so", None), None);
    assert_eq!(get_module_address(&regions, "bin/myengine_client.so", None), Some((0x4000, 0x4100)));
}

#[test]
fn module_missing() {
    assert_eq!(get_module_address(&maps(), "server_client.so", None), None);
    assert_eq!(get_module_address(&Vec::new(), "engine_client.so", None), None);
    let rw = Some(Permissions { read: true, write: true, execute: true });
    assert_eq!(get_module_address(&maps(), "engine_client.so", rw), None);
}

#[test]
fn pick_region_uses_given_flags() {
    let regions = maps();
    let named = vec![true, false, false, false, true];
    assert_eq!(pick_region(&regions, &named, None), Some((0x1000, 0x2000)));
    assert_eq!(pick_region(&regions, &named, rx()), Some((0x5000, 0x5900)));
    assert_eq!(pick_region(&regions, &vec![false; 5], None), None);
}

#[test]
fn address_arithmetic() {
    assert_eq!(offset_address(0x1000, 0x20), Some(0x1020));
    assert_eq!(offset_address(usize::MAX, 1), None);
    assert_eq!(offset_address(usize::MAX - 1, 1), Some(usize::MAX));
    assert_eq!(pointer_field(0x7f00_0000_0000, 0x138), Some(0x7f00_0000_0138));
    assert_eq!(pointer_field(u64::MAX, 1), None);
}

#[test]
fn module_bases() {
    let b = ModuleBases::new(0x7000_0000, 0x7100_0000, 0x1234_0000).unwrap();
    assert_eq!(b.engine_start, 0x7000_0000);
    assert_eq!(b.client_start, 0x7100_0000);
    assert_eq!(b.client_state, 0x1234_0000 + CLIENT_STATE_ADJUST);
    assert_eq!(b.engine(DW_CLIENT_STATE), Some(0x7000_0000 + 0xe27a08));
    assert_eq!(b.client_state(0x1a0), Some(0x1234_0008 + 0x1a0));
    assert_eq!(b.client(0x10), Some(0x7100_0010));
    assert_eq!(b.entity_slot(0), Some(0x7100_0000 + ENTITY_LIST));
    assert_eq!(b.entity_slot(3), Some(0x7100_0000 + ENTITY_LIST + 0x60));
    assert_eq!(b.entity_slot(1 << 27), None);
    let high = ModuleBases::new(0, usize::MAX - 4, 0).unwrap();
    assert_eq!(high.client(5), None);
    assert_eq!(high.entity_slot(0), None);
}

#[test]
fn rights_only_move_the_choice_later() {
    let regions = maps();
    let any = get_module_address(&regions, "engine_client.so", None);
    let rx_found = get_module_address(&regions, "engine_client.so", rx());
    assert!(any.unwrap().0 <= rx_found.unwrap().0);
    let r = Some(Permissions { read: true, write: false, execute: false });
    assert_eq!(get_module_address(&regions, "engine_client.so", r), any);
}
