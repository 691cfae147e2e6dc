use readonly::player::{build_player, float_bits_eq, is_present, positions_equal, team_name};

#[test]
fn team_names() {
    assert_eq!(team_name(2), "T");
    assert_eq!(team_name(3), "CT");
    assert_eq!(team_name(0), "Unknown");
    assert_eq!(team_name(1), "Unknown");
    assert_eq!(team_name(u32::MAX), "Unknown");
}

#[test]
fn float_bits_eq_follows_f32_eq() {
    let values = [
        0.0f32,
        -0.0,
        1.0,
        -1.5,
        f32::NAN,
        -f32::NAN,
        f32::INFINITY,
        f32::NEG_INFINITY,
        f32::MIN_POSITIVE,
        f32::from_bits(1),
        123.25,
    ];
    for a in values {
        for b in values {
            assert_eq!(float_bits_eq(a.to_bits(), b.to_bits()), a == b, "{a} {b}");
        }
    }
}

#[test]
fn positions_equal_follows_array_eq() {
    let a = [1.0f32, -0.0, 3.5];
    let b = [1.0f32, 0.0, 3.5];
    let c = [1.0f32, 0.0, f32::NAN];
    let bits = |p: [f32; 3]| p.map(f32::to_bits);
    assert_eq!(positions_equal(bits(a), bits(b)), a == b);
    assert!(positions_equal(bits(a), bits(b)));
    assert!(!positions_equal(bits(c), bits(c)));
    assert!(!positions_equal(bits(a), bits([1.0, 0.0, 3.25])));
}

#[test]
fn presence_of_pointers() {
    assert!(!is_present(0));
    assert!(is_present(0x7fff_0000_1000));
}

#[test]
fn build_player_marks_the_local_player() {
    let me = [10.0f32, 20.0, 30.0].map(f32::to_bits);
    let rot = [1.0f32, 2.0].map(f32::to_bits);
    let p = build_player(100, 3, me, rot, me);
    assert_eq!(p.team, "CT");
    assert!(p.is_local);
    assert_eq!(p.health, 100);
    assert_eq!(p.position, me);
    assert_eq!(p.ang_rotation, rot);

    let other = [11.0f32, 20.0, 30.0].map(f32::to_bits);
    let q = build_player(42, 2, other, rot, me);
    assert_eq!(q.team, "T");
    assert!(!q.is_local);
    assert_eq!(q.health, 42);
}
