use readonly::overview::{overview_path, parse_overview, radar_image_path};

const DUST2: &str = "// DUST2\n\"de_dust2\"\n{\n\t\"material\"\t\"overviews/de_dust2\"\n\t\"pos_x\"\t\t\"-2476\"\t// upper left world coordinate\n\t\"pos_y\"\t\t\"3239\"\n\t\"scale\"\t\t\"4.4\"\n\t\"rotate\"\t\"1\"\n\t\"zoom\"\t\t\"1.1\"\n}\n";

#[test]
fn parse_overview_reads_the_fields() {
    let f = parse_overview(DUST2);
    assert_eq!(f.pos_x.as_deref(), Some("-2476"));
    assert_eq!(f.pos_y.as_deref(), Some("3239"));
    assert_eq!(f.scale.as_deref(), Some("4.4"));
    assert!(f.already_rotated);
}

#[test]
fn parse_overview_empty_text() {
    let f = parse_overview("");
    assert_eq!(f.pos_x, None);
    assert_eq!(f.pos_y, None);
    assert_eq!(f.scale, None);
    assert!(f.already_rotated);
}

#[test]
fn parse_overview_rotate_zero() {
    let f = parse_overview("\"rotate\" \"0\"\r\n\"pos_x\" \"1\"");
    assert!(!f.already_rotated);
    assert_eq!(f.pos_x.as_deref(), Some("1"));
}

#[test]
fn parse_overview_last_line_wins() {
    let f = parse_overview("\"scale\" \"2\"\n\"scale\" \"5.5\"\n\"rotate\" \"0\"\n\"rotate\" \"1\"\n");
    assert_eq!(f.scale.as_deref(), Some("5.5"));
    assert!(f.already_rotated);
}

#[test]
fn parse_overview_missing_value_is_empty() {
    let f = parse_overview("   \"pos_y\"   \n");
    assert_eq!(f.pos_y.as_deref(), Some(""));
}

#[test]
fn parse_overview_strips_all_quotes() {
    let f = parse_overview("\"pos_x\" \"\"\"12\"\"");
    assert_eq!(f.pos_x.as_deref(), Some("12"));
}

#[test]
fn parse_overview_unicode_whitespace_separates() {
    let f = parse_overview("\u{3000}\"pos_x\"\u{a0}\"7\"\u{2003}rest");
    assert_eq!(f.pos_x.as_deref(), Some("7"));
}

#[test]
fn parse_overview_key_must_be_quoted_and_first() {
    let f = parse_overview("pos_x \"3\"\nx \"pos_y\" \"4\"\n");
    assert_eq!(f.pos_x, None);
    assert_eq!(f.pos_y, None);
}

#[test]
fn overview_paths() {
    assert_eq!(
        overview_path("/games/csgo", "de_nuke"),
        "/games/csgo/csgo/resource/overviews/de_nuke.txt"
    );
    assert_eq!(
        radar_image_path("/games/csgo", "de_nuke"),
        "/games/csgo/csgo/resource/overviews/de_nuke_radar.dds"
    );
}

#[test]
fn parse_overview_ignores_other_lines_anywhere() {
    let core = "\"pos_x\" \"-2476\"\n\"pos_y\" \"3239\"\n\"scale\" \"4.4\"\n\"rotate\" \"0\"";
    let padded = "{\n\"material\" \"x\"\n\"pos_x\" \"-2476\"\n\"zoom\" \"1.1\"\n\"pos_y\" \"3239\"\npos_x \"9\"\n\"scale\" \"4.4\"\n}\n\"rotate\" \"0\"\n\"zoom\" \"2\"";
    let a = parse_overview(core);
    let b = parse_overview(padded);
    assert_eq!(a.pos_x, b.pos_x);
    assert_eq!(a.pos_y, b.pos_y);
    assert_eq!(a.scale, b.scale);
    assert_eq!(a.already_rotated, b.already_rotated);
    assert!(!b.already_rotated);
}
