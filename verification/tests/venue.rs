use spyder::venue::{resolve_venue, scan_venue_text, VenueDialect, VenueShape, VenueText};

/// Reads a venue the way the GUI service and the command line do: numbers
/// are converted in reading order, so the first bad one wins over later
/// errors; then the anchors are resolved.
fn read(text: &str, d: VenueDialect) -> Result<(VenueText, VenueShape), String> {
    let scan = scan_venue_text(text, d);
    for t in &scan.doc.number_texts {
        t.parse::<f64>().map_err(|e| e.to_string())?;
    }
    if let Some(e) = scan.error {
        return Err(e);
    }
    let shape = resolve_venue(&scan.doc)?;
    Ok((scan.doc, shape))
}

fn num(t: &Option<String>) -> f64 {
    t.as_ref().unwrap().parse().unwrap()
}

#[test]
fn parse_preset_toml() {
    let text = r#"
preset = "rect"
width = 10.0
depth = 6.0
height = 8.0
point_mass = true

[home]
x = 0.0
y = 0.0
z = 2.0
"#;
    let (doc, shape) = read(text, VenueDialect::Gui).unwrap();
    assert_eq!(shape.anchor_count(&doc), 4);
    assert!((num(&doc.home_z) - 2.0).abs() < 1e-9);
}

#[test]
fn parse_empty_config_errors() {
    assert!(read("point_mass = true\n", VenueDialect::Gui).is_err());
}

#[test]
fn parses_rect_preset() {
    let text = r#"
preset = "rect"
width = 10.0
depth = 6.0
height = 8.0
point_mass = true
"#;
    let (doc, shape) = read(text, VenueDialect::Cli).unwrap();
    assert_eq!(shape.anchor_count(&doc), 4);
    assert!(doc.point_mass);
}

#[test]
fn parses_explicit_anchors() {
    let text = r#"
point_mass = true
[[anchors]]
x = 5.0
y = 3.0
z = 8.0
[[anchors]]
x = -5.0
y = 3.0
z = 8.0
[[anchors]]
x = -5.0
y = -3.0
z = 8.0
"#;
    let (doc, shape) = read(text, VenueDialect::Cli).unwrap();
    assert_eq!(shape.anchor_count(&doc), 3);
    assert_eq!(doc.anchors[0].exit.x.parse::<f64>().unwrap(), 5.0);
}

#[test]
fn ignores_comments() {
    let text = r#"
# comment line
preset = "rect"
width = 4.0 # inline
depth = 4.0
height = 3.0
point_mass = true
"#;
    let (doc, shape) = read(text, VenueDialect::Cli).unwrap();
    assert_eq!(shape.anchor_count(&doc), 4);
}

#[test]
fn parses_polygon_preset() {
    let text = r#"
preset = "polygon"
n = 5
radius = 4.0
height = 7.0
point_mass = true
"#;
    let (doc, shape) = read(text, VenueDialect::Cli).unwrap();
    assert_eq!(shape.anchor_count(&doc), 5);
}

#[test]
fn invalid_number_is_reported() {
    let e = read("preset = \"rect\"\nwidth = oops", VenueDialect::Gui).unwrap_err();
    assert_eq!(e, "invalid float literal");
}

#[test]
fn first_error_in_reading_order_wins() {
    // The bad number comes before the anchor block that lacks `x`.
    let text = "width = oops\n[[anchors]]\ny = 1\nz = 2\n[home]\n";
    assert_eq!(read(text, VenueDialect::Gui).unwrap_err(), "invalid float literal");
    // Here the block is closed (and fails) before the bad number is read.
    let text = "[[anchors]]\ny = 1\nz = 2\n[home]\nwidth = oops\n";
    assert_eq!(read(text, VenueDialect::Gui).unwrap_err(), "missing x");
    let scan = scan_venue_text(text, VenueDialect::Gui);
    assert_eq!(scan.doc.number_texts, vec!["1".to_string(), "2".to_string()]);
}

#[test]
fn block_closing_reports_missing_coordinates() {
    assert_eq!(read("[[anchors]]\ny = 1\nz = 2\n", VenueDialect::Gui).unwrap_err(), "missing x");
    assert_eq!(read("[[attachments]]\nx = 1\nz = 2\n", VenueDialect::Cli).unwrap_err(), "missing y");
    assert_eq!(read("[[anchors]]\nx = 1\ny = 2\n[other]\n", VenueDialect::Gui).unwrap_err(), "missing z");
}

#[test]
fn integer_and_bool_errors_match_std() {
    for (v, want) in [
        ("-3", "-3".parse::<usize>().unwrap_err().to_string()),
        ("", "".parse::<usize>().unwrap_err().to_string()),
        ("99999999999999999999999", "99999999999999999999999".parse::<usize>().unwrap_err().to_string()),
        ("4x", "4x".parse::<usize>().unwrap_err().to_string()),
        ("+", "+".parse::<usize>().unwrap_err().to_string()),
    ] {
        let text = format!("preset = polygon\nn = {v}\n");
        assert_eq!(read(&text, VenueDialect::Gui).unwrap_err(), want);
    }
    let e = read("point_mass = yes\n", VenueDialect::Gui).unwrap_err();
    assert_eq!(e, "yes".parse::<bool>().unwrap_err().to_string());
}

#[test]
fn plus_sign_count_reads() {
    let (doc, shape) = read("preset = polygon\nn = +6\nradius = 1\nheight = 2\n", VenueDialect::Gui).unwrap();
    assert_eq!(doc.n, Some(6));
    assert_eq!(shape.anchor_count(&doc), 6);
}

#[test]
fn preset_errors() {
    assert_eq!(read("preset = \"hex\"\n", VenueDialect::Gui).unwrap_err(), "unknown preset hex");
    assert_eq!(read("preset = polygon\nn = 5\nheight = 1\n", VenueDialect::Gui).unwrap_err(), "missing radius");
    assert_eq!(
        read("preset = polygon\nn = 2\nradius = 1\nheight = 1\n", VenueDialect::Gui).unwrap_err(),
        "invalid configuration: n must be >= 3"
    );
    assert_eq!(read("width = 1\nheight = 1\n", VenueDialect::Cli).unwrap_err(), "missing depth");
}

#[test]
fn explicit_anchor_count_errors() {
    let two = "[[anchors]]\nx = 1\ny = 1\nz = 1\n[[anchors]]\nx = 2\ny = 2\nz = 2\n";
    assert_eq!(read(two, VenueDialect::Gui).unwrap_err(), "invalid configuration: need at least 3 anchors");
    let three_with_two = "[[anchors]]\nx=1\ny=1\nz=1\n[[anchors]]\nx=2\ny=2\nz=2\n[[anchors]]\nx=3\ny=3\nz=3\n\
        [[attachments]]\nx=0\ny=0\nz=0\n[[attachments]]\nx=0\ny=0\nz=1\n";
    assert_eq!(
        read(three_with_two, VenueDialect::Gui).unwrap_err(),
        "invalid configuration: attachments must match anchor count"
    );
    // The command-line tool's own reader has no attachments blocks.
    let (doc, _) = read(three_with_two, VenueDialect::AnchorsOnly).unwrap();
    assert_eq!(doc.attachments.len(), 0);
    assert_eq!(doc.anchors.len(), 3);
}

#[test]
fn home_block_and_cable_model_keys() {
    let text = "[home]\nx = 1\ny = 2\ncable_model = \"sag\" # model\nsag_mu = 0.5\nz = 9\n";
    let scan = scan_venue_text(text, VenueDialect::Gui);
    assert!(scan.error.is_none());
    assert_eq!(scan.doc.home_x.as_deref(), Some("1"));
    assert_eq!(scan.doc.home_y.as_deref(), Some("2"));
    // `cable_model` left the home block, so `z` is an ordinary top-level key.
    assert_eq!(scan.doc.home_z, None);
    assert_eq!(scan.doc.cable_model, "sag");
    assert_eq!(scan.doc.sag_mu.as_deref(), Some("0.5"));
    // The command line knows neither `[home]` nor the cable-model keys.
    let cli = scan_venue_text(text, VenueDialect::Cli);
    assert_eq!(cli.doc.home_x, None);
    assert_eq!(cli.doc.cable_model, "ideal");
    assert_eq!(cli.doc.sag_mu, None);
}

#[test]
fn anchor_pulley_keys() {
    let text = "[[anchors]]\r\nx = 1\r\ny = 2\r\nz = 3\r\npulley_radius = 0.1\r\npulley_runout_m = 0.2\r\n\
        [[attachments]]\nx = 0\ny = 0\nz = 0\npulley_radius = 7\n";
    let scan = scan_venue_text(text, VenueDialect::Gui);
    assert!(scan.error.is_none());
    let a = &scan.doc.anchors[0];
    assert_eq!((a.exit.x.as_str(), a.exit.y.as_str(), a.exit.z.as_str()), ("1", "2", "3"));
    assert_eq!(a.pulley_radius.as_deref(), Some("0.1"));
    assert_eq!(a.pulley_runout_m.as_deref(), Some("0.2"));
    assert_eq!(scan.doc.attachments.len(), 1);
    assert_eq!(scan.doc.pulley_radius, None);
    let cli = scan_venue_text(text, VenueDialect::Cli);
    assert_eq!(cli.doc.anchors[0].pulley_radius, None);
}

#[test]
fn values_are_trimmed_and_unquoted() {
    let scan = scan_venue_text("  preset   =   \"\"polygon\"\"   \nn=3\n", VenueDialect::Gui);
    assert_eq!(scan.doc.preset, "polygon");
    assert_eq!(scan.doc.n, Some(3));
    let scan = scan_venue_text("a = b = c\nwidth = 1 = 2\n", VenueDialect::Gui);
    assert_eq!(scan.doc.width.as_deref(), Some("1 = 2"));
}

#[test]
fn comments_and_blank_lines_change_nothing() {
    let plain = "preset = \"rect\"\nwidth = 4\ndepth = 3\nheight = 2.5\n[home]\nz = 1\n";
    let noted = "# venue\n\npreset = \"rect\" # four corners\nwidth = 4\n   \ndepth = 3 # metres\nheight = 2.5\n# home block\n[home]\nz = 1 # up\n";
    for d in [VenueDialect::Gui, VenueDialect::Cli, VenueDialect::AnchorsOnly] {
        let a = scan_venue_text(plain, d);
        let b = scan_venue_text(noted, d);
        assert_eq!(format!("{:?}", a.doc), format!("{:?}", b.doc));
        assert_eq!(a.error, b.error);
    }
    let bad = "n = x\n";
    let bad_noted = "\n# c\nn = x # why\n";
    let a = scan_venue_text(bad, VenueDialect::Gui);
    let b = scan_venue_text(bad_noted, VenueDialect::Gui);
    assert!(a.error.is_some());
    assert_eq!(a.error, b.error);
}

#[test]
fn missing_final_newline_changes_nothing() {
    let with = "preset = \"rect\"\nwidth = 4\n";
    let without = "preset = \"rect\"\nwidth = 4";
    let a = scan_venue_text(with, VenueDialect::Gui);
    let b = scan_venue_text(without, VenueDialect::Gui);
    assert_eq!(format!("{:?}", a.doc), format!("{:?}", b.doc));
    assert_eq!(a.error, b.error);
}
