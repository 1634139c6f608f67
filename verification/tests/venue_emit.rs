use spyder::cable_model::{cable_model_from_name, cable_model_str};
use spyder::venue::{resolve_venue, scan_venue_text, PointText, VenueDialect};
use spyder::venue_emit::{emit_venue_text, AnchorOut, CableModelOut};

fn point(x: f64, y: f64, z: f64) -> PointText {
    PointText { x: format!("{:.6}", x), y: format!("{:.6}", y), z: format!("{:.6}", z) }
}

fn plain_anchor(x: f64, y: f64, z: f64) -> AnchorOut {
    AnchorOut { exit: point(x, y, z), pulley_radius: None, pulley_axis: None, pulley_winch_exit: None, pulley_runout_m: None }
}

fn model(name: &str, pulley_radius: f64) -> CableModelOut {
    CableModelOut {
        model: name.to_string(),
        pulley_radius: format!("{:.6}", pulley_radius),
        sag_mu: format!("{:.6}", 1.0),
        sag_ea: format!("{:.1}", 1.0e6),
    }
}

#[test]
fn emit_and_parse_four_anchors() {
    let anchors = vec![
        plain_anchor(5.0, 3.0, 8.0),
        plain_anchor(-5.0, 3.0, 8.0),
        plain_anchor(-5.0, -3.0, 8.0),
        plain_anchor(5.0, -3.0, 8.0),
    ];
    let params = model("pulley", 0.06);
    let toml = emit_venue_text(&anchors, &[], true, &point(0.0, 0.0, 1.5), &params);
    let scan = scan_venue_text(&toml, VenueDialect::Gui);
    assert!(scan.error.is_none());
    let shape = resolve_venue(&scan.doc).unwrap();
    assert_eq!(shape.anchor_count(&scan.doc), 4);
    let home_z: f64 = scan.doc.home_z.as_ref().unwrap().parse().unwrap();
    assert!((home_z - 1.5).abs() < 1e-9);
    let kind = cable_model_from_name(&scan.doc.cable_model).unwrap();
    assert_eq!(cable_model_str(&kind), "pulley");
}

#[test]
fn emitted_text_is_exact() {
    let a = AnchorOut {
        exit: point(1.0, 2.0, 3.0),
        pulley_radius: Some("0.050000".to_string()),
        pulley_axis: Some(point(0.0, 0.0, 1.0)),
        pulley_winch_exit: None,
        pulley_runout_m: Some("0.100000".to_string()),
    };
    let text = emit_venue_text(&[a], &[point(0.0, 0.5, 0.0)], false, &point(0.0, 0.0, 2.0), &model("sag", 0.0));
    let want = "point_mass = false\n\n\
[[anchors]]\n# cable 0\nx = 1.000000\ny = 2.000000\nz = 3.000000\npulley_radius = 0.050000\n\
pulley_axis_x = 0.000000\npulley_axis_y = 0.000000\npulley_axis_z = 1.000000\npulley_runout_m = 0.100000\n\n\
[[attachments]]\n# body point 0\nx = 0.000000\ny = 0.500000\nz = 0.000000\n\n\
[home]\nx = 0.000000\ny = 0.000000\nz = 2.000000\n\n\
cable_model = \"sag\"\nsag_mu = 1.000000\nsag_ea = 1000000.0\n";
    assert_eq!(text, want);
}

#[test]
fn written_venue_reads_back() {
    let anchors = vec![
        AnchorOut {
            exit: point(4.0, 4.0, 3.0),
            pulley_radius: Some("0.040000".to_string()),
            pulley_axis: Some(point(0.0, 0.0, 1.0)),
            pulley_winch_exit: Some(point(4.0, 4.0, 0.0)),
            pulley_runout_m: Some("0.200000".to_string()),
        },
        plain_anchor(-4.0, 4.0, 3.0),
        plain_anchor(-4.0, -4.0, 3.0),
    ];
    let atts = vec![point(0.1, 0.0, 0.0), point(-0.1, 0.0, 0.0), point(0.0, 0.1, 0.0)];
    let text = emit_venue_text(&anchors, &atts, false, &point(0.5, -0.5, 1.25), &model("ideal", 0.0));
    let scan = scan_venue_text(&text, VenueDialect::Gui);
    assert!(scan.error.is_none());
    let doc = scan.doc;
    assert!(!doc.point_mass);
    assert_eq!(doc.anchors.len(), 3);
    assert_eq!(doc.anchors[0].exit.x, "4.000000");
    assert_eq!(doc.anchors[0].pulley_radius.as_deref(), Some("0.040000"));
    assert_eq!(doc.anchors[0].pulley_runout_m.as_deref(), Some("0.200000"));
    assert_eq!(doc.anchors[1].pulley_radius, None);
    assert_eq!(doc.attachments.len(), 3);
    assert_eq!(doc.attachments[1].x, "-0.100000");
    assert_eq!(doc.home_z.as_deref(), Some("1.250000"));
    assert_eq!(doc.cable_model, "ideal");
    assert_eq!(doc.pulley_radius, None);
    assert_eq!(doc.sag_mu, None);
    assert_eq!(doc.number_texts.len(), (3 + 2) + 3 + 3 + 3 * 3 + 3);
    assert!(resolve_venue(&doc).is_ok());
}
