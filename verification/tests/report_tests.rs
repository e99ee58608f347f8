use human_panic::report::{
    build_file_name, generate_file_name, join_path, parse_report, target_dir, Method, Report,
};
use human_panic::trace::{Frame, Symbol};

fn demo_report(backtrace_frames: Vec<Frame>) -> Report {
    Report::new_from_frames(
        "demo",
        "1.0.0",
        Method::Panic,
        "unexpected fault".to_string(),
        "index out of bounds".to_string(),
        "/tmp/demo-reports",
        "TestOS 1.0".to_string(),
        backtrace_frames,
    )
}

fn deep_frames() -> Vec<Frame> {
    let mut frames = Vec::new();
    for i in 0..10 {
        frames.push(Frame {
            ip: 0x1000 + i,
            symbols: vec![Symbol {
                name: Some(format!("func_{i}")),
                file: Some(format!("src/mod_{i}.rs")),
                line: Some(10 + i as u32),
            }],
        });
    }
    frames
}

#[test]
fn serialize_has_stable_key_order() {
    let report = demo_report(Vec::new());
    let s = report.serialize().unwrap();
    let expected = "name = \"demo\"\noperating_system = \"TestOS 1.0\"\ncrate_version = \"1.0.0\"\nexplanation = \"unexpected fault\"\ncause = \"index out of bounds\"\nmethod = \"Panic\"\nbacktrace = \"\"\npath = \"/tmp/demo-reports\"\n";
    assert_eq!(s, expected);
}

#[test]
fn serialize_escapes_special_characters() {
    let report = Report::new_from_frames(
        "de\"mo",
        "1.0.0",
        Method::Panic,
        "line one\nline two".to_string(),
        "tab\there \\ done".to_string(),
        "/tmp",
        "os\r".to_string(),
        Vec::new(),
    );
    let s = report.serialize().unwrap();
    assert!(s.contains("name = \"de\\\"mo\"\n"));
    assert!(s.contains("explanation = \"line one\\nline two\"\n"));
    assert!(s.contains("cause = \"tab\\there \\\\ done\"\n"));
    assert!(s.contains("operating_system = \"os\\r\"\n"));
}

#[test]
fn serialize_escapes_control_characters() {
    let report = Report::new_from_frames(
        "demo",
        "1.0.0",
        Method::Panic,
        "bell \u{7} escape \u{1b}".to_string(),
        "del \u{7f} nul \u{0}".to_string(),
        "/tmp",
        "os".to_string(),
        Vec::new(),
    );
    let s = report.serialize().unwrap();
    assert!(s.contains("explanation = \"bell \\u0007 escape \\u001b\"\n"));
    assert!(s.contains("cause = \"del \\u007f nul \\u0000\"\n"));
    let back = parse_report(&s).unwrap();
    assert_eq!(back.explanation, "bell \u{7} escape \u{1b}");
    assert_eq!(back.cause, "del \u{7f} nul \u{0}");
    // The persisted file stays valid TOML for such values.
    let value: toml::Value = s.parse().expect("control characters are escaped for TOML");
    assert_eq!(
        value.get("explanation").and_then(|v| v.as_str()),
        Some("bell \u{7} escape \u{1b}")
    );
}

#[test]
fn round_trip_recovers_all_fields() {
    let report = demo_report(deep_frames());
    // Two frames survive the skip count, so the stored trace is multi-line.
    assert!(report.backtrace.contains('\n'));
    let s = report.serialize().unwrap();
    let back = parse_report(&s).unwrap();
    assert_eq!(back.name, "demo");
    assert_eq!(back.operating_system, "TestOS 1.0");
    assert_eq!(back.crate_version, "1.0.0");
    assert_eq!(back.explanation, "unexpected fault");
    assert_eq!(back.cause, "index out of bounds");
    assert!(matches!(back.method, Method::Panic));
    assert_eq!(back.backtrace, report.backtrace);
    assert_eq!(back.path, "/tmp/demo-reports");
}

#[test]
fn round_trip_keeps_awkward_values() {
    let report = Report::new_from_frames(
        "a\\b\"c",
        "\n",
        Method::Panic,
        "".to_string(),
        "\t\r\n".to_string(),
        "",
        "x = \"y\"".to_string(),
        Vec::new(),
    );
    let s = report.serialize().unwrap();
    let back = parse_report(&s).unwrap();
    assert_eq!(back.name, "a\\b\"c");
    assert_eq!(back.crate_version, "\n");
    assert_eq!(back.explanation, "");
    assert_eq!(back.cause, "\t\r\n");
    assert_eq!(back.operating_system, "x = \"y\"");
    assert_eq!(back.path, "");
}

#[test]
fn serialized_form_is_valid_toml() {
    let report = demo_report(deep_frames());
    let s = report.serialize().unwrap();
    let value: toml::Value = s.parse().expect("the serialized report parses as TOML");
    assert_eq!(value.get("name").and_then(|v| v.as_str()), Some("demo"));
    assert_eq!(
        value.get("cause").and_then(|v| v.as_str()),
        Some("index out of bounds")
    );
    assert_eq!(value.get("method").and_then(|v| v.as_str()), Some("Panic"));
    assert_eq!(
        value.get("backtrace").and_then(|v| v.as_str()),
        Some(report.backtrace.as_str())
    );
}

#[test]
fn parse_rejects_malformed_text() {
    assert!(parse_report("").is_none());
    assert!(parse_report("name = \"demo\"\n").is_none());
    assert!(parse_report("nonsense").is_none());
    // A wrong method tag is rejected.
    let report = demo_report(Vec::new());
    let s = report.serialize().unwrap().replace("\"Panic\"", "\"Other\"");
    assert!(parse_report(&s).is_none());
    // Trailing text after the last field is rejected.
    let mut s2 = demo_report(Vec::new()).serialize().unwrap();
    s2.push_str("extra");
    assert!(parse_report(&s2).is_none());
}

#[test]
fn construction_captures_a_real_stack() {
    let report = Report::new(
        "demo",
        "1.0.0",
        Method::Panic,
        "unexpected fault".to_string(),
        "index out of bounds".to_string(),
        "/tmp/demo-reports",
    );
    assert_eq!(report.name, "demo");
    assert_eq!(report.crate_version, "1.0.0");
    assert_eq!(report.path, "/tmp/demo-reports");
    assert!(!report.operating_system.is_empty());
    // Serialization of a freshly captured report always succeeds.
    let s = report.serialize().unwrap();
    assert!(s.starts_with("name = \"demo\"\n"));
}

#[test]
fn file_name_is_built_from_date_and_id() {
    let name = build_file_name("2001-02-03 04:05", "aaaaaaaa-bbbb-cccc-dddd-eeeeeeeeeeee");
    assert_eq!(
        name,
        "report-2001-02-03 04:05-aaaaaaaa-bbbb-cccc-dddd-eeeeeeeeeeee.toml"
    );
}

#[test]
fn generated_file_name_has_expected_shape() {
    let name = generate_file_name();
    assert!(name.starts_with("report-"));
    assert!(name.ends_with(".toml"));
    // prefix + minute-precision timestamp + hyphen + hyphenated id + extension
    assert_eq!(name.len(), 7 + 16 + 1 + 36 + 5);
    assert!(!name.contains('/'));
}

#[test]
fn generated_file_names_do_not_collide() {
    let mut names: Vec<String> = Vec::new();
    for _ in 0..100 {
        names.push(generate_file_name());
    }
    for i in 0..names.len() {
        for j in (i + 1)..names.len() {
            assert_ne!(names[i], names[j]);
        }
    }
}

#[test]
fn target_directory_prefers_the_requested_one() {
    assert_eq!(target_dir(true, "/data/reports", "/tmp"), "/data/reports");
}

#[test]
fn target_directory_falls_back_to_temp() {
    // The preferred location could not be created: the fallback is used,
    // silently, and the path still lies in a known directory.
    let dir = target_dir(false, "/proc/no-write-permission/reports", "/tmp");
    assert_eq!(dir, "/tmp");
    let path = join_path(&dir, "report-x.toml");
    assert_eq!(path, "/tmp/report-x.toml");
    assert!(path.starts_with("/tmp/"));
}

#[test]
fn joined_path_stays_inside_directory() {
    let name = generate_file_name();
    let path = join_path("/var/reports", &name);
    assert!(path.starts_with("/var/reports/"));
    assert_eq!(&path[..13], "/var/reports/");
}
