use base64::Engine;
use devenv_tasks::exports::{export_file, export_line};
use devenv_tasks::TaskState;
use std::time::Instant;

const B64: base64::engine::GeneralPurpose = base64::engine::general_purpose::STANDARD;

fn encode(s: &str) -> String {
    B64.encode(s)
}

fn make_line(key: &str, value: &str) -> (Instant, String) {
    (
        Instant::now(),
        format!("DEVENV_EXPORT:{}={}", encode(key), encode(value)),
    )
}

fn make_file_data(pairs: &[(&str, &str)]) -> Vec<u8> {
    let mut data = Vec::new();
    for (name, value) in pairs {
        data.extend_from_slice(name.as_bytes());
        data.push(0);
        data.extend_from_slice(B64.encode(value).as_bytes());
        data.push(0);
    }
    data
}

fn owned(pairs: &[(&str, &str)]) -> Vec<(String, String)> {
    pairs.iter().map(|(k, v)| (k.to_string(), v.to_string())).collect()
}

// -- the exports file --

#[test]
fn parse_exports_empty() {
    assert!(TaskState::parse_exports(b"").is_empty());
}

#[test]
fn parse_exports_single() {
    let data = make_file_data(&[("FOO", "bar")]);
    let result = TaskState::parse_exports(&data);
    assert_eq!(result, vec![("FOO".into(), "bar".into())]);
}

#[test]
fn parse_exports_multiple() {
    let data = make_file_data(&[("A", "1"), ("B", "2"), ("C", "3")]);
    let result = TaskState::parse_exports(&data);
    assert_eq!(
        result,
        vec![
            ("A".into(), "1".into()),
            ("B".into(), "2".into()),
            ("C".into(), "3".into()),
        ]
    );
}

#[test]
fn parse_exports_empty_value() {
    let data = make_file_data(&[("KEY", "")]);
    let result = TaskState::parse_exports(&data);
    assert_eq!(result, vec![("KEY".into(), String::new())]);
}

#[test]
fn parse_exports_value_with_special_chars() {
    let data = make_file_data(&[("P", "hello world"), ("Q", "a=b=c"), ("R", "line\nnewline")]);
    let result = TaskState::parse_exports(&data);
    assert_eq!(
        result,
        vec![
            ("P".into(), "hello world".into()),
            ("Q".into(), "a=b=c".into()),
            ("R".into(), "line\nnewline".into()),
        ]
    );
}

#[test]
fn parse_exports_skips_empty_name() {
    // An empty name: \0<base64>\0
    let mut data = Vec::new();
    data.push(0);
    data.extend_from_slice(B64.encode("val").as_bytes());
    data.push(0);
    // Then a valid pair
    data.extend_from_slice(b"GOOD");
    data.push(0);
    data.extend_from_slice(B64.encode("ok").as_bytes());
    data.push(0);

    let result = TaskState::parse_exports(&data);
    assert_eq!(result, vec![("GOOD".into(), "ok".into())]);
}

#[test]
fn parse_exports_invalid_base64_skipped() {
    let mut data = Vec::new();
    data.extend_from_slice(b"NAME");
    data.push(0);
    data.extend_from_slice(b"!!!not-base64!!!");
    data.push(0);

    let result = TaskState::parse_exports(&data);
    assert!(result.is_empty());
}

#[test]
fn parse_exports_odd_field_ignored() {
    // A trailing name without a value pair is ignored
    let mut data = make_file_data(&[("A", "1")]);
    data.extend_from_slice(b"ORPHAN");
    let result = TaskState::parse_exports(&data);
    assert_eq!(result, vec![("A".into(), "1".into())]);
}

#[test]
fn parse_exports_name_that_is_no_utf8_skipped() {
    let mut data = vec![0xff, 0];
    data.extend_from_slice(B64.encode("val").as_bytes());
    data.push(0);
    data.extend_from_slice(&make_file_data(&[("A", "1")]));
    assert_eq!(TaskState::parse_exports(&data), owned(&[("A", "1")]));
}

#[test]
fn parse_exports_value_that_is_no_utf8_skipped() {
    let mut data = b"BAD\0".to_vec();
    data.extend_from_slice(B64.encode([0xc3u8, 0x28]).as_bytes());
    data.push(0);
    data.extend_from_slice(&make_file_data(&[("A", "1")]));
    assert_eq!(TaskState::parse_exports(&data), owned(&[("A", "1")]));
}

#[test]
fn parse_exports_value_without_its_end() {
    // The NUL after the last value may be missing.
    let data = b"A\0MQ==";
    assert_eq!(TaskState::parse_exports(data), owned(&[("A", "1")]));
}

#[test]
fn parse_exports_roundtrip() {
    let pairs = owned(&[
        ("A", ""),
        ("_x9", "line\nline"),
        ("LONG_NAME_0", "\u{1F980} = \0 '"),
        ("A", "again"),
    ]);
    let data = export_file(&pairs);
    let refs: Vec<(&str, &str)> = pairs.iter().map(|(k, v)| (k.as_str(), v.as_str())).collect();
    assert_eq!(data, make_file_data(&refs));
    assert_eq!(TaskState::parse_exports(&data), pairs);
    assert_eq!(export_file(&Vec::new()), Vec::<u8>::new());
}

// -- lines on the standard output --

#[test]
fn parse_stdout_exports_empty() {
    assert!(TaskState::parse_stdout_exports(&[]).is_empty());
}

#[test]
fn parse_stdout_exports_ignores_non_export_lines() {
    let lines = vec![
        (Instant::now(), "some normal output".into()),
        (Instant::now(), "building stuff...".into()),
    ];
    assert!(TaskState::parse_stdout_exports(&lines).is_empty());
}

#[test]
fn parse_stdout_exports_single() {
    let lines = vec![make_line("MY_VAR", "my_value")];
    let result = TaskState::parse_stdout_exports(&lines);
    assert_eq!(result, vec![("MY_VAR".into(), "my_value".into())]);
}

#[test]
fn parse_stdout_exports_mixed_lines() {
    let lines = vec![
        (Instant::now(), "before".into()),
        make_line("X", "1"),
        (Instant::now(), "middle".into()),
        make_line("Y", "2"),
        (Instant::now(), "after".into()),
    ];
    let result = TaskState::parse_stdout_exports(&lines);
    assert_eq!(
        result,
        vec![("X".into(), "1".into()), ("Y".into(), "2".into())]
    );
}

#[test]
fn parse_stdout_exports_short_key() {
    // 1-char key "A" -> base64 "QQ==" (4 chars with padding)
    let lines = vec![make_line("A", "val")];
    let result = TaskState::parse_stdout_exports(&lines);
    assert_eq!(result, vec![("A".into(), "val".into())]);
}

#[test]
fn parse_stdout_exports_empty_value() {
    let lines = vec![make_line("KEY", "")];
    let result = TaskState::parse_stdout_exports(&lines);
    assert_eq!(result, vec![("KEY".into(), String::new())]);
}

#[test]
fn parse_stdout_exports_value_with_equals() {
    let lines = vec![make_line("PATH", "/usr/bin:/bin")];
    let result = TaskState::parse_stdout_exports(&lines);
    assert_eq!(result, vec![("PATH".into(), "/usr/bin:/bin".into())]);
}

#[test]
fn parse_stdout_exports_roundtrip() {
    let pairs = owned(&[("A", ""), ("_x9", "line\nline"), ("four", "="), ("fiver", "\u{1F980}")]);
    let mut lines = Vec::new();
    for (name, value) in &pairs {
        let line = export_line(name, value);
        assert_eq!(line, make_line(name, value).1);
        lines.push((Instant::now(), line));
    }
    assert_eq!(TaskState::parse_stdout_exports(&lines), pairs);
}

#[test]
fn parse_stdout_exports_broken_lines_skipped() {
    let lines: Vec<(Instant, String)> = [
        "DEVENV_EXPORT:",
        "DEVENV_EXPORT:QQ==",
        "DEVENV_EXPORT:=MQ==",
        "DEVENV_EXPORT:!!!!=MQ==",
        "DEVENV_EXPORT:QQ===!!!!",
        "DEVENV_EXPORT:QQ===wyg=",
        " DEVENV_EXPORT:QQ===MQ==",
    ]
    .iter()
    .map(|line| (Instant::now(), line.to_string()))
    .collect();
    assert!(TaskState::parse_stdout_exports(&lines).is_empty());
}

#[test]
fn decode_b64_takes_padded_utf8_alone() {
    assert_eq!(TaskState::decode_b64(b"aGVsbG8=", "KEY"), Ok("hello".to_string()));
    assert_eq!(TaskState::decode_b64(b"", "KEY"), Ok(String::new()));
    // Padding, trailing bits and the alphabet have to be those of the encoder.
    for data in ["aGVsbG8", "aGVsbG9=", "aGVsbG8==", "aGVs\nbG8=", "aGVs-_8="] {
        let warning = TaskState::decode_b64(data.as_bytes(), "KEY").unwrap_err();
        assert!(warning.starts_with("Skipping KEY with invalid base64: "));
    }
    let error = std::str::from_utf8(&[0xc3, 0x28]).unwrap_err();
    assert_eq!(
        TaskState::decode_b64(b"wyg=", "KEY"),
        Err(format!("Skipping KEY with invalid UTF-8: {error}"))
    );
}

#[test]
fn skipped_exports_are_told() {
    let refused = B64.decode("!").unwrap_err();
    let no_utf8 = std::str::from_utf8(&[0xff]).unwrap_err();
    let mut data = b"GOOD\0b2s=\0BAD\0!\0\0!\0".to_vec();
    data.extend_from_slice(b"\xff\0!\0");
    let (exports, warnings) = TaskState::read_exports(&data);
    assert_eq!(exports, owned(&[("GOOD", "ok")]));
    assert_eq!(
        warnings,
        vec![
            format!("Skipping BAD with invalid base64: {refused}"),
            format!("Skipping export with invalid UTF-8 name: {no_utf8}"),
        ]
    );

    let refused = B64.decode("!!!!").unwrap_err();
    let lines = vec![
        (Instant::now(), "DEVENV_EXPORT:!!!!=!!!!".to_string()),
        make_line("A", "1"),
        (Instant::now(), "DEVENV_EXPORT:no separator".to_string()),
    ];
    let (exports, warnings) = TaskState::read_stdout_exports(&lines);
    assert_eq!(exports, owned(&[("A", "1")]));
    assert_eq!(
        warnings,
        vec![
            format!("Skipping DEVENV_EXPORT key with invalid base64: {refused}"),
            format!("Skipping DEVENV_EXPORT value with invalid base64: {refused}"),
        ]
    );
}

#[test]
fn exports_are_read_whatever_follows() {
    let pairs = owned(&[("A", "1"), ("B", "2")]);
    let mut data = export_file(&pairs);
    data.extend_from_slice(b"C\0Mw==\0ORPHAN");
    assert_eq!(TaskState::parse_exports(&data), owned(&[("A", "1"), ("B", "2"), ("C", "3")]));
}
