use devenv_tasks::json::{into_members, object, parse_json, print_json};
use devenv_tasks::outputs::insert_exports;
use devenv_tasks::shell::{export_script, shell_quote};
use devenv_tasks::{
    Output, Outputs, Shell, Skipped, StatusRun, StrMap, TaskCompleted, TaskState,
};
use serde_json::Value;
use std::time::{Duration, Instant};

fn json(text: &str) -> Value {
    serde_json::from_str(text).unwrap()
}

fn pairs(items: &[(&str, &str)]) -> Vec<(String, String)> {
    items.iter().map(|(k, v)| (k.to_string(), v.to_string())).collect()
}

fn outputs(items: &[(&str, &str)]) -> Outputs {
    Outputs(StrMap::from_entries(
        items.iter().map(|(k, v)| (k.to_string(), json(v))).collect(),
    ))
}

#[test]
fn exports_are_written_into_the_output() {
    let (after, placed) = insert_exports(
        json(r#"{"kept":1,"devenv":{"env":{"A":"old","N":3},"x":null}}"#),
        &pairs(&[("A", "first"), ("B", "b"), ("A", "last")]),
    );
    assert!(placed);
    assert_eq!(
        after,
        json(r#"{"kept":1,"devenv":{"env":{"A":"last","B":"b","N":3},"x":null}}"#)
    );
}

#[test]
fn exports_get_a_place_where_there_is_none() {
    let (after, placed) = insert_exports(json("{}"), &pairs(&[("A", "1")]));
    assert!(placed);
    assert_eq!(after, json(r#"{"devenv":{"env":{"A":"1"}}}"#));
    let (after, placed) = insert_exports(json("{}"), &Vec::new());
    assert!(placed);
    assert_eq!(after, json(r#"{"devenv":{"env":{}}}"#));
}

#[test]
fn exports_are_dropped_where_they_have_no_place() {
    for text in ["3", "[]", r#"{"devenv":3}"#, r#"{"devenv":{"env":"x"}}"#] {
        let (after, placed) = insert_exports(json(text), &pairs(&[("A", "1")]));
        assert!(!placed);
        assert_eq!(after, json(text));
    }
}

#[test]
fn strings_alone_are_collected() {
    let all = outputs(&[
        ("task:b", r#"{"devenv":{"env":{"A":"b","N":3}}}"#),
        ("task:a", r#"{"devenv":{"env":{"A":"a","X":"x"}}}"#),
        ("task:c", r#"{"devenv":{"env":[]}}"#),
        ("task:d", "null"),
    ]);
    let exports = all.collect_env_exports();
    assert_eq!(exports.into_entries(), pairs(&[("A", "b"), ("X", "x")]));
}

#[test]
fn script_quotes_what_a_shell_would_read() {
    let exports = StrMap::from_entries(pairs(&[
        ("Z", ""),
        ("PLAIN", "a-Z_0=/,.+"),
        ("QUOTE", "it's! $x"),
    ]));
    assert_eq!(
        export_script(Shell::Unix, &exports),
        "export PLAIN=a-Z_0=/,.+\nexport QUOTE='it'\\''s'\\!' $x'\nexport Z=''\n"
    );
}

#[test]
fn windows_words_are_put_in_double_quotes() {
    for (text, quoted) in [
        ("plain-$x!'", "plain-$x!'"),
        ("", r#""""#),
        ("a b", r#""a b""#),
        (r#"say "hi""#, r#""say \"hi\"""#),
        (r"\path\to\my documents\", r#""\path\to\my documents\\""#),
        (r#"a\" b"#, r#""a\\\" b""#),
    ] {
        assert_eq!(shell_quote(Shell::Windows, text), quoted);
    }
    let exports = StrMap::from_entries(pairs(&[("A", "x y")]));
    assert_eq!(export_script(Shell::Windows, &exports), "export A=\"x y\"\n");
}

#[test]
fn json_is_parsed_and_printed() {
    let v = parse_json(br#" {"b": [1, "x"], "a": null} "#).unwrap();
    assert_eq!(print_json(&v), Some(r#"{"a":null,"b":[1,"x"]}"#.to_string()));
    assert_eq!(parse_json(b"{"), None);
    let members = into_members(v).unwrap();
    assert_eq!(members.key(0), "a");
    assert_eq!(object(members), json(r#"{"b":[1,"x"],"a":null}"#));
    assert_eq!(into_members(json("[1]")).unwrap_err(), json("[1]"));
}

#[test]
fn outputs_print_as_one_object() {
    let all = outputs(&[("b", "[1]"), ("a", "{}")]);
    assert_eq!(all.to_json(), Some(r#"{"a":{},"b":[1]}"#.to_string()));
    assert_eq!(outputs(&[]).to_json(), Some("{}".to_string()));
}

#[test]
fn file_exports_take_precedence_over_printed_ones() {
    let lines = vec![
        (Instant::now(), "DEVENV_EXPORT:QQ===cHJpbnRlZA==".to_string()),
        (Instant::now(), "DEVENV_EXPORT:Qg===cHJpbnRlZA==".to_string()),
    ];
    let (output, warnings) = TaskState::get_outputs(
        &Some(br#"{"x":1}"#.to_vec()),
        &Some(b"A\0ZmlsZWQ=\0".to_vec()),
        &lines,
    );
    assert_eq!(
        output.0,
        Some(json(r#"{"x":1,"devenv":{"env":{"A":"filed","B":"printed"}}}"#))
    );
    assert!(warnings.is_empty());
}

#[test]
fn output_of_a_silent_task_is_its_file() {
    let (Output(none), _) = TaskState::get_outputs(&None, &None, &[]);
    assert_eq!(none, None);
    let (Output(broken), _) = TaskState::get_outputs(&Some(b"{".to_vec()), &Some(Vec::new()), &[]);
    assert_eq!(broken, None);
    let (Output(plain), _) = TaskState::get_outputs(&Some(b"{}".to_vec()), &None, &[]);
    assert_eq!(plain, Some(json("{}")));
    let (Output(made), _) = TaskState::get_outputs(&None, &Some(b"A\0MQ==\0".to_vec()), &[]);
    assert_eq!(made, Some(json(r#"{"devenv":{"env":{"A":"1"}}}"#)));
}

#[test]
fn dropped_exports_are_told() {
    let lines = vec![(Instant::now(), "DEVENV_EXPORT:QQ===!".to_string())];
    let (Output(kept), warnings) = TaskState::get_outputs(
        &Some(b"[7]".to_vec()),
        &Some(b"A\0MQ==\0B\0Mg==\0C\0!\0".to_vec()),
        &lines,
    );
    assert_eq!(kept, Some(json("[7]")));
    assert_eq!(warnings.len(), 3);
    assert!(warnings[0].starts_with("Skipping DEVENV_EXPORT value with invalid base64: "));
    assert!(warnings[1].starts_with("Skipping C with invalid base64: "));
    assert_eq!(warnings[2], "Task output is not a JSON object, 2 export(s) dropped");
}

#[test]
fn status_decides_whether_the_task_runs() {
    let elapsed = Duration::from_secs(3);
    let run = StatusRun::Succeeded(Some(b"A\0MQ==\0".to_vec()));
    match TaskState::check_status(run, Some(json(r#"{"x":1}"#)), elapsed).0 {
        Some(TaskCompleted::Skipped(Skipped::Cached(Output(Some(output))))) => {
            assert_eq!(output, json(r#"{"x":1,"devenv":{"env":{"A":"1"}}}"#));
        }
        other => panic!("{other:?}"),
    }
    match TaskState::check_status(StatusRun::Succeeded(None), None, elapsed).0 {
        Some(TaskCompleted::Skipped(Skipped::Cached(Output(Some(output))))) => {
            assert_eq!(output, json("{}"));
        }
        other => panic!("{other:?}"),
    }
    assert!(TaskState::check_status(StatusRun::Failed, None, elapsed).0.is_none());
    let run = StatusRun::Succeeded(Some(b"A\0!\0".to_vec()));
    assert_eq!(TaskState::check_status(run, None, elapsed).1.len(), 1);
    let run = StatusRun::NotStarted("no such program".to_string());
    match TaskState::check_status(run, None, elapsed).0 {
        Some(TaskCompleted::Failed(after, failure)) => {
            assert_eq!(after, elapsed);
            assert_eq!(failure.error, "no such program");
            assert!(failure.stdout.is_empty() && failure.stderr.is_empty());
        }
        other => panic!("{other:?}"),
    }
}
