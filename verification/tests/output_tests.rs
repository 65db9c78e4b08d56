use maze_runner::lines::LineSplitter;
use maze_runner::list::list_runners;
use maze_runner::parse::parse_runners;
use maze_runner::structs::{MazeRunner, MazeRunnerRunError, MazeRunners};

fn catalog(entries: Vec<(&str, Vec<&str>)>) -> MazeRunners {
    let runners = entries
        .into_iter()
        .map(|(name, command)| {
            MazeRunner::new(
                name.to_string(),
                command.into_iter().map(|c| c.to_string()).collect(),
            )
        })
        .collect();
    MazeRunners { runners }
}

fn expected_json(entries: &[(&str, &[&str])]) -> serde_json::Value {
    let items = entries
        .iter()
        .map(|(name, command)| {
            let mut obj = serde_json::Map::new();
            obj.insert(
                "name".to_string(),
                serde_json::Value::String(name.to_string()),
            );
            obj.insert(
                "command".to_string(),
                serde_json::Value::Array(
                    command
                        .iter()
                        .map(|c| serde_json::Value::String(c.to_string()))
                        .collect(),
                ),
            );
            serde_json::Value::Object(obj)
        })
        .collect();
    serde_json::Value::Array(items)
}

#[test]
fn listing_one_entry_gives_the_exact_json_line() {
    let cat = catalog(vec![("a", vec!["echo", "hi"])]);
    let out = list_runners(&cat);
    assert_eq!(out, "[{\"name\":\"a\",\"command\":[\"echo\",\"hi\"]}]");
}

#[test]
fn listing_is_structurally_json() {
    let cat = catalog(vec![("a", vec!["echo", "hi"]), ("b", vec!["ls"])]);
    let out = list_runners(&cat);
    let parsed: serde_json::Value = serde_json::from_str(&out).unwrap();
    assert_eq!(
        parsed,
        expected_json(&[("a", &["echo", "hi"]), ("b", &["ls"])])
    );
}

#[test]
fn listing_an_empty_catalog_gives_an_empty_array() {
    let cat = catalog(vec![]);
    assert_eq!(list_runners(&cat), "[]");
}

#[test]
fn listing_keeps_catalog_order() {
    let cat = catalog(vec![("z", vec!["a"]), ("a", vec!["b"]), ("m", vec!["c"])]);
    let parsed: serde_json::Value = serde_json::from_str(&list_runners(&cat)).unwrap();
    let names: Vec<&str> = parsed
        .as_array()
        .unwrap()
        .iter()
        .map(|o| o.get("name").unwrap().as_str().unwrap())
        .collect();
    assert_eq!(names, vec!["z", "a", "m"]);
}

#[test]
fn listing_escapes_special_characters() {
    let tricky = "he said \"hi\"\\\n\tdone\u{1}";
    let cat = catalog(vec![(tricky, vec!["echo", tricky])]);
    let out = list_runners(&cat);
    let parsed: serde_json::Value = serde_json::from_str(&out).unwrap();
    let entry = &parsed.as_array().unwrap()[0];
    assert_eq!(entry.get("name").unwrap().as_str().unwrap(), tricky);
    assert_eq!(
        entry.get("command").unwrap().as_array().unwrap()[1]
            .as_str()
            .unwrap(),
        tricky
    );
}

#[test]
fn listing_matches_what_serde_json_writes() {
    let tricky = "quote \" backslash \\ newline \n tab \t bell \u{7} end";
    let cat = catalog(vec![(tricky, vec![tricky])]);
    let out = list_runners(&cat);
    let escaped =
        serde_json::to_string(&serde_json::Value::String(tricky.to_string())).unwrap();
    let expected = format!("[{{\"name\":{},\"command\":[{}]}}]", escaped, escaped);
    assert_eq!(out, expected);
}

#[test]
fn two_lines_in_one_chunk_come_out_in_order() {
    let mut sp = LineSplitter::new();
    let lines = sp.push_chunk(&b"line1\nline2"[..]);
    assert_eq!(lines, vec![b"line1".to_vec()]);
    assert_eq!(sp.finish(), Some(b"line2".to_vec()));
}

#[test]
fn a_terminated_stream_leaves_nothing_pending() {
    let mut sp = LineSplitter::new();
    let lines = sp.push_chunk(&b"line1\nline2\n"[..]);
    assert_eq!(lines, vec![b"line1".to_vec(), b"line2".to_vec()]);
    assert_eq!(sp.finish(), None);
}

#[test]
fn carriage_returns_before_newlines_are_stripped() {
    let mut sp = LineSplitter::new();
    let lines = sp.push_chunk(&b"a\r\nb\r\n"[..]);
    assert_eq!(lines, vec![b"a".to_vec(), b"b".to_vec()]);
    assert_eq!(sp.finish(), None);
}

#[test]
fn a_lone_carriage_return_stays_in_the_line() {
    let mut sp = LineSplitter::new();
    let lines = sp.push_chunk(&b"a\rb\n"[..]);
    assert_eq!(lines, vec![b"a\rb".to_vec()]);
}

#[test]
fn chunk_boundaries_do_not_change_the_lines() {
    let mut sp = LineSplitter::new();
    let mut all: Vec<Vec<u8>> = Vec::new();
    for chunk in [&b"li"[..], &b"ne1\nli"[..], &b"ne2\n"[..]] {
        all.extend(sp.push_chunk(chunk));
    }
    assert_eq!(all, vec![b"line1".to_vec(), b"line2".to_vec()]);
    assert_eq!(sp.finish(), None);
}

#[test]
fn empty_lines_are_kept() {
    let mut sp = LineSplitter::new();
    let lines = sp.push_chunk(&b"\n\nx\n"[..]);
    assert_eq!(lines, vec![b"".to_vec(), b"".to_vec(), b"x".to_vec()]);
}

#[test]
fn an_empty_stream_yields_nothing() {
    let mut sp = LineSplitter::new();
    let lines = sp.push_chunk(&b""[..]);
    assert!(lines.is_empty());
    assert_eq!(sp.finish(), None);
}

#[test]
fn a_ping_definition_streams_two_lines_in_order() {
    let text = "[[runners]]\nname = \"ping\"\ncommand = [\"echo\", \"line1\\nline2\"]\n";
    let cat = parse_runners(text).unwrap();
    let runner = cat.select_runner("ping").unwrap();
    // What echo would write for that argument: the text and a final newline.
    let mut output: Vec<u8> = runner.arguments()[0].as_bytes().to_vec();
    output.push(b'\n');
    let mut sp = LineSplitter::new();
    let lines = sp.push_chunk(&output);
    assert_eq!(lines, vec![b"line1".to_vec(), b"line2".to_vec()]);
    assert_eq!(sp.finish(), None);
}

#[test]
fn parsing_then_listing_round_trips_the_catalog() {
    let text = "[[runners]]\nname = \"a\"\ncommand = [\"echo\", \"hi\"]\n";
    let cat = parse_runners(text).unwrap();
    assert_eq!(list_runners(&cat), "[{\"name\":\"a\",\"command\":[\"echo\",\"hi\"]}]");
}

#[test]
fn run_errors_keep_their_message() {
    let e = MazeRunnerRunError::new("stream went away".to_string());
    assert_eq!(e.message(), "stream went away");
}
