use tasklist::reader::{decode_store, parse_tasks};
use tasklist::task::Task;
use tasklist::text::u32_to_string;
use tasklist::writer::serialize_tasks;

fn task(id: u32, title: &str, completed: bool) -> Task {
    Task { id, title: String::from(title), completed }
}

fn same_task(t: &Task, id: u32, title: &str, completed: bool) -> bool {
    t.id == id && t.title == title && t.completed == completed
}

#[test]
fn numerals_are_exact() {
    assert_eq!(u32_to_string(0), "0");
    assert_eq!(u32_to_string(7), "7");
    assert_eq!(u32_to_string(42), "42");
    assert_eq!(u32_to_string(4294967295), "4294967295");
}

#[test]
fn serialization_text_is_exact() {
    let empty: Vec<Task> = Vec::new();
    assert_eq!(serialize_tasks(&empty), "[]");
    let tasks = vec![task(1, "Buy milk", false), task(2, "Pay bills", true)];
    assert_eq!(
        serialize_tasks(&tasks),
        "[{\"id\":1,\"title\":\"Buy milk\",\"completed\":false},{\"id\":2,\"title\":\"Pay bills\",\"completed\":true}]"
    );
}

#[test]
fn round_trip_keeps_every_field() {
    let tasks = vec![
        task(1, "plain", false),
        task(2, "with \"quotes\" and \\slashes\\", true),
        task(3, "line\nbreak\tand tab", false),
        task(4, "control\u{1}char", true),
        task(5, "emoji 📬 title", false),
        task(6, "", true),
    ];
    let text = serialize_tasks(&tasks);
    let back = parse_tasks(&text).expect("written store must parse");
    assert_eq!(back.len(), tasks.len());
    for (a, b) in tasks.iter().zip(back.iter()) {
        assert_eq!(a.id, b.id);
        assert_eq!(a.title, b.title);
        assert_eq!(a.completed, b.completed);
    }
}

#[test]
fn corrupt_text_reads_as_empty_store() {
    assert_eq!(decode_store("").len(), 0);
    assert_eq!(decode_store("not json at all").len(), 0);
    assert_eq!(decode_store("[{\"id\":1").len(), 0);
    assert_eq!(decode_store("[1,2,3]").len(), 0);
    assert_eq!(decode_store("{\"id\":1}").len(), 0);
    assert_eq!(decode_store("[] trailing").len(), 0);
    assert_eq!(decode_store("\u{0}\u{1}\u{2}").len(), 0);
}

#[test]
fn number_too_large_for_id_is_refused() {
    let text = "[{\"id\":4294967296,\"title\":\"x\",\"completed\":false}]";
    assert!(parse_tasks(text).is_none());
    assert_eq!(decode_store(text).len(), 0);
}

#[test]
fn id_at_the_limit_is_read() {
    let text = "[{\"id\":4294967295,\"title\":\"x\",\"completed\":false}]";
    let tasks = parse_tasks(text).expect("must parse");
    assert_eq!(tasks.len(), 1);
    assert!(same_task(&tasks[0], 4294967295, "x", false));
}

#[test]
fn whitespace_between_tokens_is_accepted() {
    let text = "[\n  {\n    \"id\": 1,\n    \"title\": \"Buy milk\",\n    \"completed\": false\n  }\n]\n";
    let tasks = parse_tasks(text).expect("indented store must parse");
    assert_eq!(tasks.len(), 1);
    assert!(same_task(&tasks[0], 1, "Buy milk", false));
}

#[test]
fn unicode_escapes_are_read() {
    let text = "[{\"id\":1,\"title\":\"\\u0041\\u000a\\/\\u000A\",\"completed\":true}]";
    let tasks = parse_tasks(text).expect("must parse");
    assert_eq!(tasks.len(), 1);
    assert!(same_task(&tasks[0], 1, "A\n/\n", true));
}

#[test]
fn unicode_escapes_beyond_the_reader_are_refused() {
    let high = "[{\"id\":1,\"title\":\"\\u0080\",\"completed\":true}]";
    assert!(parse_tasks(high).is_none());
    let surrogate = "[{\"id\":1,\"title\":\"\\ud800\",\"completed\":true}]";
    assert!(parse_tasks(surrogate).is_none());
    let short = "[{\"id\":1,\"title\":\"\\u00\",\"completed\":true}]";
    assert!(parse_tasks(short).is_none());
}

#[test]
fn empty_array_with_space_is_read() {
    let tasks = parse_tasks("[ ]").expect("must parse");
    assert_eq!(tasks.len(), 0);
}

#[test]
fn empty_store_round_trip() {
    let empty: Vec<Task> = Vec::new();
    let text = serialize_tasks(&empty);
    let back = parse_tasks(&text).expect("must parse");
    assert_eq!(back.len(), 0);
}

#[test]
fn written_store_is_json_for_other_readers() {
    let tasks = vec![task(1, "with \"quote\" and \n break", false)];
    let text = serialize_tasks(&tasks);
    let value: serde_json::Value = serde_json::from_str(&text).expect("valid JSON");
    let arr = value.as_array().expect("an array");
    assert_eq!(arr.len(), 1);
    assert_eq!(arr[0]["id"].as_u64(), Some(1));
    assert_eq!(arr[0]["title"].as_str(), Some("with \"quote\" and \n break"));
    assert_eq!(arr[0]["completed"].as_bool(), Some(false));
}

#[test]
fn indented_two_task_store_is_read() {
    let text = "[\n  {\n    \"id\": 1,\n    \"title\": \"Buy milk\",\n    \"completed\": false\n  },\n  {\n    \"id\": 2,\n    \"title\": \"Pay bills\",\n    \"completed\": true\n  }\n]";
    let tasks = parse_tasks(text).expect("indented store must parse");
    assert_eq!(tasks.len(), 2);
    assert!(same_task(&tasks[0], 1, "Buy milk", false));
    assert!(same_task(&tasks[1], 2, "Pay bills", true));
}
