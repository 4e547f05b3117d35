use machi::json::{parse_todos, serialize_todos};
use machi::todo::{Todo, Todos};

fn groceries() -> Todos {
    Todos::new(
        String::from("Groceries"),
        vec![
            Todo::new(false, String::from("Milk")),
            Todo::new(true, String::from("Eggs")),
        ],
    )
}

const GROCERIES_DOC: &str =
    "{\"name\":\"Groceries\",\"todo_list\":[{\"done\":false,\"title\":\"Milk\"},{\"done\":true,\"title\":\"Eggs\"}]}";

#[test]
fn serialize_writes_the_documented_shape() {
    let text = serialize_todos(&groceries());
    assert_eq!(text.as_str(), GROCERIES_DOC);
}

#[test]
fn parse_reads_the_documented_shape() {
    let t = parse_todos(GROCERIES_DOC).unwrap();
    assert_eq!(t.name, "Groceries");
    assert_eq!(t.todo_list.len(), 2);
    assert!(!t.todo_list[0].done);
    assert_eq!(t.todo_list[0].title, "Milk");
    assert!(t.todo_list[1].done);
    assert_eq!(t.todo_list[1].title, "Eggs");
}

#[test]
fn round_trip_preserves_everything() {
    let original = groceries();
    let back = parse_todos(serialize_todos(&original).as_str()).unwrap();
    assert_eq!(back.name, original.name);
    assert_eq!(back.todo_list.len(), original.todo_list.len());
    for (a, b) in back.todo_list.iter().zip(original.todo_list.iter()) {
        assert_eq!(a.done, b.done);
        assert_eq!(a.title, b.title);
    }
}

#[test]
fn round_trip_with_escaped_characters() {
    let original = Todos::new(
        String::from("a\"b\\c"),
        vec![Todo::new(true, String::from("say \"hi\" \\ bye"))],
    );
    let text = serialize_todos(&original);
    assert_eq!(
        text.as_str(),
        "{\"name\":\"a\\\"b\\\\c\",\"todo_list\":[{\"done\":true,\"title\":\"say \\\"hi\\\" \\\\ bye\"}]}"
    );
    let back = parse_todos(text.as_str()).unwrap();
    assert_eq!(back.name, "a\"b\\c");
    assert_eq!(back.todo_list[0].title, "say \"hi\" \\ bye");
}

#[test]
fn empty_item_array_round_trips() {
    let original = Todos::new(String::from("nothing"), Vec::new());
    let text = serialize_todos(&original);
    assert_eq!(text.as_str(), "{\"name\":\"nothing\",\"todo_list\":[]}");
    let back = parse_todos(text.as_str()).unwrap();
    assert_eq!(back.name, "nothing");
    assert!(back.todo_list.is_empty());
}

#[test]
fn malformed_documents_are_rejected() {
    assert!(parse_todos("").is_none());
    assert!(parse_todos("{}").is_none());
    assert!(parse_todos("{\"name\":\"a\"}").is_none());
    assert!(parse_todos("{\"name\":\"a\",\"todo_list\":[]").is_none());
    assert!(parse_todos("{\"title\":\"a\",\"todo_list\":[]}").is_none());
    assert!(parse_todos("{\"name\":\"a\",\"todo_list\":[{\"done\":maybe,\"title\":\"x\"}]}").is_none());
    assert!(parse_todos("{\"name\":\"a\\qb\",\"todo_list\":[]}").is_none());
    assert!(parse_todos("{\"name\":\"a\",\"todo_list\":[,]}").is_none());
    assert!(parse_todos("{\"name\":\"a\",\"todo_list\":[{\"done\":true,\"title\":\"x\"},]}").is_none());
    // a lone surrogate is not a character
    assert!(parse_todos("{\"name\":\"a\\ud800b\",\"todo_list\":[]}").is_none());
    // a short or non-hexadecimal code escape
    assert!(parse_todos("{\"name\":\"a\\u12\",\"todo_list\":[]}").is_none());
    assert!(parse_todos("{\"name\":\"a\\u12gh\",\"todo_list\":[]}").is_none());
    // a raw control character inside a string
    assert!(parse_todos("{\"name\":\"a\u{0001}b\",\"todo_list\":[]}").is_none());
    // fixed member order, no unknown members
    assert!(parse_todos("{\"todo_list\":[],\"name\":\"a\"}").is_none());
    assert!(parse_todos("{\"name\":\"a\",\"extra\":0,\"todo_list\":[]}").is_none());
}

#[test]
fn whitespace_between_tokens_is_insignificant() {
    // Leading and trailing whitespace, a trailing newline above all.
    let t = parse_todos("{\"name\":\"a\",\"todo_list\":[]}\n").unwrap();
    assert_eq!(t.name, "a");
    let t = parse_todos(" {\"name\":\"a\",\"todo_list\":[]}").unwrap();
    assert_eq!(t.name, "a");
    let t = parse_todos("{\"name\": \"a\",\"todo_list\": []}").unwrap();
    assert_eq!(t.name, "a");
    let t = parse_todos("{\"name\":\"a\",\"todo_list\":[]} ").unwrap();
    assert_eq!(t.name, "a");
    // A pretty-printed document.
    let text = "{\n  \"name\": \"Groceries\",\n  \"todo_list\": [\n    { \"done\": false, \"title\": \"Milk\" },\n    { \"done\": true, \"title\": \"Eggs\" }\n  ]\n}\n";
    let t = parse_todos(text).unwrap();
    assert_eq!(t.name, "Groceries");
    assert_eq!(t.todo_list.len(), 2);
    assert!(!t.todo_list[0].done);
    assert_eq!(t.todo_list[0].title, "Milk");
    assert!(t.todo_list[1].done);
    assert_eq!(t.todo_list[1].title, "Eggs");
    // But whitespace inside a string is content.
    let t = parse_todos("{\"name\":\"a b\",\"todo_list\":[]}").unwrap();
    assert_eq!(t.name, "a b");
}

#[test]
fn standard_string_escapes_are_read() {
    let t =
        parse_todos("{\"name\":\"a\\nb\\tc\\/d\\u0041e\\bf\\fg\\rh\",\"todo_list\":[]}").unwrap();
    assert_eq!(t.name, "a\nb\tc/dAe\u{0008}f\u{000C}g\rh");
}

#[test]
fn control_characters_are_escaped_and_round_trip() {
    let original = Todos::new(String::from("a\nb\u{001F}c"), Vec::new());
    let text = serialize_todos(&original);
    assert_eq!(text.as_str(), "{\"name\":\"a\\u000ab\\u001fc\",\"todo_list\":[]}");
    let back = parse_todos(text.as_str()).unwrap();
    assert_eq!(back.name, "a\nb\u{001F}c");
}
