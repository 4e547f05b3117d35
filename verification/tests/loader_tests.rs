use machi::loader::load_collection;
use machi::render::{detail_lines, item_line, list_names, pane_title};
use machi::todo::{Todo, Todos};

const GROCERIES_DOC: &str =
    "{\"name\":\"Groceries\",\"todo_list\":[{\"done\":false,\"title\":\"Milk\"},{\"done\":true,\"title\":\"Eggs\"}]}";

#[test]
fn one_file_loads_one_list_and_renders() {
    // One well-formed file: the collection has one entry, the detail pane
    // shows its items with checkbox markers, the list pane its name.
    let files = vec![String::from(GROCERIES_DOC)];
    let collection = load_collection(&files).ok().unwrap();
    assert_eq!(collection.len(), 1);

    let names = list_names(&collection);
    assert_eq!(names.len(), 1);
    assert_eq!(names[0], "Groceries");

    assert_eq!(pane_title(&collection[0]), " Groceries ");

    let lines = detail_lines(&collection[0]);
    assert_eq!(lines.len(), 2);
    assert_eq!(lines[0], "[ ] Milk");
    assert_eq!(lines[1], "[x] Eggs");
}

#[test]
fn loader_preserves_count_and_order() {
    let files = vec![
        String::from("{\"name\":\"one\",\"todo_list\":[]}"),
        String::from("{\"name\":\"two\",\"todo_list\":[{\"done\":true,\"title\":\"t\"}]}"),
        String::from("{\"name\":\"three\",\"todo_list\":[]}"),
    ];
    let collection = load_collection(&files).ok().unwrap();
    assert_eq!(collection.len(), 3);
    assert_eq!(collection[0].name, "one");
    assert_eq!(collection[1].name, "two");
    assert_eq!(collection[1].todo_list[0].title, "t");
    assert_eq!(collection[2].name, "three");
}

#[test]
fn loader_accepts_whitespace_variants() {
    // The same document written compactly, with a trailing newline, and
    // pretty-printed loads the same list three times.
    let files = vec![
        String::from("{\"name\":\"a\",\"todo_list\":[{\"done\":true,\"title\":\"t\"}]}"),
        String::from("{\"name\":\"a\",\"todo_list\":[{\"done\":true,\"title\":\"t\"}]}\n"),
        String::from("{\n  \"name\": \"a\",\n  \"todo_list\": [\n    { \"done\": true, \"title\": \"t\" }\n  ]\n}\n"),
    ];
    let collection = load_collection(&files).ok().unwrap();
    assert_eq!(collection.len(), 3);
    for list in &collection {
        assert_eq!(list.name, "a");
        assert_eq!(list.todo_list.len(), 1);
        assert!(list.todo_list[0].done);
        assert_eq!(list.todo_list[0].title, "t");
    }
}

#[test]
fn loader_reports_the_first_bad_file() {
    let files = vec![
        String::from("{\"name\":\"good\",\"todo_list\":[]}"),
        String::from("not a document"),
        String::from("{\"name\":\"later\",\"todo_list\":[]}"),
    ];
    let err = load_collection(&files).err().unwrap();
    assert_eq!(err.index, 1);

    let files = vec![String::from("broken")];
    let err = load_collection(&files).err().unwrap();
    assert_eq!(err.index, 0);
}

#[test]
fn item_lines_use_checkbox_markers() {
    assert_eq!(item_line(&Todo::new(true, String::from("Eggs"))), "[x] Eggs");
    assert_eq!(item_line(&Todo::new(false, String::from("Milk"))), "[ ] Milk");
}

#[test]
fn empty_collection_loads_and_renders_nothing() {
    let files: Vec<String> = Vec::new();
    let collection = load_collection(&files).ok().unwrap();
    assert!(collection.is_empty());
    assert!(list_names(&collection).is_empty());
}

#[test]
fn detail_lines_keep_item_order() {
    let list = Todos::new(
        String::from("chores"),
        vec![
            Todo::new(false, String::from("sweep")),
            Todo::new(false, String::from("dust")),
            Todo::new(true, String::from("mop")),
        ],
    );
    let lines = detail_lines(&list);
    assert_eq!(lines, vec!["[ ] sweep", "[ ] dust", "[x] mop"]);
}
