//! The persisted text is ordinary JSON: what this library saves, a general
//! JSON implementation reads back with the same values, and the canonical
//! text a general JSON implementation writes for the same records is exactly
//! what this library saves.

use serde_json::Value;
use tasklist::TaskList;
use tasklist::load_tasks;
use tasklist::save_tasks;

fn task_value(name: &str, completed: bool) -> Value {
    let mut m = serde_json::Map::new();
    m.insert(String::from("name"), Value::String(String::from(name)));
    m.insert(String::from("completed"), Value::Bool(completed));
    Value::Object(m)
}

#[test]
fn saved_text_is_json() {
    let mut list = TaskList::new();
    list.add_task(String::from("Buy milk"));
    list.add_task(String::from("Walk the dog"));
    let text = save_tasks(&mut list);
    let value: Value = serde_json::from_str(&text).unwrap();
    let items = value.as_array().unwrap();
    assert_eq!(items.len(), 2);
    assert_eq!(items[0]["name"].as_str(), Some("Buy milk"));
    assert_eq!(items[0]["completed"].as_bool(), Some(false));
    assert_eq!(items[1]["name"].as_str(), Some("Walk the dog"));
    assert_eq!(items[1]["completed"].as_bool(), Some(false));
}

#[test]
fn saved_text_matches_canonical_json() {
    let mut list = TaskList::new();
    list.add_task(String::from("A"));
    list.add_task(String::from("B"));
    let text = save_tasks(&mut list);
    let value = Value::Array(vec![task_value("A", false), task_value("B", false)]);
    assert_eq!(text, serde_json::to_string(&value).unwrap());
}

#[test]
fn escaped_name_matches_canonical_json() {
    let name = "say \"hi\" to C:\\tasks";
    let mut list = TaskList::new();
    list.add_task(String::from(name));
    let text = save_tasks(&mut list);
    let value = Value::Array(vec![task_value(name, false)]);
    assert_eq!(text, serde_json::to_string(&value).unwrap());
}

#[test]
fn canonical_json_loads_back() {
    let value = Value::Array(vec![task_value("Buy milk", false)]);
    let text = serde_json::to_string(&value).unwrap();
    let list = load_tasks(Some(text.as_str()));
    assert_eq!(list.len(), 1);
    assert_eq!(list.name_at(0), "Buy milk");
    assert!(!list.is_completed(0));
}
