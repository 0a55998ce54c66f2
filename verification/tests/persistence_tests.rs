use tasklist::TaskList;
use tasklist::load_tasks;
use tasklist::save_tasks;

#[test]
fn save_of_empty_list() {
    let mut list = TaskList::new();
    assert_eq!(save_tasks(&mut list), "[]");
}

#[test]
fn exact_persisted_text() {
    let mut list = TaskList::new();
    list.add_task(String::from("A"));
    assert_eq!(save_tasks(&mut list), "[{\"name\":\"A\",\"completed\":false}]");
}

#[test]
fn round_trip_incomplete_tasks() {
    let mut list = TaskList::new();
    list.add_task(String::from("A"));
    list.add_task(String::from("B"));
    let text = save_tasks(&mut list);
    let loaded = load_tasks(Some(text.as_str()));
    assert_eq!(loaded.len(), 2);
    assert_eq!(loaded.name_at(0), "A");
    assert_eq!(loaded.name_at(1), "B");
    assert!(!loaded.is_completed(0));
    assert!(!loaded.is_completed(1));
}

#[test]
fn round_trip_escaped_name() {
    let mut list = TaskList::new();
    list.add_task(String::from("say \"hi\" to C:\\tasks"));
    let text = save_tasks(&mut list);
    let loaded = load_tasks(Some(text.as_str()));
    assert_eq!(loaded.len(), 1);
    assert_eq!(loaded.name_at(0), "say \"hi\" to C:\\tasks");
}

#[test]
fn save_removes_completed_tasks() {
    let mut list = TaskList::new();
    list.add_task(String::from("A"));
    list.add_task(String::from("B"));
    list.set_completed(0, true);
    let text = save_tasks(&mut list);
    assert_eq!(list.len(), 1);
    assert_eq!(list.name_at(0), "B");
    assert_eq!(text, "[{\"name\":\"B\",\"completed\":false}]");
}

#[test]
fn save_twice_same_content() {
    let mut list = TaskList::new();
    list.add_task(String::from("A"));
    list.add_task(String::from("B"));
    list.set_completed(1, true);
    let first = save_tasks(&mut list);
    let second = save_tasks(&mut list);
    assert_eq!(first, second);
}

#[test]
fn load_failure_fallback() {
    assert_eq!(load_tasks(None).len(), 0);
    assert_eq!(load_tasks(Some("")).len(), 0);
    assert_eq!(load_tasks(Some("not a task list")).len(), 0);
    assert_eq!(load_tasks(Some("[{\"name\":\"A\"")).len(), 0);
    assert_eq!(load_tasks(Some("[{\"name\":\"A\",\"completed\":false}")).len(), 0);
}

#[test]
fn buy_milk_scenario() {
    let loaded = load_tasks(Some("[{\"name\":\"Buy milk\",\"completed\":false}]"));
    let mut list = loaded;
    assert_eq!(list.len(), 1);
    assert_eq!(list.name_at(0), "Buy milk");
    assert!(!list.is_completed(0));
    list.set_completed(0, true);
    let text = save_tasks(&mut list);
    assert_eq!(text, "[]");
    assert_eq!(list.len(), 0);
    let reloaded = load_tasks(Some(text.as_str()));
    assert_eq!(reloaded.len(), 0);
}
