use tasklist::Task;
use tasklist::TaskList;

#[test]
fn new_task_is_incomplete() {
    let t = Task::new(String::from("Buy milk"));
    assert_eq!(t.name, "Buy milk");
    assert!(!t.completed);
}

#[test]
fn new_list_is_empty() {
    let list = TaskList::new();
    assert_eq!(list.len(), 0);
}

#[test]
fn append_order_preserved() {
    let mut list = TaskList::new();
    assert!(list.add_task(String::from("A")));
    assert!(list.add_task(String::from("B")));
    assert_eq!(list.len(), 2);
    assert_eq!(list.name_at(0), "A");
    assert_eq!(list.name_at(1), "B");
    assert!(!list.is_completed(0));
    assert!(!list.is_completed(1));
}

#[test]
fn empty_name_rejected() {
    let mut list = TaskList::new();
    assert!(!list.add_task(String::new()));
    assert_eq!(list.len(), 0);
    assert!(list.add_task(String::from("A")));
    assert!(!list.add_task(String::new()));
    assert_eq!(list.len(), 1);
    assert_eq!(list.name_at(0), "A");
}

#[test]
fn whitespace_name_accepted() {
    let mut list = TaskList::new();
    assert!(list.add_task(String::from("   ")));
    assert_eq!(list.len(), 1);
    assert_eq!(list.name_at(0), "   ");
}

#[test]
fn set_completed_touches_one_task() {
    let mut list = TaskList::new();
    list.add_task(String::from("A"));
    list.add_task(String::from("B"));
    list.set_completed(1, true);
    assert!(!list.is_completed(0));
    assert!(list.is_completed(1));
    list.set_completed(1, false);
    assert!(!list.is_completed(1));
}

#[test]
fn remove_completed_keeps_order() {
    let mut list = TaskList::new();
    list.add_task(String::from("A"));
    list.add_task(String::from("B"));
    list.add_task(String::from("C"));
    list.set_completed(1, true);
    list.remove_completed();
    assert_eq!(list.len(), 2);
    assert_eq!(list.name_at(0), "A");
    assert_eq!(list.name_at(1), "C");
}
