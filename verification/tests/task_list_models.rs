use std::cmp::Ordering;
use tusks::task_list::models::{Task, TaskCollection};

fn task(path: &[&str], desc: Option<&str>) -> Task {
    Task {
        path: path.iter().map(|s| s.to_string()).collect(),
        description: desc.map(|s| s.to_string()),
        hidden: false,
    }
}

fn hidden_task(path: &[&str]) -> Task {
    Task {
        path: path.iter().map(|s| s.to_string()).collect(),
        description: None,
        hidden: true,
    }
}

#[test]
fn task_ordering_simple() {
    let a = task(&["alpha"], None);
    let b = task(&["beta"], None);
    assert!(a < b);
}

#[test]
fn task_ordering_nested_paths() {
    let a = task(&["git", "clone"], None);
    let b = task(&["git", "push"], None);
    assert!(a < b);
}

#[test]
fn task_ordering_shorter_path_first() {
    let a = task(&["git"], None);
    let b = task(&["git", "clone"], None);
    assert!(a < b);
}

#[test]
fn task_ordering_equal() {
    let a = task(&["same"], None);
    let b = task(&["same"], None);
    assert_eq!(a.cmp(&b), Ordering::Equal);
}

#[test]
fn task_equality_ignores_description() {
    let a = task(&["x"], Some("desc a"));
    let b = task(&["x"], Some("desc b"));
    assert_eq!(a.cmp(&b), Ordering::Equal);
}

#[test]
fn collection_insert_sorted_maintains_order() {
    let mut col = TaskCollection::new();
    col.insert_task_sorted(task(&["c"], None));
    col.insert_task_sorted(task(&["a"], None));
    col.insert_task_sorted(task(&["b"], None));

    let names: Vec<&str> = col.tasks().iter().map(|t| t.path[0].as_str()).collect();
    assert_eq!(names, vec!["a", "b", "c"]);
}

#[test]
fn collection_insert_sorted_with_nested_paths() {
    let mut col = TaskCollection::new();
    col.insert_task_sorted(task(&["git", "push"], None));
    col.insert_task_sorted(task(&["docker", "build"], None));
    col.insert_task_sorted(task(&["git", "clone"], None));

    let paths: Vec<String> = col.tasks().iter().map(|t| t.path.join(".")).collect();
    assert_eq!(paths, vec!["docker.build", "git.clone", "git.push"]);
}

#[test]
fn collection_from_tasks() {
    let tasks = vec![task(&["b"], None), task(&["a"], None)];
    let col = TaskCollection::from_tasks(tasks);
    assert_eq!(col.tasks()[0].path[0], "b");
    assert_eq!(col.tasks()[1].path[0], "a");
}

#[test]
fn collection_len_and_is_empty() {
    let mut col = TaskCollection::new();
    assert!(col.is_empty());
    assert_eq!(col.len(), 0);

    col.insert_task_sorted(task(&["x"], None));
    assert!(!col.is_empty());
    assert_eq!(col.len(), 1);
}

#[test]
fn collection_into_tasks() {
    let mut col = TaskCollection::new();
    col.insert_task_sorted(task(&["a"], None));
    col.insert_task_sorted(task(&["b"], None));

    let tasks = col.into_tasks();
    assert_eq!(tasks.len(), 2);
    assert_eq!(tasks[0].path[0], "a");
}

#[test]
fn visible_tasks_excludes_hidden() {
    let mut col = TaskCollection::new();
    col.insert_task_sorted(task(&["visible"], None));
    col.insert_task_sorted(hidden_task(&["hidden"]));
    col.insert_task_sorted(task(&["also_visible"], None));

    let visible: Vec<&str> = col.get_visible_tasks().iter().map(|t| t.path[0].as_str()).collect();
    assert_eq!(visible, vec!["also_visible", "visible"]);
}

#[test]
fn visible_task_count() {
    let mut col = TaskCollection::new();
    col.insert_task_sorted(task(&["a"], None));
    col.insert_task_sorted(hidden_task(&["b"]));
    col.insert_task_sorted(task(&["c"], None));

    assert_eq!(col.get_number_of_visible_tasks(), 2);
}

#[test]
fn all_hidden_returns_zero_visible() {
    let mut col = TaskCollection::new();
    col.insert_task_sorted(hidden_task(&["a"]));
    col.insert_task_sorted(hidden_task(&["b"]));

    assert_eq!(col.get_number_of_visible_tasks(), 0);
    assert_eq!(col.get_visible_tasks().len(), 0);
}

#[test]
fn task_order_laws_on_examples() {
    let a = task(&["a", "x"], None);
    let b = task(&["a", "y"], Some("d"));
    let c = task(&["b"], None);
    assert_eq!(a.cmp(&b), Ordering::Less);
    assert_eq!(b.cmp(&a), Ordering::Greater);
    assert_eq!(b.cmp(&c), Ordering::Less);
    assert_eq!(a.cmp(&c), Ordering::Less);
    assert_eq!(a.cmp(&a.clone()), Ordering::Equal);
}

#[test]
fn insert_equal_path_goes_before_existing() {
    let mut col = TaskCollection::new();
    col.insert_task_sorted(task(&["x"], Some("first")));
    col.insert_task_sorted(task(&["x"], Some("second")));
    col.insert_task_sorted(task(&["w"], None));
    let descs: Vec<Option<String>> = col.tasks().iter().map(|t| t.description.clone()).collect();
    assert_eq!(descs, vec![None, Some("second".to_string()), Some("first".to_string())]);
}

#[test]
fn default_collection_is_empty() {
    let col = TaskCollection::default();
    assert!(col.is_empty());
}
