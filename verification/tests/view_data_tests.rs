use indexmap::IndexMap;
use std::collections::{HashMap, HashSet};
use taskwarrior_views::filters::{expand_filters, project_key_list};
use taskwarrior_views::string_map::StringMap;
use taskwarrior_views::task::{find_active_task, Task};
use taskwarrior_views::view_data::get_tasks_view_data;

fn strings(v: &[&str]) -> Vec<String> {
    v.iter().map(|s| s.to_string()).collect()
}

fn task(id: u64, uuid: &str, tags: Option<&[&str]>, project: Option<&str>, start: Option<&str>) -> Task {
    Task {
        id,
        uuid: uuid.to_string(),
        description: format!("task {}", id),
        tags: tags.map(strings),
        project: project.map(|p| p.to_string()),
        start: start.map(|s| s.to_string()),
    }
}

fn sample_tasks() -> IndexMap<String, Task> {
    let mut m = IndexMap::new();
    m.insert("u1".to_string(), task(1, "u1", Some(&["work", "PENDING"]), Some("home.garden"), None));
    m.insert("u2".to_string(), task(2, "u2", Some(&["work"]), Some("home.garden"), Some("20240101T000000Z")));
    m.insert("u3".to_string(), task(3, "u3", None, None, Some("20240102T000000Z")));
    m
}

fn to_hash_map(m: StringMap) -> HashMap<String, String> {
    m.into_pairs().into_iter().collect()
}

fn keys(m: &HashMap<String, String>) -> HashSet<String> {
    m.keys().cloned().collect()
}

fn set(v: &[&str]) -> HashSet<String> {
    v.iter().map(|s| s.to_string()).collect()
}

#[test]
fn view_data_shows_tags_and_hands_out_unique_shortcuts() {
    let filters = strings(&["+work", "project:home", "PENDING", "status:pending", "+new"]);
    let keywords = strings(&["PENDING"]);
    let tag_filters = strings(&["+work", "+new"]);
    let d = get_tasks_view_data(sample_tasks(), &filters, &keywords, &tag_filters).expect("shortcuts");

    let shown: Vec<Option<Vec<String>>> = d.task_list.iter().map(|t| t.tags.clone()).collect();
    assert_eq!(shown, vec![Some(strings(&["+work", "PENDING"])), Some(strings(&["+work"])), None]);
    let uuids: Vec<&String> = d.tasks.keys().collect();
    assert_eq!(uuids, vec!["u1", "u2", "u3"]);
    assert_eq!(d.tasks["u1"].tags, Some(strings(&["+work", "PENDING"])));
    assert_eq!(d.tasks["u2"].project, Some("home.garden".to_string()));

    assert_eq!(d.shortcuts.len(), 6 + 5 + 2 + 2);
    let tag_map = to_hash_map(d.tag_map);
    let task_map = to_hash_map(d.task_shortcut_map);
    assert_eq!(
        keys(&tag_map),
        set(&["+work", "PENDING", "project:home", "project:home.garden", "@status:pending", "@+new"])
    );
    assert_eq!(keys(&task_map), set(&["1", "u1", "2", "u2", "3", "u3"]));

    let mut seen = HashSet::new();
    for v in tag_map.values().chain(task_map.values()) {
        assert!(seen.insert(v.clone()), "shortcut {:?} given twice", v);
        assert!(d.shortcuts.contains(v));
        assert!((2..=3).contains(&v.len()));
    }
}

#[test]
fn view_data_skips_project_already_a_key_and_repeats_dotted_filters() {
    let mut m = IndexMap::new();
    m.insert("a".to_string(), task(7, "a", Some(&["home"]), Some("+home"), None));
    let filters = strings(&["a.b.c"]);
    let d = get_tasks_view_data(m, &filters, &strings(&[]), &strings(&[])).expect("shortcuts");
    // the tag "+home" is a key before the project "+home" is looked at: no project keys
    // the filter "a.b.c" takes one shortcut per part, all under "@a.b.c"
    assert_eq!(d.shortcuts.len(), 1 + 2 + 3);
    let tag_map = to_hash_map(d.tag_map);
    assert_eq!(keys(&tag_map), set(&["+home", "@a.b.c"]));
}

#[test]
fn view_data_of_no_tasks() {
    let d = get_tasks_view_data(IndexMap::new(), &strings(&[]), &strings(&[]), &strings(&[])).expect("shortcuts");
    assert_eq!(d.shortcuts.len(), 0);
    assert!(d.task_list.is_empty());
    assert!(to_hash_map(d.tag_map).is_empty());
}

#[test]
fn finds_first_running_task() {
    let m = sample_tasks();
    let (k, t) = find_active_task(&m).expect("a running task");
    assert_eq!(k, "u2");
    assert_eq!(t.id, 2);
    let mut idle = IndexMap::new();
    idle.insert("x".to_string(), task(1, "x", None, None, None));
    assert!(find_active_task(&idle).is_none());
}

#[test]
fn project_keys_list_each_level() {
    assert_eq!(project_key_list("home.garden.beds"), strings(&["project:home", "project:home.garden", "project:home.garden.beds"]));
    assert_eq!(project_key_list("solo"), strings(&["project:solo"]));
    assert_eq!(project_key_list(""), strings(&["project:"]));
}

#[test]
fn expand_filters_replaces_project_filters() {
    let current = strings(&["+work", "project:home.garden", "status:pending", "project:a:b", "project:"]);
    assert_eq!(
        expand_filters(&current),
        strings(&["+work", "project:home", "project:home.garden", "status:pending", "project:a", "project:"])
    );
    assert!(expand_filters(&strings(&[])).is_empty());
}

#[test]
fn string_map_replaces_values() {
    let mut m = StringMap::new();
    m.insert("k".to_string(), "1".to_string());
    m.insert("j".to_string(), "2".to_string());
    m.insert("k".to_string(), "3".to_string());
    assert_eq!(m.get("k"), Some(&"3".to_string()));
    assert_eq!(m.get("j"), Some(&"2".to_string()));
    assert!(m.get("z").is_none());
    assert!(m.contains_key("j"));
    assert_eq!(m.into_pairs().len(), 2);
}

#[test]
fn deepest_project_key_is_the_whole_project() {
    for p in ["home.garden.beds", "solo", "", "a..b"] {
        let keys = project_key_list(p);
        assert_eq!(keys.len(), p.matches('.').count() + 1);
        assert_eq!(keys.last().unwrap(), &format!("project:{}", p));
    }
}

#[test]
fn view_needing_two_shortcuts_always_succeeds() {
    let mut m = IndexMap::new();
    m.insert("only".to_string(), task(4, "only", None, None, None));
    let d = get_tasks_view_data(m, &strings(&[]), &strings(&[]), &strings(&[])).expect("shortcuts");
    assert_eq!(d.shortcuts.len(), 2);
    assert_eq!(keys(&to_hash_map(d.task_shortcut_map)), set(&["4", "only"]));
}
