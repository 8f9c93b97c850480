use tusks::list::models::{List, ListGroup, ListGroupHeader, ListTask, RenderConfig};

fn plain() -> RenderConfig {
    RenderConfig { use_colors: false, ..RenderConfig::default() }
}

fn task(name: &str, desc: Option<&str>) -> ListTask {
    ListTask { name: name.to_string(), description: desc.map(|d| d.to_string()) }
}

fn group(header: Option<&str>, tasks: Vec<ListTask>) -> ListGroup {
    ListGroup { header: ListGroupHeader { name: header.map(|h| h.to_string()) }, tasks }
}

#[test]
fn default_render_config() {
    let c = RenderConfig::default();
    assert_eq!(c.min_gap, 4);
    assert_eq!(c.task_indent, 4);
    assert_eq!(c.header_indent, 2);
    assert_eq!(c.span_token, '.');
    assert!(c.use_colors);
}

#[test]
fn plain_overview_lines() {
    let list = List {
        description: Some("Tool".to_string()),
        groups: vec![
            group(None, vec![task("a", Some("x")), task("bb", None)]),
            group(Some("git"), vec![task("git.clone", Some("Clone a repo"))]),
        ],
    };
    let config = plain();
    // widest name: "git.clone", 9 columns; column 4 + 9 + 4 = 17
    assert_eq!(list.calculate_align_column(&config), 17);
    let lines = list.render(&config);
    assert_eq!(
        lines,
        vec![
            "Tool",
            "",
            "    a ............ x",
            "    bb",
            "",
            "  git",
            "",
            "    git.clone .... Clone a repo",
        ]
    );
}

#[test]
fn descriptions_start_at_one_column() {
    let list = List {
        description: None,
        groups: vec![group(None, vec![task("x", Some("one")), task("longer.name", Some("two"))])],
    };
    let lines = list.render(&plain());
    let a = lines[0].find("one").unwrap();
    let b = lines[1].find("two").unwrap();
    assert_eq!(a, b);
}

#[test]
fn wide_characters_count_by_display_width() {
    // "日本" takes four columns though it has two characters.
    let list = List { description: None, groups: vec![group(None, vec![task("日本", Some("d")), task("ab", Some("e"))])] };
    let config = plain();
    assert_eq!(list.calculate_align_column(&config), 12);
    let lines = list.render(&config);
    assert_eq!(lines[0], "    日本 .... d");
    assert_eq!(lines[1], "    ab ...... e");
}

#[test]
fn colours_wrap_each_part() {
    let list = List {
        description: Some("Tool".to_string()),
        groups: vec![group(Some("g"), vec![task("a", Some("x")), task("b", None)])],
    };
    let config = RenderConfig::default();
    let lines = list.render(&config);
    assert_eq!(lines[0], "\x1b[1m\x1b[36mTool\x1b[39m\x1b[0m");
    assert_eq!(lines[1], "");
    assert_eq!(lines[2], "  \x1b[1m\x1b[94mg\x1b[39m\x1b[0m");
    assert_eq!(lines[3], "");
    assert_eq!(lines[4], "    \x1b[32ma\x1b[39m \x1b[90m....\x1b[39m \x1b[33mx\x1b[39m");
    assert_eq!(lines[5], "    \x1b[32mb\x1b[39m");
}

#[test]
fn task_line_with_custom_token() {
    let config = RenderConfig { span_token: '-', min_gap: 1, task_indent: 2, header_indent: 0, use_colors: false };
    let t = task("run", Some("go"));
    assert_eq!(t.render_line(&config, 8), "  run --- go");
    // the name already reaches past the column: no filler
    assert_eq!(t.render_line(&config, 3), "  run  go");
}

#[test]
fn header_lines_and_none_header() {
    let config = plain();
    let h = ListGroupHeader { name: Some("db".to_string()) };
    assert_eq!(h.render_lines(&config), vec!["  db".to_string(), String::new()]);
    let none = ListGroupHeader { name: None };
    assert!(none.render_lines(&config).is_empty());
}

#[test]
fn try_render_refuses_overflowing_column() {
    let list = List { description: None, groups: vec![group(None, vec![task("a", Some("x"))])] };
    let config = RenderConfig { min_gap: usize::MAX, ..plain() };
    assert!(list.try_render(&config).is_none());
    assert!(list.try_render(&plain()).is_some());
}

#[test]
fn empty_list_renders_nothing() {
    let list = List { description: None, groups: vec![] };
    assert!(list.render(&plain()).is_empty());
}
