use tusks::task_list::init::CommandInfo;
use tusks::task_list::models::{TaskCollection, TaskList};

fn command(name: &str) -> CommandInfo {
    CommandInfo { name: name.to_string(), about: None, long_about: None, hidden: false, subcommands: vec![] }
}

fn about(mut c: CommandInfo, text: &str) -> CommandInfo {
    c.about = Some(text.to_string());
    c
}

fn long_about(mut c: CommandInfo, text: &str) -> CommandInfo {
    c.long_about = Some(text.to_string());
    c
}

fn hidden(mut c: CommandInfo) -> CommandInfo {
    c.hidden = true;
    c
}

fn sub(mut c: CommandInfo, child: CommandInfo) -> CommandInfo {
    c.subcommands.push(child);
    c
}

fn git_and_docker(docker_children: &[&str]) -> CommandInfo {
    let mut git = command("git");
    for n in ["clone", "push", "pull"] {
        git = sub(git, command(n));
    }
    let mut docker = command("docker");
    for n in docker_children {
        docker = sub(docker, command(n));
    }
    sub(sub(command("root"), git), docker)
}

#[test]
fn from_command_single_leaf() {
    let cmd = sub(command("root"), about(command("hello"), "Say hello"));

    let col = TaskCollection::from_command(&cmd, vec![]);
    assert_eq!(col.len(), 1);
    assert_eq!(col.tasks()[0].path, vec!["hello"]);
    assert_eq!(col.tasks()[0].description.as_deref(), Some("Say hello"));
}

#[test]
fn from_command_nested_subcommands() {
    let git = sub(sub(command("git"), command("clone")), command("push"));
    let cmd = sub(sub(command("root"), git), command("build"));

    let col = TaskCollection::from_command(&cmd, vec![]);
    let paths: Vec<String> = col.tasks().iter().map(|t| t.path.join(".")).collect();
    assert_eq!(paths, vec!["build", "git.clone", "git.push"]);
}

#[test]
fn from_command_preserves_hidden_flag() {
    let cmd = sub(sub(command("root"), command("visible")), hidden(command("hidden")));

    let col = TaskCollection::from_command(&cmd, vec![]);
    assert_eq!(col.len(), 2);

    let visible = col.tasks().iter().find(|t| t.path[0] == "visible").unwrap();
    assert!(!visible.hidden);

    let hidden = col.tasks().iter().find(|t| t.path[0] == "hidden").unwrap();
    assert!(hidden.hidden);
}

#[test]
fn from_command_deeply_nested() {
    let cmd = sub(command("root"), sub(command("a"), sub(command("b"), command("c"))));

    let col = TaskCollection::from_command(&cmd, vec![]);
    assert_eq!(col.len(), 1);
    assert_eq!(col.tasks()[0].path, vec!["a", "b", "c"]);
}

#[test]
fn from_command_no_subcommands_yields_single_root_task() {
    let cmd = command("root");
    let col = TaskCollection::from_command(&cmd, vec![]);
    assert_eq!(col.len(), 1);
    assert!(col.tasks()[0].path.is_empty());
}

#[test]
fn grouping_small_set_stays_flat() {
    let cmd = sub(sub(sub(command("root"), command("a")), command("b")), command("c"));

    let task_list = TaskList::from_command(&cmd, ".".into(), 5, 20);
    assert!(task_list.root.subgroups.is_empty());
    assert_eq!(task_list.root.direct_tasks.len(), 3);
}

#[test]
fn grouping_creates_subgroups_when_exceeding_max() {
    let cmd = git_and_docker(&["build", "run", "stop"]);

    let task_list = TaskList::from_command(&cmd, ".".into(), 2, 20);
    assert!(!task_list.root.subgroups.is_empty());
}

#[test]
fn grouping_collapses_single_task_subgroups() {
    let cmd = git_and_docker(&["build"]);

    let task_list = TaskList::from_command(&cmd, ".".into(), 1, 20);
    assert!(!task_list.root.subgroups.contains_key("docker"));
    assert!(task_list.root.subgroups.contains_key("git"));
}

#[test]
fn grouping_max_depth_zero_stays_flat() {
    let cmd = sub(command("root"), sub(sub(command("git"), command("clone")), command("push")));

    let task_list = TaskList::from_command(&cmd, ".".into(), 1, 0);
    assert!(task_list.root.subgroups.is_empty());
    assert_eq!(task_list.root.direct_tasks.len(), 2);
}

#[test]
fn grouping_hidden_tasks_not_counted_for_threshold() {
    let git = sub(sub(command("git"), command("clone")), command("push"));
    let mut cmd = sub(command("root"), git);
    for n in ["hidden1", "hidden2", "hidden3"] {
        cmd = sub(cmd, hidden(command(n)));
    }

    let task_list = TaskList::from_command(&cmd, ".".into(), 3, 20);
    assert!(task_list.root.subgroups.is_empty());
}

#[test]
fn from_command_captures_description() {
    let cmd = sub(about(command("root"), "Short desc"), command("task1"));

    let task_list = TaskList::from_command(&cmd, ".".into(), 5, 20);
    assert_eq!(task_list.description.as_deref(), Some("Short desc"));
}

#[test]
fn from_command_prefers_long_about() {
    let cmd = sub(long_about(about(command("root"), "Short"), "Long description"), command("task1"));

    let task_list = TaskList::from_command(&cmd, ".".into(), 5, 20);
    assert_eq!(task_list.description.as_deref(), Some("Long description"));
}

#[test]
fn from_command_stores_config() {
    let task_list = TaskList::from_command(&sub(command("root"), command("x")), "::".into(), 10, 3);
    assert_eq!(task_list.separator, "::");
    assert_eq!(task_list.max_groupsize, 10);
    assert_eq!(task_list.max_depth, 3);
}

#[test]
fn grouping_keeps_every_task_in_one_group() {
    let cmd = git_and_docker(&["build", "run", "stop"]);
    let task_list = TaskList::from_command(&cmd, ".".into(), 2, 20);
    let mut names: Vec<String> = task_list.root.direct_tasks.tasks().iter().map(|t| t.path.join(".")).collect();
    for (_, g) in task_list.root.subgroups.entries.iter() {
        names.extend(g.direct_tasks.tasks().iter().map(|t| t.path.join(".")));
        assert!(g.subgroups.is_empty());
    }
    names.sort();
    assert_eq!(
        names,
        vec!["docker.build", "docker.run", "docker.stop", "git.clone", "git.pull", "git.push"]
    );
}

#[test]
fn subgroups_come_in_first_occurrence_order() {
    let cmd = git_and_docker(&["build", "run", "stop"]);
    let task_list = TaskList::from_command(&cmd, ".".into(), 2, 20);
    let keys: Vec<&str> = task_list.root.subgroups.entries.iter().map(|(k, _)| k.as_str()).collect();
    assert_eq!(keys, vec!["docker", "git"]);
    assert_eq!(task_list.root.subgroups.len(), 2);
    assert!(task_list.root.subgroups.get("git").is_some());
    assert!(task_list.root.subgroups.get("npm").is_none());
}

#[test]
fn depth_limit_stops_splitting() {
    let cmd = git_and_docker(&["build", "run", "stop"]);
    let task_list = TaskList::from_command(&cmd, ".".into(), 1, 1);
    assert_eq!(task_list.root.subgroups.len(), 2);
    for (_, g) in task_list.root.subgroups.entries.iter() {
        assert!(g.subgroups.is_empty());
        assert_eq!(g.direct_tasks.len(), 3);
    }
}

#[test]
fn try_from_command_refuses_short_paths() {
    // A lone root command is one task with an empty path; splitting it
    // would read a segment it does not have.
    let lone = command("root");
    assert!(TaskList::try_from_command(&lone, ".".into(), 0, 5).is_none());
    assert!(TaskList::try_from_command(&lone, ".".into(), 1, 5).is_some());
    // Two subcommands named `a`, one a leaf and one with children.
    let deep = sub(sub(command("a"), command("x")), command("y"));
    let cmd = sub(sub(command("root"), command("a")), deep);
    assert!(TaskList::try_from_command(&cmd, ".".into(), 1, 5).is_none());
    assert!(TaskList::try_from_command(&cmd, ".".into(), 1, 1).is_some());
}

#[test]
fn groups_list_their_tasks_in_path_order() {
    // subcommands declared out of order
    let mut zeta = command("zeta");
    for n in ["c", "a", "b"] {
        zeta = sub(zeta, command(n));
    }
    let cmd = sub(sub(sub(command("root"), zeta), command("omega")), command("alpha"));
    let task_list = TaskList::from_command(&cmd, ".".into(), 2, 20);
    let direct: Vec<String> = task_list.root.direct_tasks.tasks().iter().map(|t| t.path.join(".")).collect();
    // merged-back single tasks come first, in order
    assert_eq!(direct, vec!["alpha", "omega"]);
    let zeta_group = task_list.root.subgroups.get("zeta").unwrap();
    let names: Vec<String> = zeta_group.direct_tasks.tasks().iter().map(|t| t.path.join(".")).collect();
    assert_eq!(names, vec!["zeta.a", "zeta.b", "zeta.c"]);
}

fn assert_no_trivial_subgroups(g: &tusks::task_list::models::TaskGroup) {
    let mut names: Vec<&str> = Vec::new();
    for (name, sub) in g.subgroups.entries.iter() {
        assert!(!names.contains(&name.as_str()));
        names.push(name.as_str());
        assert!(!sub.subgroups.is_empty() || sub.direct_tasks.get_number_of_visible_tasks() >= 2);
        assert_no_trivial_subgroups(sub);
    }
}

#[test]
fn no_trivial_subgroup_at_any_level() {
    let clean = sub(sub(command("clean"), command("all")), command("cache"));
    let compile = sub(sub(command("compile"), command("debug")), command("release"));
    let build = sub(sub(sub(command("build"), clean), compile), command("watch"));
    let cmd = sub(sub(sub(command("root"), build), command("lint")), hidden(command("secret")));
    for size in 1..4 {
        let task_list = TaskList::from_command(&cmd, ".".into(), size, 20);
        assert_no_trivial_subgroups(&task_list.root);
    }
}

fn check_names(g: &tusks::task_list::models::TaskGroup, depth: usize) {
    let names: Vec<&str> = g.subgroups.entries.iter().map(|(k, _)| k.as_str()).collect();
    for w in names.windows(2) {
        assert!(w[0] < w[1]);
    }
    for (name, sub) in g.subgroups.entries.iter() {
        let mut stack = vec![sub];
        while let Some(x) = stack.pop() {
            for t in x.direct_tasks.tasks() {
                assert_eq!(&t.path[depth], name);
            }
            stack.extend(x.subgroups.entries.iter().map(|(_, s)| s));
        }
        check_names(sub, depth + 1);
    }
}

#[test]
fn subgroups_are_named_by_their_tasks_and_ascend() {
    let mut zeta = command("zeta");
    for n in ["b", "a"] {
        let mut inner = command(n);
        for m in ["z", "y", "x"] {
            inner = sub(inner, command(m));
        }
        zeta = sub(zeta, inner);
    }
    let mut alpha = command("alpha");
    for n in ["two", "one", "three"] {
        alpha = sub(alpha, command(n));
    }
    let cmd = sub(sub(sub(command("root"), zeta), alpha), command("solo"));
    let task_list = TaskList::from_command(&cmd, ".".into(), 2, 5);
    let top: Vec<&str> = task_list.root.subgroups.entries.iter().map(|(k, _)| k.as_str()).collect();
    assert_eq!(top, vec!["alpha", "zeta"]);
    let zeta_group = task_list.root.subgroups.get("zeta").unwrap();
    let inner: Vec<&str> = zeta_group.subgroups.entries.iter().map(|(k, _)| k.as_str()).collect();
    assert_eq!(inner, vec!["a", "b"]);
    check_names(&task_list.root, 0);
}
