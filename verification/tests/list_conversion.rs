use tusks::list::models::{List, RenderConfig};
use tusks::task_list::init::CommandInfo;
use tusks::task_list::models::TaskList;

fn command(name: &str) -> CommandInfo {
    CommandInfo { name: name.to_string(), about: None, long_about: None, hidden: false, subcommands: vec![] }
}

fn about(mut c: CommandInfo, text: &str) -> CommandInfo {
    c.about = Some(text.to_string());
    c
}

fn hidden(mut c: CommandInfo) -> CommandInfo {
    c.hidden = true;
    c
}

fn sub(mut c: CommandInfo, child: CommandInfo) -> CommandInfo {
    c.subcommands.push(child);
    c
}

fn with_children(name: &str, children: &[&str]) -> CommandInfo {
    let mut c = command(name);
    for n in children {
        c = sub(c, command(n));
    }
    c
}

fn task_names(list: &List) -> Vec<&str> {
    list.groups.iter().flat_map(|g| g.tasks.iter()).map(|t| t.name.as_str()).collect()
}

#[test]
fn to_list_preserves_description() {
    let cmd = sub(about(command("root"), "My CLI tool"), command("task1"));

    let list = TaskList::from_command(&cmd, ".".into(), 5, 20).to_list();
    assert_eq!(list.description.as_deref(), Some("My CLI tool"));
}

#[test]
fn to_list_no_description() {
    let cmd = sub(command("root"), command("task1"));

    let list = TaskList::from_command(&cmd, ".".into(), 5, 20).to_list();
    assert!(list.description.is_none());
}

#[test]
fn to_list_flat_tasks_use_separator() {
    let cmd = sub(command("root"), with_children("git", &["clone", "push"]));

    let list = TaskList::from_command(&cmd, "::".into(), 5, 20).to_list();
    let names = task_names(&list);
    assert!(names.contains(&"git::clone"));
    assert!(names.contains(&"git::push"));
}

#[test]
fn to_list_hidden_tasks_excluded() {
    let cmd = sub(sub(command("root"), about(command("visible"), "yes")), hidden(command("hidden")));

    let list = TaskList::from_command(&cmd, ".".into(), 5, 20).to_list();
    let names = task_names(&list);
    assert!(names.contains(&"visible"));
    assert!(!names.contains(&"hidden"));
}

#[test]
fn to_list_grouped_creates_named_groups() {
    let cmd = sub(
        sub(command("root"), with_children("git", &["clone", "push", "pull"])),
        with_children("docker", &["build", "run", "stop"]),
    );

    let list = TaskList::from_command(&cmd, ".".into(), 2, 20).to_list();
    let group_names: Vec<Option<&str>> = list.groups.iter().map(|g| g.header.name.as_deref()).collect();
    assert!(group_names.iter().any(|n| *n == Some("docker")));
    assert!(group_names.iter().any(|n| *n == Some("git")));
}

#[test]
fn to_list_root_group_has_no_name() {
    let cmd = sub(sub(command("root"), command("a")), command("b"));

    let list = TaskList::from_command(&cmd, ".".into(), 5, 20).to_list();
    assert!(list.groups[0].header.name.is_none());
}

#[test]
fn to_list_task_descriptions_preserved() {
    let cmd = sub(sub(command("root"), about(command("greet"), "Say hello")), command("bye"));

    let list = TaskList::from_command(&cmd, ".".into(), 5, 20).to_list();
    let tasks: Vec<_> = list.groups.iter().flat_map(|g| g.tasks.iter()).collect();

    let greet = tasks.iter().find(|t| t.name == "greet").unwrap();
    assert_eq!(greet.description.as_deref(), Some("Say hello"));

    let bye = tasks.iter().find(|t| t.name == "bye").unwrap();
    assert!(bye.description.is_none());
}

#[test]
fn overview_lists_every_visible_task_once() {
    let cmd = sub(
        sub(
            sub(command("root"), with_children("git", &["clone", "push", "pull"])),
            with_children("docker", &["build", "run", "stop"]),
        ),
        hidden(command("secret")),
    );
    let list = TaskList::from_command(&cmd, ".".into(), 2, 20).to_list();
    let mut names = task_names(&list);
    names.sort();
    assert_eq!(names, vec!["docker.build", "docker.run", "docker.stop", "git.clone", "git.pull", "git.push"]);
}

#[test]
fn nested_groups_are_named_by_joined_path() {
    let cmd = sub(
        command("root"),
        sub(
            sub(command("build"), with_children("clean", &["all", "cache"])),
            with_children("compile", &["debug", "release"]),
        ),
    );
    let list = TaskList::from_command(&cmd, "/".into(), 1, 20).to_list();
    let group_names: Vec<Option<&str>> = list.groups.iter().map(|g| g.header.name.as_deref()).collect();
    assert_eq!(group_names, vec![None, Some("build"), Some("build/clean"), Some("build/compile")]);
    assert_eq!(list.groups[2].tasks.iter().map(|t| t.name.as_str()).collect::<Vec<_>>(), vec!["build/clean/all", "build/clean/cache"]);
}

fn git_docker_tasks() -> CommandInfo {
    let git = sub(
        sub(command("git"), about(command("clone"), "Clone a git repository")),
        about(command("commit"), "Commit changes"),
    );
    let docker = sub(
        sub(command("docker"), about(command("build"), "Build Docker image")),
        about(command("run"), "Run Docker container"),
    );
    sub(sub(about(command("tasks"), "A binary for managing tasks with git and docker submodules"), git), docker)
}

fn overview_text(cmd: &CommandInfo) -> String {
    let list = TaskList::from_command(cmd, ".".into(), 5, 20).to_list();
    let config = RenderConfig { use_colors: false, ..RenderConfig::default() };
    list.render(&config).join("\n")
}

#[test]
fn overview_shows_description_tasks_and_descriptions() {
    let out = overview_text(&git_docker_tasks());
    assert!(out.contains("A binary for managing tasks with git and docker submodules"));
    for name in ["docker.build", "docker.run", "git.clone", "git.commit"] {
        assert!(out.contains(name));
    }
    for desc in ["Build Docker image", "Run Docker container", "Clone a git repository", "Commit changes"] {
        assert!(out.contains(desc));
    }
}

#[test]
fn overview_fills_indents_and_sorts() {
    let out = overview_text(&git_docker_tasks());
    assert!(out.contains("docker.build ...."));
    assert!(out.contains("git.clone ......."));
    assert!(out.contains("    docker.build"));
    assert!(out.find("docker.build").unwrap() < out.find("git.clone").unwrap());
    assert!(!out.contains("\x1b["));
}
