use muu::commands::run;
use muu::config::{
    config_search_paths, find_local_config, load_tasks, ResolvedTask, SourceDoc, TaskSource,
};
use muu::error::RunzError;

fn doc(path: &str, content: &str) -> SourceDoc {
    SourceDoc { path: path.to_string(), content: content.to_string() }
}

fn strs(s: &[&str]) -> Vec<String> {
    s.iter().map(|x| x.to_string()).collect()
}

#[test]
fn no_config_found() {
    let err = load_tasks(None, None).unwrap_err();
    assert!(matches!(err, RunzError::NoConfigFound));
    assert_eq!(err.message(), "error: no runz.toml or global config found");
}

#[test]
fn merge_local_overrides_global() {
    let global = doc(
        "config.toml",
        "\n[tasks.hello]\ncmd = \"echo global\"\n\n[tasks.global_only]\ncmd = \"echo g\"\n",
    );
    let local = doc("muu.toml", "\n[tasks.hello]\ncmd = \"echo local\"\n");
    let result = load_tasks(Some(&global), Some(&local)).unwrap();
    assert_eq!(result.len(), 2);
    let hello = result.iter().find(|t| t.name == "hello").unwrap();
    assert_eq!(hello.def.cmd, "echo local");
    assert_eq!(hello.source, TaskSource::Local);
}

#[test]
fn merge_keeps_global_order_and_appends_local() {
    let global = doc("g.toml", "[tasks.a]\ncmd = \"1\"\n[tasks.b]\ncmd = \"2\"\n");
    let local = doc("l.toml", "[tasks.b]\ncmd = \"3\"\n[tasks.c]\ncmd = \"4\"\n");
    let result = load_tasks(Some(&global), Some(&local)).unwrap();
    let names: Vec<&str> = result.iter().map(|t| t.name.as_str()).collect();
    // Override replaces in place; a new local task is appended.
    assert_eq!(names, vec!["a", "b", "c"]);
    assert_eq!(result[0].source, TaskSource::Global);
    assert_eq!(result[1].source, TaskSource::Local);
    assert_eq!(result[1].def.cmd, "3");
    assert_eq!(result[2].source, TaskSource::Local);
}

#[test]
fn load_counts_unique_names() {
    // Three unique names over both documents give exactly three tasks.
    let global = doc("g.toml", "[tasks.a]\ncmd = \"1\"\n[tasks.b]\ncmd = \"2\"\n");
    let local = doc("l.toml", "[tasks.b]\ncmd = \"3\"\n[tasks.c]\ncmd = \"4\"\n");
    let result = load_tasks(Some(&global), Some(&local)).unwrap();
    assert_eq!(result.len(), 3);
}

#[test]
fn load_local_only() {
    let local = doc("muu.toml", "[tasks.a]\ncmd = \"1\"\n");
    let result = load_tasks(None, Some(&local)).unwrap();
    assert_eq!(result.len(), 1);
    assert_eq!(result[0].source, TaskSource::Local);
}

#[test]
fn load_duplicate_in_global_names_global_path() {
    let global = doc("g.toml", "[tasks.a]\ncmd = \"1\"\n[tasks.a]\ncmd = \"2\"\n");
    let local = doc("l.toml", "[tasks.b]\ncmd = \"3\"\n");
    let err = load_tasks(Some(&global), Some(&local)).unwrap_err();
    match err {
        RunzError::DuplicateTask { name, path } => {
            assert_eq!(name, "a");
            assert_eq!(path, "g.toml");
        }
        other => panic!("expected a duplicate-task error, got {:?}", other),
    }
}

#[test]
fn config_upward_search() {
    let candidates = config_search_paths("/repo/a/b");
    assert_eq!(
        candidates,
        strs(&["/repo/a/b/muu.toml", "/repo/a/muu.toml", "/repo/muu.toml", "/muu.toml"])
    );
    // The configuration two levels up is the nearest one present.
    let present = vec![false, false, true, true];
    let found = find_local_config(&candidates, &present).unwrap();
    assert_eq!(found, "/repo/muu.toml");
}

#[test]
fn config_search_paths_relative() {
    assert_eq!(config_search_paths("a/b"), strs(&["a/b/muu.toml", "a/muu.toml", "muu.toml"]));
    assert_eq!(config_search_paths("/"), strs(&["/muu.toml"]));
    assert_eq!(config_search_paths(""), strs(&["muu.toml"]));
}

#[test]
fn find_local_config_not_found() {
    let candidates = config_search_paths("/tmp/nowhere");
    let present = vec![false; candidates.len()];
    assert!(find_local_config(&candidates, &present).is_none());
}

fn greet_tasks() -> Vec<ResolvedTask> {
    let local = doc(
        "muu.toml",
        "[tasks.greet]\ncmd = \"echo $name $greeting\"\nargs = { name = \"\", greeting = \"hello\" }\n",
    );
    load_tasks(None, Some(&local)).unwrap()
}

#[test]
fn run_simple_task() {
    let local = doc("muu.toml", "\n[tasks.hello]\ncmd = \"echo hello\"\n");
    let tasks = load_tasks(None, Some(&local)).unwrap();
    let cmd = run("hello", &Vec::new(), &tasks).unwrap();
    assert_eq!(cmd, "echo hello");
}

#[test]
fn run_with_positional_args() {
    let tasks = greet_tasks();
    let cmd = run("greet", &strs(&["Alice"]), &tasks).unwrap();
    assert_eq!(cmd, "echo Alice hello");
}

#[test]
fn run_with_named_args() {
    let tasks = greet_tasks();
    let cmd = run("greet", &strs(&["--name=Bob", "--greeting=hi"]), &tasks).unwrap();
    assert_eq!(cmd, "echo Bob hi");
}

#[test]
fn run_missing_required_arg() {
    let local = doc("muu.toml", "\n[tasks.greet]\ncmd = \"echo $name\"\nargs = { name = \"\" }\n");
    let tasks = load_tasks(None, Some(&local)).unwrap();
    let err = run("greet", &Vec::new(), &tasks).unwrap_err();
    assert_eq!(err.message(), "error: missing required argument 'name'");
}

#[test]
fn run_unknown_named_arg() {
    let local = doc("muu.toml", "\n[tasks.greet]\ncmd = \"echo $name\"\nargs = { name = \"\" }\n");
    let tasks = load_tasks(None, Some(&local)).unwrap();
    let err = run("greet", &strs(&["--typo=value"]), &tasks).unwrap_err();
    assert_eq!(err.message(), "error: unknown argument 'typo'");
}

#[test]
fn config_not_found() {
    let err = load_tasks(None, None).unwrap_err();
    assert!(err.message().contains("no runz.toml or global config found"));
}

#[test]
fn list_no_config() {
    // Listing without any configuration document surfaces the same error.
    let err = load_tasks(None, None).unwrap_err();
    assert!(err.message().contains("no runz.toml or global config found"));
}

#[test]
fn cli_config_mixed_args_error() {
    let local = doc(
        "runz.toml",
        "\n[tasks.deploy]\ncmd = \"echo $dir $bucket\"\nargs = { dir = \".\", bucket = \"\" }\n",
    );
    let tasks = load_tasks(None, Some(&local)).unwrap();
    let err = run("deploy", &strs(&["./dist", "--bucket=my-bucket"]), &tasks).unwrap_err();
    assert!(err.message().contains("cannot mix positional and named arguments"));
}

#[test]
fn run_multiline_command() {
    let local = doc(
        "muu.toml",
        "[tasks.multi]\ncmd = \"\"\"\necho line1\necho line2\n\"\"\"\n",
    );
    let tasks = load_tasks(None, Some(&local)).unwrap();
    let cmd = run("multi", &Vec::new(), &tasks).unwrap();
    assert!(cmd.contains("echo line1"));
    assert!(cmd.contains("echo line2"));
}

#[test]
fn run_task_not_found() {
    let local = doc("muu.toml", "[tasks]\n");
    let tasks = load_tasks(None, Some(&local)).unwrap();
    assert!(tasks.is_empty());
    let err = run("nonexistent", &Vec::new(), &tasks).unwrap_err();
    assert_eq!(err.message(), "error: task 'nonexistent' not found");
}
