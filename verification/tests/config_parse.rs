use muu::commands::init;
use muu::config::{extract_duplicate_key, parse_config};
use muu::error::RunzError;

#[test]
fn parse_valid_config() {
    let content = r#"
[tasks.hello]
cmd = "echo hello"
description = "Say hello"

[tasks.deploy]
cmd = "aws s3 sync $dir s3://$bucket"
args = { dir = ".", bucket = "" }
"#;
    let cfg = parse_config(content, "muu.toml").unwrap();
    assert_eq!(cfg.tasks.len(), 2);

    let (hello_name, hello) = &cfg.tasks[0];
    assert_eq!(hello_name, "hello");
    assert_eq!(hello.cmd, "echo hello");
    assert_eq!(hello.description.as_deref(), Some("Say hello"));
    assert!(hello.args.is_empty());

    let (deploy_name, deploy) = &cfg.tasks[1];
    assert_eq!(deploy_name, "deploy");
    assert_eq!(deploy.args.len(), 2);
    // Key order is preserved
    let keys: Vec<&str> = deploy.args.iter().map(|(k, _)| k.as_str()).collect();
    assert_eq!(keys, vec!["dir", "bucket"]);
    assert_eq!(deploy.args[0].1, ".");
    assert_eq!(deploy.args[1].1, "");
}

#[test]
fn parse_invalid_toml() {
    let err = parse_config("not valid toml {{{}", "muu.toml").unwrap_err();
    assert!(matches!(err, RunzError::ConfigParse { .. }));
}

#[test]
fn parse_missing_description_is_none() {
    let cfg = parse_config("[tasks.t]\ncmd = \"true\"\n", "muu.toml").unwrap();
    assert_eq!(cfg.tasks[0].1.description, None);
}

#[test]
fn parse_task_without_cmd_rejected() {
    let err = parse_config("[tasks.t]\ndescription = \"no command\"\n", "muu.toml").unwrap_err();
    match err {
        RunzError::ConfigParse { path, reason } => {
            assert_eq!(path, "muu.toml");
            assert!(reason.contains("cmd"));
        }
        other => panic!("expected a parse error, got {:?}", other),
    }
}

#[test]
fn parse_non_string_arg_rejected() {
    let err =
        parse_config("[tasks.t]\ncmd = \"true\"\nargs = { n = 3 }\n", "muu.toml").unwrap_err();
    assert!(matches!(err, RunzError::ConfigParse { .. }));
}

#[test]
fn parse_duplicate_task_rejected() {
    let content = r#"
[tasks.hello]
cmd = "echo one"

[tasks.other]
cmd = "echo fine"

[tasks.hello]
cmd = "echo two"
"#;
    let err = parse_config(content, "muu.toml").unwrap_err();
    match err {
        RunzError::DuplicateTask { name, path } => {
            assert_eq!(name, "hello");
            assert_eq!(path, "muu.toml");
        }
        other => panic!("expected a duplicate-task error, got {:?}", other),
    }
}

#[test]
fn extract_duplicate_key_from_message() {
    assert_eq!(
        extract_duplicate_key("duplicate key `hello` in table `tasks`").as_deref(),
        Some("hello")
    );
    assert_eq!(extract_duplicate_key("something else entirely"), None);
}

#[test]
fn args_order_preserved() {
    let content = r#"
[tasks.deploy]
cmd = "deploy $env $region $count"
args = { env = "", region = "us-east-1", count = "1" }
"#;
    let cfg = parse_config(content, "muu.toml").unwrap();
    let keys: Vec<&str> = cfg.tasks[0].1.args.iter().map(|(k, _)| k.as_str()).collect();
    assert_eq!(keys, vec!["env", "region", "count"]);
}

#[test]
fn init_creates_file() {
    let content = init(false).unwrap();
    assert_eq!(
        content,
        "[tasks.hello]\ncmd = \"echo hello\"\ndescription = \"Say hello\"\n"
    );
}

#[test]
fn init_already_exists() {
    let err = init(true).unwrap_err();
    assert!(matches!(err, RunzError::AlreadyExists));
    assert_eq!(err.message(), "error: runz.toml already exists");
}

#[test]
fn scaffold_round_trip() {
    // Scaffolding a fresh document and loading it right away yields exactly
    // the tasks written into it, in the declared order.
    let content = init(false).unwrap();
    let cfg = parse_config(&content, "runz.toml").unwrap();
    assert_eq!(cfg.tasks.len(), 1);
    let (name, def) = &cfg.tasks[0];
    assert_eq!(name, "hello");
    assert_eq!(def.cmd, "echo hello");
    assert_eq!(def.description.as_deref(), Some("Say hello"));
    assert!(def.args.is_empty());
}

#[test]
fn config_parse_error() {
    let err = parse_config("invalid toml {{{", "runz.toml").unwrap_err();
    assert!(err.message().starts_with("error: failed to parse runz.toml: "));
}
