use muu::commands::{apply_prompt_input, arg_prompt_message, shell_init_script};
use muu::config::TaskSource;
use muu::error::RunzError;
use muu::runner::{exit_code, fail_fast_script};

#[test]
fn shell_init_zsh_outputs_runz_function() {
    let script = shell_init_script("zsh").unwrap();
    assert!(script.contains("runz()"));
    assert!(script.contains("command runz"));
    assert!(script.contains("print -z"));
    assert!(script.contains("2>/dev/tty"));
}

#[test]
fn shell_init_unsupported_shell() {
    let err = shell_init_script("fish").unwrap_err();
    assert_eq!(err.message(), "error: unsupported shell 'fish'");
}

#[test]
fn fail_fast_preamble_prepended() {
    assert_eq!(fail_fast_script("true"), "set -e\ntrue");
    assert_eq!(
        fail_fast_script("echo before\nfalse\necho after"),
        "set -e\necho before\nfalse\necho after"
    );
}

#[test]
fn exit_code_mapping() {
    assert_eq!(exit_code(Some(0)), 0);
    assert_eq!(exit_code(Some(7)), 7);
    assert_eq!(exit_code(None), 1);
}

#[test]
fn source_labels() {
    assert_eq!(TaskSource::Local.label(), "local");
    assert_eq!(TaskSource::Global.label(), "global");
}

#[test]
fn prompt_message_shows_default() {
    assert_eq!(arg_prompt_message("name", ""), "name:");
    assert_eq!(arg_prompt_message("dir", "."), "dir[.]:");
}

#[test]
fn prompt_input_falls_back_to_default() {
    assert_eq!(apply_prompt_input(String::new(), "."), ".");
    assert_eq!(apply_prompt_input("./dist".to_string(), "."), "./dist");
    assert_eq!(apply_prompt_input(String::new(), ""), "");
}

#[test]
fn error_messages() {
    assert_eq!(
        RunzError::MissingRequiredArg { name: "bucket".to_string() }.message(),
        "error: missing required argument 'bucket'"
    );
    assert_eq!(
        RunzError::TaskNotFound { name: "build".to_string() }.message(),
        "error: task 'build' not found"
    );
    assert_eq!(RunzError::NoConfigFound.message(), "error: no runz.toml or global config found");
    assert_eq!(
        RunzError::DuplicateTask { name: "a".to_string(), path: "muu.toml".to_string() }.message(),
        "error: duplicate task 'a' in muu.toml"
    );
    assert_eq!(RunzError::AlreadyExists.message(), "error: runz.toml already exists");
    assert_eq!(
        RunzError::UnknownArg { name: "typo".to_string() }.message(),
        "error: unknown argument 'typo'"
    );
    assert_eq!(
        RunzError::MixedArgStyles.message(),
        "error: cannot mix positional and named arguments"
    );
    assert_eq!(
        RunzError::ConfigParse { path: "muu.toml".to_string(), reason: "bad".to_string() }
            .message(),
        "error: failed to parse muu.toml: bad"
    );
    assert_eq!(RunzError::NoTasksDefined.message(), "error: no tasks defined");
    assert_eq!(
        RunzError::UnsupportedShell { name: "fish".to_string() }.message(),
        "error: unsupported shell 'fish'"
    );
    assert_eq!(RunzError::Io("boom".to_string()).message(), "boom");
}
