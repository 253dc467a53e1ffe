use muu::error::RunzError;
use muu::task::{classify_args, expand_command, resolve_args, ArgStyle};

fn idx(pairs: &[(&str, &str)]) -> Vec<(String, String)> {
    pairs.iter().map(|(k, v)| (k.to_string(), v.to_string())).collect()
}

fn strs(s: &[&str]) -> Vec<String> {
    s.iter().map(|x| x.to_string()).collect()
}

fn value_of<'a>(resolved: &'a [(String, String)], key: &str) -> &'a str {
    &resolved.iter().find(|(k, _)| k == key).unwrap().1
}

#[test]
fn positional_all_provided() {
    let defined = idx(&[("dir", "."), ("bucket", "")]);
    let resolved = resolve_args(&defined, &strs(&["./dist", "my-bucket"])).unwrap();
    assert_eq!(value_of(&resolved, "dir"), "./dist");
    assert_eq!(value_of(&resolved, "bucket"), "my-bucket");
}

#[test]
fn positional_with_default() {
    let defined = idx(&[("dir", "."), ("count", "10")]);
    let resolved = resolve_args(&defined, &strs(&["./src"])).unwrap();
    assert_eq!(value_of(&resolved, "dir"), "./src");
    assert_eq!(value_of(&resolved, "count"), "10");
}

#[test]
fn positional_missing_required() {
    let defined = idx(&[("dir", "."), ("bucket", "")]);
    let err = resolve_args(&defined, &strs(&["./dist"])).unwrap_err();
    assert!(matches!(err, RunzError::MissingRequiredArg { name } if name == "bucket"));
}

#[test]
fn positional_surplus_tokens_ignored() {
    let defined = idx(&[("dir", ".")]);
    let resolved = resolve_args(&defined, &strs(&["./dist", "extra", "more"])).unwrap();
    assert_eq!(resolved.len(), 1);
    assert_eq!(value_of(&resolved, "dir"), "./dist");
}

#[test]
fn named_args() {
    let defined = idx(&[("dir", "."), ("bucket", "")]);
    let resolved = resolve_args(&defined, &strs(&["--bucket=my-bucket"])).unwrap();
    assert_eq!(value_of(&resolved, "dir"), ".");
    assert_eq!(value_of(&resolved, "bucket"), "my-bucket");
}

#[test]
fn named_missing_required() {
    let defined = idx(&[("dir", "."), ("bucket", "")]);
    let err = resolve_args(&defined, &strs(&["--dir=./dist"])).unwrap_err();
    assert!(matches!(err, RunzError::MissingRequiredArg { name } if name == "bucket"));
}

#[test]
fn named_unknown_key_rejected() {
    let defined = idx(&[("dir", ".")]);
    let err = resolve_args(&defined, &strs(&["--typo=value"])).unwrap_err();
    assert!(matches!(err, RunzError::UnknownArg { name } if name == "typo"));
}

#[test]
fn named_bare_key_keeps_default() {
    let defined = idx(&[("dir", "."), ("bucket", "b")]);
    let resolved = resolve_args(&defined, &strs(&["--dir"])).unwrap();
    assert_eq!(value_of(&resolved, "dir"), ".");
    assert_eq!(value_of(&resolved, "bucket"), "b");
}

#[test]
fn named_explicit_empty_fails_required_check() {
    let defined = idx(&[("dir", ".")]);
    let err = resolve_args(&defined, &strs(&["--dir="])).unwrap_err();
    assert!(matches!(err, RunzError::MissingRequiredArg { name } if name == "dir"));
}

#[test]
fn named_last_occurrence_wins() {
    let defined = idx(&[("dir", ".")]);
    let resolved = resolve_args(&defined, &strs(&["--dir=a", "--dir=b"])).unwrap();
    assert_eq!(value_of(&resolved, "dir"), "b");
}

#[test]
fn mixed_args_error() {
    let defined = idx(&[("dir", "."), ("bucket", "")]);
    let err = resolve_args(&defined, &strs(&["./dist", "--bucket=my-bucket"])).unwrap_err();
    assert!(matches!(err, RunzError::MixedArgStyles));
}

#[test]
fn no_args_with_defaults() {
    let defined = idx(&[("dir", "."), ("count", "10")]);
    let resolved = resolve_args(&defined, &Vec::new()).unwrap();
    assert_eq!(value_of(&resolved, "dir"), ".");
    assert_eq!(value_of(&resolved, "count"), "10");
}

#[test]
fn no_args_missing_required() {
    let defined = idx(&[("bucket", "")]);
    let err = resolve_args(&defined, &Vec::new()).unwrap_err();
    assert!(matches!(err, RunzError::MissingRequiredArg { name } if name == "bucket"));
}

#[test]
fn no_defined_args_no_raw() {
    let defined: Vec<(String, String)> = Vec::new();
    let resolved = resolve_args(&defined, &Vec::new()).unwrap();
    assert!(resolved.is_empty());
}

#[test]
fn resolution_order_follows_declaration() {
    let defined = idx(&[("env", "dev"), ("region", "us-east-1"), ("count", "1")]);
    let resolved = resolve_args(&defined, &Vec::new()).unwrap();
    let keys: Vec<&str> = resolved.iter().map(|(k, _)| k.as_str()).collect();
    assert_eq!(keys, vec!["env", "region", "count"]);
}

#[test]
fn classify_empty_input() {
    let style = classify_args(&Vec::new()).unwrap();
    assert!(matches!(style, ArgStyle::NoArgs));
}

#[test]
fn classify_named_tokens() {
    let style = classify_args(&strs(&["--a=1", "--b"])).unwrap();
    match style {
        ArgStyle::Named(pairs) => {
            assert_eq!(pairs.len(), 2);
            assert_eq!(pairs[0].0, "a");
            assert_eq!(pairs[0].1.as_deref(), Some("1"));
            assert_eq!(pairs[1].0, "b");
            assert_eq!(pairs[1].1, None);
        }
        _ => panic!("expected named style"),
    }
}

#[test]
fn classify_positional_tokens() {
    let style = classify_args(&strs(&["x", "y"])).unwrap();
    match style {
        ArgStyle::Positional(toks) => assert_eq!(toks, strs(&["x", "y"])),
        _ => panic!("expected positional style"),
    }
}

#[test]
fn classify_mixed_tokens_rejected() {
    let err = classify_args(&strs(&["x", "--y=1"])).unwrap_err();
    assert!(matches!(err, RunzError::MixedArgStyles));
}

#[test]
fn expand_simple() {
    let resolved = idx(&[("dir", "./dist"), ("bucket", "my-bucket")]);
    let cmd = "aws s3 sync $dir s3://$bucket";
    assert_eq!(expand_command(cmd, &resolved), "aws s3 sync ./dist s3://my-bucket");
}

#[test]
fn expand_longest_match_first() {
    let resolved = idx(&[("a", "short"), ("ab", "long")]);
    let cmd = "$ab $a";
    assert_eq!(expand_command(cmd, &resolved), "long short");
}

#[test]
fn expand_unmatched_placeholder_untouched() {
    let resolved = idx(&[("dir", "./dist")]);
    assert_eq!(expand_command("$dir $other", &resolved), "./dist $other");
}

#[test]
fn expand_substituted_value_is_inert() {
    let resolved = idx(&[("a", "$b"), ("b", "B")]);
    assert_eq!(expand_command("$a $b", &resolved), "$b B");
}

#[test]
fn expand_every_occurrence() {
    let resolved = idx(&[("n", "3")]);
    assert_eq!(expand_command("$n + $n = $n$n", &resolved), "3 + 3 = 33");
}
