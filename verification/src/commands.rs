//! The operations behind the command-line verbs: scaffolding a fresh
//! configuration document, preparing a task invocation, the shell-integration
//! snippet, and the rules of interactive argument prompting.

use vstd::prelude::*;

use crate::config::{task_index_from, ResolvedTask, ResolvedTaskView};
use crate::error::{ErrorView, RunzError};
use crate::task::{expand_command, expand_spec, resolve_args, resolve_spec};
use crate::text::str_eq;

verus! {

/// The text of a freshly scaffolded configuration document.
pub open spec fn scaffold_view() -> Seq<char> {
    "[tasks.hello]\ncmd = \"echo hello\"\ndescription = \"Say hello\"\n"@
}

/// Scaffold a fresh configuration document: the text to write, or a failure
/// when one is already present. `already_exists` says whether the target
/// file exists; writing the text is the caller's part.
pub fn init(already_exists: bool) -> (r: Result<String, RunzError>)
    ensures
        already_exists ==> (r matches Err(e) && e@ == ErrorView::AlreadyExists),
        !already_exists ==> (r matches Ok(s) && s@ == scaffold_view()),
{
    if already_exists {
        Err(RunzError::AlreadyExists)
    } else {
        Ok(String::from_str("[tasks.hello]\ncmd = \"echo hello\"\ndescription = \"Say hello\"\n"))
    }
}

/// One task invocation: the first task bearing the invoked name, its
/// arguments resolved against the raw tokens, substituted into its command
/// template.
pub open spec fn run_spec(
    name: Seq<char>,
    raw: Seq<Seq<char>>,
    tasks: Seq<ResolvedTaskView>,
) -> Result<Seq<char>, ErrorView> {
    match task_index_from(tasks, name, 0) {
        None => Err(ErrorView::TaskNotFound { name }),
        Some(i) => match resolve_spec(tasks[i].def.args, raw) {
            Err(e) => Err(e),
            Ok(resolved) => Ok(expand_spec(tasks[i].def.cmd, resolved)),
        },
    }
}

/// Prepare one task invocation: look the task up by name, resolve the raw
/// arguments against its declared arguments, and expand its command
/// template. The result is the shell command to execute.
pub fn run(name: &str, raw_args: &Vec<String>, tasks: &Vec<ResolvedTask>) -> (r: Result<
    String,
    RunzError,
>)
    ensures
        match r {
            Ok(cmd) => run_spec(name@, raw_args.deep_view(), tasks.deep_view()) == Ok::<
                Seq<char>,
                ErrorView,
            >(cmd@),
            Err(e) => run_spec(name@, raw_args.deep_view(), tasks.deep_view()) == Err::<
                Seq<char>,
                ErrorView,
            >(e@),
        },
{
    let idx = match crate::config::find_task_index(tasks, name) {
        Some(idx) => idx,
        None => {
            return Err(RunzError::TaskNotFound { name: String::from_str(name) });
        },
    };
    let task = &tasks[idx];
    let resolved = match resolve_args(&task.def.args, raw_args) {
        Ok(v) => v,
        Err(e) => {
            return Err(e);
        },
    };
    Ok(expand_command(task.def.cmd.as_str(), &resolved))
}

/// The zsh integration snippet: a wrapper function that pushes the chosen
/// command onto the editing buffer.
pub open spec fn zsh_snippet() -> Seq<char> {
    "runz() {\n  local result\n  result=$(command runz \"$@\" 2>/dev/tty)\n  if [[ -n \"$result\" ]]; then\n    print -z \"$result\"\n  fi\n}\n"@
}

/// The shell-integration snippet for the given shell. Only zsh is supported;
/// any other name is rejected.
pub fn shell_init_script(shell: &str) -> (r: Result<String, RunzError>)
    ensures
        shell@ == "zsh"@ ==> (r matches Ok(s) && s@ == zsh_snippet()),
        shell@ != "zsh"@ ==> (r matches Err(e) && e@ == (ErrorView::UnsupportedShell {
            name: shell@,
        })),
{
    if str_eq(shell, "zsh") {
        Ok(
            String::from_str(
                "runz() {\n  local result\n  result=$(command runz \"$@\" 2>/dev/tty)\n  if [[ -n \"$result\" ]]; then\n    print -z \"$result\"\n  fi\n}\n",
            ),
        )
    } else {
        Err(RunzError::UnsupportedShell { name: String::from_str(shell) })
    }
}

/// The prompt label of one declared argument: its name, with a non-empty
/// default shown in brackets.
pub fn arg_prompt_message(name: &str, default: &str) -> (r: String)
    ensures
        default@.len() == 0 ==> r@ == name@ + ":"@,
        default@.len() > 0 ==> r@ == name@ + "["@ + default@ + "]:"@,
{
    if default.is_empty() {
        String::from_str(name).concat(":")
    } else {
        String::from_str(name).concat("[").concat(default).concat("]:")
    }
}

/// The value one prompted argument takes: an empty input falls back to a
/// non-empty default, anything else stands as typed.
pub fn apply_prompt_input(input: String, default: &str) -> (r: String)
    ensures
        input@.len() == 0 && default@.len() > 0 ==> r@ == default@,
        !(input@.len() == 0 && default@.len() > 0) ==> r@ == input@,
{
    if input.as_str().is_empty() && !default.is_empty() {
        String::from_str(default)
    } else {
        input
    }
}

} // verus!
