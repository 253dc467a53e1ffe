//! Configuration documents: task definitions, parsing and validation,
//! document discovery, and the merge of the global and local task sets.

use vstd::prelude::*;

use crate::error::{ErrorView, RunzError};
use crate::text::{
    first_at, first_match, last_at, lemma_first_at_found, lemma_first_at_none,
    lemma_first_match_found, lemma_first_match_none, lemma_last_at_found, lemma_last_at_none,
    str_eq,
};
use crate::toml_doc::{parse_toml, toml_document, toml_error, TomlValue};

verus! {

// ---------- Data model ----------

/// Whether a resolved task came from the project-local or the user-global
/// configuration document. Local wins on a name collision.
#[derive(Clone, Copy, Debug, PartialEq, Eq, Structural)]
pub enum TaskSource {
    Local,
    Global,
}

impl TaskSource {
    /// The display label of this source.
    pub fn label(&self) -> (r: &'static str)
        ensures
            *self is Local ==> r@ == "local"@,
            *self is Global ==> r@ == "global"@,
    {
        match self {
            TaskSource::Local => "local",
            TaskSource::Global => "global",
        }
    }
}

/// One task as declared in a configuration document: a shell command
/// template, an optional description, and the declared arguments in
/// declaration order, each with its default value (empty means required).
#[derive(Debug)]
pub struct TaskDef {
    pub cmd: String,
    pub description: Option<String>,
    pub args: Vec<(String, String)>,
}

/// The declared arguments, cloned pair by pair.
fn clone_args(args: &Vec<(String, String)>) -> (r: Vec<(String, String)>)
    ensures
        r.deep_view() == args.deep_view(),
{
    let mut out: Vec<(String, String)> = Vec::new();
    let mut i: usize = 0;
    while i < args.len()
        invariant
            i <= args.len(),
            args.deep_view().len() == args.len(),
            out.deep_view() =~= args.deep_view().take(i as int),
        decreases args.len() - i,
    {
        let p = &args[i];
        let ghost out_old = out.deep_view();
        out.push((p.0.clone(), p.1.clone()));
        proof {
            assert(out.deep_view() =~= out_old.push(args.deep_view()[i as int]));
            assert(args.deep_view().take(i + 1) =~= args.deep_view().take(i as int).push(
                args.deep_view()[i as int],
            ));
        }
        i = i + 1;
    }
    proof {
        assert(out.deep_view() =~= args.deep_view());
    }
    out
}

impl Clone for TaskDef {
    fn clone(&self) -> (r: Self)
        ensures
            r@ == self@,
    {
        let description = match &self.description {
            Some(d) => Some(d.clone()),
            None => None,
        };
        TaskDef { cmd: self.cmd.clone(), description, args: clone_args(&self.args) }
    }
}

/// The mathematical shape of a [`TaskDef`].
pub struct TaskDefView {
    pub cmd: Seq<char>,
    pub description: Option<Seq<char>>,
    pub args: Seq<(Seq<char>, Seq<char>)>,
}

impl View for TaskDef {
    type V = TaskDefView;

    open spec fn view(&self) -> TaskDefView {
        TaskDefView {
            cmd: self.cmd@,
            description: self.description.deep_view(),
            args: self.args.deep_view(),
        }
    }
}

impl DeepView for TaskDef {
    type V = TaskDefView;

    open spec fn deep_view(&self) -> TaskDefView {
        self.view()
    }
}

/// A task bound to its name and its origin; the unit the rest of the system
/// operates on.
#[derive(Debug)]
pub struct ResolvedTask {
    pub name: String,
    pub def: TaskDef,
    pub source: TaskSource,
}

impl Clone for ResolvedTask {
    fn clone(&self) -> (r: Self)
        ensures
            r@ == self@,
    {
        ResolvedTask { name: self.name.clone(), def: self.def.clone(), source: self.source }
    }
}

/// The mathematical shape of a [`ResolvedTask`].
pub struct ResolvedTaskView {
    pub name: Seq<char>,
    pub def: TaskDefView,
    pub source: TaskSource,
}

impl View for ResolvedTask {
    type V = ResolvedTaskView;

    open spec fn view(&self) -> ResolvedTaskView {
        ResolvedTaskView { name: self.name@, def: self.def@, source: self.source }
    }
}

impl DeepView for ResolvedTask {
    type V = ResolvedTaskView;

    open spec fn deep_view(&self) -> ResolvedTaskView {
        self.view()
    }
}

/// A parsed configuration document: its tasks, in document order.
#[derive(Debug)]
pub struct ConfigFile {
    pub tasks: Vec<(String, TaskDef)>,
}

impl View for ConfigFile {
    type V = Seq<(Seq<char>, TaskDefView)>;

    open spec fn view(&self) -> Seq<(Seq<char>, TaskDefView)> {
        self.tasks.deep_view()
    }
}

// ---------- Document validation ----------

/// The value of the first entry named `key`, from position `i` on.
pub open spec fn lookup_from(entries: Seq<(String, TomlValue)>, key: Seq<char>, i: int) -> Option<
    TomlValue,
>
    decreases entries.len() - i,
{
    if i < 0 || i >= entries.len() {
        None
    } else if entries[i].0@ == key {
        Some(entries[i].1)
    } else {
        lookup_from(entries, key, i + 1)
    }
}

/// The declared arguments of one task, from position `i` of its `args` table
/// on: every value must be a string.
pub open spec fn arg_entries_from(entries: Seq<(String, TomlValue)>, i: int) -> Option<
    Seq<(Seq<char>, Seq<char>)>,
>
    decreases entries.len() - i,
{
    if i < 0 || i >= entries.len() {
        Some(Seq::empty())
    } else {
        match entries[i].1 {
            TomlValue::Str(s) => match arg_entries_from(entries, i + 1) {
                Some(rest) => Some(seq![(entries[i].0@, s@)] + rest),
                None => None,
            },
            _ => None,
        }
    }
}

/// The reason a task without a string `cmd` field is rejected.
pub open spec fn cmd_reason(name: Seq<char>) -> Seq<char> {
    "task `"@ + name + "` has no `cmd` string"@
}

/// The reason a task whose `description` is not a string is rejected.
pub open spec fn description_reason(name: Seq<char>) -> Seq<char> {
    "`description` of task `"@ + name + "` is not a string"@
}

/// The reason a task whose `args` is not a table of strings is rejected.
pub open spec fn args_reason(name: Seq<char>) -> Seq<char> {
    "`args` of task `"@ + name + "` is not a table of strings"@
}

/// The reason a task that is not a table is rejected.
pub open spec fn task_reason(name: Seq<char>) -> Seq<char> {
    "task `"@ + name + "` is not a table"@
}

/// The `args` part of one task's validation.
pub open spec fn task_args_part(
    name: Seq<char>,
    fields: Seq<(String, TomlValue)>,
    cmd: Seq<char>,
    description: Option<Seq<char>>,
) -> Result<TaskDefView, Seq<char>> {
    match lookup_from(fields, "args"@, 0) {
        Some(TomlValue::Table(af)) => match arg_entries_from(af@, 0) {
            Some(args) => Ok(TaskDefView { cmd, description, args }),
            None => Err(args_reason(name)),
        },
        None => Ok(TaskDefView { cmd, description, args: Seq::empty() }),
        Some(_) => Err(args_reason(name)),
    }
}

/// Validation of one task entry: it must be a table holding a string `cmd`,
/// an optional string `description`, and an optional table of string `args`.
pub open spec fn task_of(name: Seq<char>, v: TomlValue) -> Result<TaskDefView, Seq<char>> {
    match v {
        TomlValue::Table(fields) => match lookup_from(fields@, "cmd"@, 0) {
            Some(TomlValue::Str(cmd)) => match lookup_from(fields@, "description"@, 0) {
                Some(TomlValue::Str(d)) => task_args_part(name, fields@, cmd@, Some(d@)),
                None => task_args_part(name, fields@, cmd@, None),
                Some(_) => Err(description_reason(name)),
            },
            _ => Err(cmd_reason(name)),
        },
        _ => Err(task_reason(name)),
    }
}

/// Validation of the `tasks` table, from position `i` on: the first invalid
/// task rejects the document.
pub open spec fn task_entries_from(entries: Seq<(String, TomlValue)>, i: int) -> Result<
    Seq<(Seq<char>, TaskDefView)>,
    Seq<char>,
>
    decreases entries.len() - i,
{
    if i < 0 || i >= entries.len() {
        Ok(Seq::empty())
    } else {
        match task_of(entries[i].0@, entries[i].1) {
            Ok(td) => match task_entries_from(entries, i + 1) {
                Ok(rest) => Ok(seq![(entries[i].0@, td)] + rest),
                Err(e) => Err(e),
            },
            Err(e) => Err(e),
        }
    }
}

/// Validation of a whole parsed document: the root must be a table, whose
/// optional `tasks` entry must be a table of valid tasks. A missing `tasks`
/// table means no tasks; other top-level entries are ignored.
pub open spec fn tasks_of_doc(doc: TomlValue) -> Result<Seq<(Seq<char>, TaskDefView)>, Seq<char>> {
    match doc {
        TomlValue::Table(top) => match lookup_from(top@, "tasks"@, 0) {
            Some(TomlValue::Table(ts)) => task_entries_from(ts@, 0),
            None => Ok(Seq::empty()),
            Some(_) => Err("`tasks` is not a table"@),
        },
        _ => Err("document root is not a table"@),
    }
}

// ---------- Parsing ----------

/// The task name in a parser message that reports a repeated key: what
/// stands between the backtick that follows "duplicate key" and the next
/// backtick.
pub open spec fn duplicate_key_of(msg: Seq<char>) -> Option<Seq<char>> {
    match first_match(msg, "duplicate key `"@, 0) {
        Some(i) => {
            let start = i + "duplicate key `"@.len();
            match first_at(msg, '`', start) {
                Some(j) => Some(msg.subrange(start, j)),
                None => None,
            }
        },
        None => None,
    }
}

/// What parsing a document at `path` yields: the validated tasks, or a
/// duplicate-task error when the parser reports a repeated key, or a parse
/// error carrying the path and the reason.
pub open spec fn parse_config_spec(content: Seq<char>, path: Seq<char>) -> Result<
    Seq<(Seq<char>, TaskDefView)>,
    ErrorView,
> {
    match toml_document(content) {
        None => match duplicate_key_of(toml_error(content)) {
            Some(k) => Err(ErrorView::DuplicateTask { name: k, path }),
            None => Err(ErrorView::ConfigParse { path, reason: toml_error(content) }),
        },
        Some(doc) => match tasks_of_doc(doc) {
            Ok(ts) => Ok(ts),
            Err(reason) => Err(ErrorView::ConfigParse { path, reason }),
        },
    }
}

/// The repeated key named in a parser message, if the message reports one.
pub fn extract_duplicate_key(msg: &str) -> (r: Option<String>)
    ensures
        match r {
            Some(k) => duplicate_key_of(msg@) == Some(k@),
            None => duplicate_key_of(msg@) is None,
        },
{
    let marker = "duplicate key `";
    let msg_len = msg.unicode_len();
    match crate::text::find_sub(msg, marker) {
        Some(i) => {
            proof {
                lemma_first_match_found(msg@, marker@, 0, i as int);
                assert(i + marker@.len() <= msg_len);
            }
            let start = i + marker.unicode_len();
            match crate::text::find_char_from(msg, '`', start) {
                Some(j) => {
                    proof {
                        lemma_first_at_found(msg@, '`', start as int, j as int);
                    }
                    Some(String::from_str(msg.substring_char(start, j)))
                },
                None => {
                    proof {
                        lemma_first_at_none(msg@, '`', start as int);
                    }
                    None
                },
            }
        },
        None => {
            proof {
                lemma_first_match_none(msg@, marker@, 0);
            }
            None
        },
    }
}

/// The value of the first field named `key` of a table's entries.
fn lookup_field<'a>(entries: &'a Vec<(String, TomlValue)>, key: &str) -> (r: Option<&'a TomlValue>)
    ensures
        match r {
            Some(v) => lookup_from(entries@, key@, 0) == Some(*v),
            None => lookup_from(entries@, key@, 0) is None,
        },
{
    let mut i: usize = 0;
    while i < entries.len()
        invariant
            i <= entries.len(),
            lookup_from(entries@, key@, 0) == lookup_from(entries@, key@, i as int),
        decreases entries.len() - i,
    {
        let p = &entries[i];
        if str_eq(p.0.as_str(), key) {
            return Some(&p.1);
        }
        i = i + 1;
    }
    None
}

/// The declared arguments of one task, read from its `args` table.
fn build_args(entries: &Vec<(String, TomlValue)>) -> (r: Option<Vec<(String, String)>>)
    ensures
        match r {
            Some(v) => arg_entries_from(entries@, 0) == Some(v.deep_view()),
            None => arg_entries_from(entries@, 0) is None,
        },
{
    let mut out: Vec<(String, String)> = Vec::new();
    let mut i: usize = 0;
    while i < entries.len()
        invariant
            i <= entries.len(),
            match arg_entries_from(entries@, i as int) {
                Some(rest) => arg_entries_from(entries@, 0) == Some(out.deep_view() + rest),
                None => arg_entries_from(entries@, 0) is None,
            },
        decreases entries.len() - i,
    {
        let p = &entries[i];
        match &p.1 {
            TomlValue::Str(s) => {
                let ghost out_old = out.deep_view();
                out.push((p.0.clone(), s.clone()));
                proof {
                    assert(out.deep_view() =~= out_old.push((entries@[i as int].0@, s@)));
                    match arg_entries_from(entries@, i + 1) {
                        Some(rest) => {
                            assert(out_old + (seq![(entries@[i as int].0@, s@)] + rest) =~= out_old.push(
                                (entries@[i as int].0@, s@),
                            ) + rest);
                        },
                        None => {},
                    }
                }
            },
            _ => {
                return None;
            },
        }
        i = i + 1;
    }
    proof {
        assert(out.deep_view() + Seq::<(Seq<char>, Seq<char>)>::empty() =~= out.deep_view());
    }
    Some(out)
}

/// One task entry, validated and read into a [`TaskDef`].
fn build_task(name: &String, v: &TomlValue) -> (r: Result<TaskDef, String>)
    ensures
        match r {
            Ok(td) => task_of(name@, *v) == Ok::<TaskDefView, Seq<char>>(td@),
            Err(m) => task_of(name@, *v) == Err::<TaskDefView, Seq<char>>(m@),
        },
{
    let fields = match v {
        TomlValue::Table(fields) => fields,
        _ => {
            return Err(
                String::from_str("task `").concat(name.as_str()).concat("` is not a table"),
            );
        },
    };
    let cmd = match lookup_field(fields, "cmd") {
        Some(TomlValue::Str(c)) => c.clone(),
        _ => {
            return Err(
                String::from_str("task `").concat(name.as_str()).concat("` has no `cmd` string"),
            );
        },
    };
    let description = match lookup_field(fields, "description") {
        Some(TomlValue::Str(d)) => Some(d.clone()),
        None => None,
        Some(_) => {
            return Err(
                String::from_str("`description` of task `").concat(name.as_str()).concat(
                    "` is not a string",
                ),
            );
        },
    };
    let args = match lookup_field(fields, "args") {
        Some(TomlValue::Table(af)) => match build_args(af) {
            Some(a) => a,
            None => {
                return Err(
                    String::from_str("`args` of task `").concat(name.as_str()).concat(
                        "` is not a table of strings",
                    ),
                );
            },
        },
        None => {
            let empty_args: Vec<(String, String)> = Vec::new();
            proof {
                assert(empty_args.deep_view() =~= Seq::<(Seq<char>, Seq<char>)>::empty());
            }
            empty_args
        },
        Some(_) => {
            return Err(
                String::from_str("`args` of task `").concat(name.as_str()).concat(
                    "` is not a table of strings",
                ),
            );
        },
    };
    Ok(TaskDef { cmd, description, args })
}

/// The `tasks` table, validated entry by entry.
fn build_tasks(entries: &Vec<(String, TomlValue)>) -> (r: Result<Vec<(String, TaskDef)>, String>)
    ensures
        match r {
            Ok(v) => task_entries_from(entries@, 0) == Ok::<Seq<(Seq<char>, TaskDefView)>, Seq<char>>(
                v.deep_view(),
            ),
            Err(m) => task_entries_from(entries@, 0) == Err::<
                Seq<(Seq<char>, TaskDefView)>,
                Seq<char>,
            >(m@),
        },
{
    let mut out: Vec<(String, TaskDef)> = Vec::new();
    let mut i: usize = 0;
    while i < entries.len()
        invariant
            i <= entries.len(),
            match task_entries_from(entries@, i as int) {
                Ok(rest) => task_entries_from(entries@, 0) == Ok::<
                    Seq<(Seq<char>, TaskDefView)>,
                    Seq<char>,
                >(out.deep_view() + rest),
                Err(m) => task_entries_from(entries@, 0) == Err::<
                    Seq<(Seq<char>, TaskDefView)>,
                    Seq<char>,
                >(m),
            },
        decreases entries.len() - i,
    {
        let p = &entries[i];
        match build_task(&p.0, &p.1) {
            Ok(td) => {
                let ghost out_old = out.deep_view();
                let ghost tdv = td@;
                out.push((p.0.clone(), td));
                proof {
                    assert(out.deep_view() =~= out_old.push((entries@[i as int].0@, tdv)));
                    match task_entries_from(entries@, i + 1) {
                        Ok(rest) => {
                            assert(out_old + (seq![(entries@[i as int].0@, tdv)] + rest) =~= out_old.push(
                                (entries@[i as int].0@, tdv),
                            ) + rest);
                        },
                        Err(_) => {},
                    }
                }
            },
            Err(m) => {
                return Err(m);
            },
        }
        i = i + 1;
    }
    proof {
        assert(out.deep_view() + Seq::<(Seq<char>, TaskDefView)>::empty() =~= out.deep_view());
    }
    Ok(out)
}

/// A whole parsed document, validated into a [`ConfigFile`].
fn build_config(doc: TomlValue) -> (r: Result<ConfigFile, String>)
    ensures
        match r {
            Ok(cfg) => tasks_of_doc(doc) == Ok::<Seq<(Seq<char>, TaskDefView)>, Seq<char>>(cfg@),
            Err(m) => tasks_of_doc(doc) == Err::<Seq<(Seq<char>, TaskDefView)>, Seq<char>>(m@),
        },
{
    let top = match &doc {
        TomlValue::Table(top) => top,
        _ => {
            return Err(String::from_str("document root is not a table"));
        },
    };
    match lookup_field(top, "tasks") {
        Some(TomlValue::Table(ts)) => match build_tasks(ts) {
            Ok(tasks) => Ok(ConfigFile { tasks }),
            Err(m) => Err(m),
        },
        None => {
            let tasks: Vec<(String, TaskDef)> = Vec::new();
            proof {
                assert(tasks.deep_view() =~= Seq::<(Seq<char>, TaskDefView)>::empty());
            }
            Ok(ConfigFile { tasks })
        },
        Some(_) => Err(String::from_str("`tasks` is not a table")),
    }
}

/// Parse and validate one configuration document. `path` is where the text
/// was read from; it is named in errors.
///
/// A repeated task key within the document is rejected by the TOML parser;
/// the repeated name is read out of the parser's message and reported as a
/// duplicate task at `path`.
pub fn parse_config(content: &str, path: &str) -> (r: Result<ConfigFile, RunzError>)
    ensures
        match r {
            Ok(cfg) => parse_config_spec(content@, path@) == Ok::<
                Seq<(Seq<char>, TaskDefView)>,
                ErrorView,
            >(cfg@),
            Err(e) => parse_config_spec(content@, path@) == Err::<
                Seq<(Seq<char>, TaskDefView)>,
                ErrorView,
            >(e@),
        },
{
    match parse_toml(content) {
        Ok(doc) => match build_config(doc) {
            Ok(cfg) => Ok(cfg),
            Err(reason) => Err(
                RunzError::ConfigParse { path: String::from_str(path), reason },
            ),
        },
        Err(m) => match extract_duplicate_key(m.as_str()) {
            Some(k) => Err(RunzError::DuplicateTask { name: k, path: String::from_str(path) }),
            None => Err(RunzError::ConfigParse { path: String::from_str(path), reason: m }),
        },
    }
}

// ---------- Document discovery ----------

/// The path of the configuration file looked for inside one directory.
pub open spec fn candidate_for(dir: Seq<char>) -> Seq<char> {
    if dir.len() == 0 {
        "muu.toml"@
    } else if dir.last() == '/' {
        dir + "muu.toml"@
    } else {
        dir + "/muu.toml"@
    }
}

/// The directory one level up: everything before the last separator. Nothing
/// is above the root or an empty path; a path without separators has the
/// empty (current) directory above it.
pub open spec fn parent_of(dir: Seq<char>) -> Option<Seq<char>> {
    if dir.len() == 0 || (dir.len() == 1 && dir[0] == '/') {
        None
    } else {
        match last_at(dir, '/') {
            None => Some(Seq::empty()),
            Some(j) => if j == 0 {
                Some(dir.subrange(0, 1))
            } else {
                Some(dir.subrange(0, j))
            },
        }
    }
}

proof fn lemma_last_at_range(s: Seq<char>, c: char)
    ensures
        match last_at(s, c) {
            Some(j) => 0 <= j < s.len() && s[j] == c,
            None => true,
        },
    decreases s.len(),
{
    if s.len() > 0 && s.last() != c {
        lemma_last_at_range(s.drop_last(), c);
    }
}

/// The candidate configuration paths from one directory upward: the
/// directory's own candidate first, then its ancestors', up to the root.
pub open spec fn search_paths(dir: Seq<char>) -> Seq<Seq<char>>
    decreases dir.len(),
    via search_paths_decreases
{
    match parent_of(dir) {
        None => seq![candidate_for(dir)],
        Some(p) => seq![candidate_for(dir)] + search_paths(p),
    }
}

#[via_fn]
proof fn search_paths_decreases(dir: Seq<char>) {
    lemma_last_at_range(dir, '/');
}

/// The configuration file candidate inside one directory.
fn candidate_exec(dir: &str) -> (r: String)
    ensures
        r@ == candidate_for(dir@),
{
    let len = dir.unicode_len();
    if len == 0 {
        String::from_str("muu.toml")
    } else if dir.get_char(len - 1) == '/' {
        String::from_str(dir).concat("muu.toml")
    } else {
        String::from_str(dir).concat("/muu.toml")
    }
}

/// The directory one level up, strictly shorter than `dir`.
fn parent_exec(dir: &str) -> (r: Option<String>)
    ensures
        match r {
            Some(p) => parent_of(dir@) == Some(p@) && p@.len() < dir@.len(),
            None => parent_of(dir@) is None,
        },
{
    let len = dir.unicode_len();
    if len == 0 {
        return None;
    }
    if len == 1 && dir.get_char(0) == '/' {
        return None;
    }
    let mut k: usize = len;
    while k > 0
        invariant
            k <= len,
            len == dir@.len(),
            1 <= len,
            !(len == 1 && dir@[0] == '/'),
            forall|m: int| k <= m < len ==> dir@[m] != '/',
        decreases k,
    {
        k = k - 1;
        if dir.get_char(k) == '/' {
            proof {
                lemma_last_at_found(dir@, '/', k as int);
            }
            let cut = if k == 0 {
                1
            } else {
                k
            };
            return Some(String::from_str(dir.substring_char(0, cut)));
        }
    }
    proof {
        lemma_last_at_none(dir@, '/');
    }
    Some(String::new())
}

/// The candidate configuration paths from `start_dir` upward through its
/// ancestors, the nearest directory first.
pub fn config_search_paths(start_dir: &str) -> (r: Vec<String>)
    ensures
        r.deep_view() == search_paths(start_dir@),
    decreases start_dir@.len(),
{
    let mut out: Vec<String> = Vec::new();
    out.push(candidate_exec(start_dir));
    match parent_exec(start_dir) {
        None => {
            proof {
                assert(out.deep_view() =~= seq![candidate_for(start_dir@)]);
            }
        },
        Some(p) => {
            let ghost out_head = out.deep_view();
            let mut rest = config_search_paths(p.as_str());
            let ghost rest_dv = rest.deep_view();
            out.append(&mut rest);
            proof {
                assert(out.deep_view() =~= out_head + rest_dv);
                assert(out_head =~= seq![candidate_for(start_dir@)]);
                assert(out.deep_view() =~= seq![candidate_for(start_dir@)] + search_paths(p@));
            }
        },
    }
    out
}

/// The first candidate marked present, scanning from position `i` on.
pub open spec fn first_present_from(paths: Seq<Seq<char>>, present: Seq<bool>, i: int) -> Option<
    Seq<char>,
>
    decreases paths.len() - i,
{
    if i < 0 || i >= paths.len() || i >= present.len() {
        None
    } else if present[i] {
        Some(paths[i])
    } else {
        first_present_from(paths, present, i + 1)
    }
}

/// Find the project-local configuration document. `candidates` are the paths
/// from [`config_search_paths`], nearest directory first, and `present[i]`
/// says whether `candidates[i]` is an existing file; the first present
/// candidate — the nearest — wins.
pub fn find_local_config(candidates: &Vec<String>, present: &Vec<bool>) -> (r: Option<String>)
    ensures
        match r {
            Some(p) => first_present_from(candidates.deep_view(), present@, 0) == Some(p@),
            None => first_present_from(candidates.deep_view(), present@, 0) is None,
        },
{
    let ghost cv = candidates.deep_view();
    let n = if candidates.len() < present.len() {
        candidates.len()
    } else {
        present.len()
    };
    let mut i: usize = 0;
    while i < n
        invariant
            i <= n,
            cv == candidates.deep_view(),
            cv.len() == candidates.len(),
            n <= candidates.len(),
            n <= present.len(),
            n == if candidates.len() < present.len() {
                candidates.len() as int
            } else {
                present.len() as int
            },
            first_present_from(cv, present@, 0) == first_present_from(cv, present@, i as int),
        decreases n - i,
    {
        if present[i] {
            return Some(candidates[i].clone());
        }
        i = i + 1;
    }
    None
}

/// The tail of the global configuration document's path, under the home
/// directory.
pub open spec fn global_path_suffix() -> Seq<char> {
    "/.config/muu/config.toml"@
}

/// Relies on `dirs::home_dir`: the user's home directory, if the platform
/// reports one. The result depends on the environment, so nothing is assumed
/// of it.
#[verifier::external_body]
fn home_dir_path() -> (r: Option<String>) {
    dirs::home_dir().map(|d| d.to_string_lossy().into_owned())
}

/// The fixed per-user path of the global configuration document, if the
/// platform reports a home directory. Whether the file exists is the
/// caller's concern.
pub fn global_config_path() -> (r: Option<String>)
    ensures
        r matches Some(p) ==> exists|h: Seq<char>| p@ == h + global_path_suffix(),
{
    match home_dir_path() {
        Some(home) => {
            let ghost hv = home@;
            let p = home.concat("/.config/muu/config.toml");
            proof {
                assert(p@ == hv + global_path_suffix());
            }
            Some(p)
        },
        None => None,
    }
}

// ---------- Loading and merging ----------

/// One configuration document handed to the loader: where it was read from,
/// and its text.
pub struct SourceDoc {
    pub path: String,
    pub content: String,
}

impl View for SourceDoc {
    type V = (Seq<char>, Seq<char>);

    open spec fn view(&self) -> (Seq<char>, Seq<char>) {
        (self.path@, self.content@)
    }
}

/// The view of an optional document.
pub open spec fn doc_view(doc: Option<&SourceDoc>) -> Option<(Seq<char>, Seq<char>)> {
    match doc {
        Some(d) => Some(d@),
        None => None,
    }
}

/// The position of the first task named `name`, from position `i` on.
pub open spec fn task_index_from(acc: Seq<ResolvedTaskView>, name: Seq<char>, i: int) -> Option<
    int,
>
    decreases acc.len() - i,
{
    if i < 0 || i >= acc.len() {
        None
    } else if acc[i].name == name {
        Some(i)
    } else {
        task_index_from(acc, name, i + 1)
    }
}

/// One task merged into the list: a task of the same name is replaced in
/// place, keeping its position; a new name is appended.
pub open spec fn upsert(acc: Seq<ResolvedTaskView>, t: ResolvedTaskView) -> Seq<ResolvedTaskView> {
    match task_index_from(acc, t.name, 0) {
        Some(i) => acc.update(i, t),
        None => acc.push(t),
    }
}

/// A document's entries as global tasks, in document order.
pub open spec fn global_tasks(entries: Seq<(Seq<char>, TaskDefView)>) -> Seq<ResolvedTaskView> {
    entries.map_values(
        |e: (Seq<char>, TaskDefView)|
            ResolvedTaskView { name: e.0, def: e.1, source: TaskSource::Global },
    )
}

/// The local entries from position `i` on, merged over the accumulated
/// tasks: each one overwrites a task of the same name or is appended.
pub open spec fn apply_local_from(
    acc: Seq<ResolvedTaskView>,
    entries: Seq<(Seq<char>, TaskDefView)>,
    i: int,
) -> Seq<ResolvedTaskView>
    decreases entries.len() - i,
{
    if i < 0 || i >= entries.len() {
        acc
    } else {
        apply_local_from(
            upsert(
                acc,
                ResolvedTaskView { name: entries[i].0, def: entries[i].1, source: TaskSource::Local },
            ),
            entries,
            i + 1,
        )
    }
}

/// The first task name that repeats within one document's entries, scanning
/// from position `i` on.
pub open spec fn first_dup_from(entries: Seq<(Seq<char>, TaskDefView)>, i: int) -> Option<
    Seq<char>,
>
    decreases entries.len() - i,
{
    if i < 0 || i >= entries.len() {
        None
    } else if exists|j: int| 0 <= j < i && entries[j].0 == entries[i].0 {
        Some(entries[i].0)
    } else {
        first_dup_from(entries, i + 1)
    }
}

/// One document parsed, validated, and checked for repeated task names
/// against its own path.
pub open spec fn parsed_source(doc: (Seq<char>, Seq<char>)) -> Result<
    Seq<(Seq<char>, TaskDefView)>,
    ErrorView,
> {
    match parse_config_spec(doc.1, doc.0) {
        Err(e) => Err(e),
        Ok(entries) => match first_dup_from(entries, 0) {
            Some(n) => Err(ErrorView::DuplicateTask { name: n, path: doc.0 }),
            None => Ok(entries),
        },
    }
}

/// The local document merged over an already-loaded base.
pub open spec fn load_with_base(
    acc: Seq<ResolvedTaskView>,
    local: Option<(Seq<char>, Seq<char>)>,
) -> Result<Seq<ResolvedTaskView>, ErrorView> {
    match local {
        None => Ok(acc),
        Some(doc) => match parsed_source(doc) {
            Err(e) => Err(e),
            Ok(entries) => Ok(apply_local_from(acc, entries, 0)),
        },
    }
}

/// The whole load: with no document at all it fails; otherwise the global
/// tasks come first, and the local tasks overwrite or follow them.
pub open spec fn load_spec(
    global: Option<(Seq<char>, Seq<char>)>,
    local: Option<(Seq<char>, Seq<char>)>,
) -> Result<Seq<ResolvedTaskView>, ErrorView> {
    if global is None && local is None {
        Err(ErrorView::NoConfigFound)
    } else {
        match global {
            None => load_with_base(Seq::empty(), local),
            Some(doc) => match parsed_source(doc) {
                Err(e) => Err(e),
                Ok(entries) => load_with_base(global_tasks(entries), local),
            },
        }
    }
}

/// Whether an earlier entry of the same document already bears entry `i`'s
/// name.
fn dup_before(entries: &Vec<(String, TaskDef)>, i: usize) -> (r: bool)
    requires
        i < entries@.len(),
    ensures
        r == exists|m: int|
            0 <= m < i && entries.deep_view()[m].0 == entries.deep_view()[i as int].0,
{
    let p = &entries[i];
    let mut j: usize = 0;
    while j < i
        invariant
            j <= i,
            i < entries@.len(),
            p.0@ == entries.deep_view()[i as int].0,
            forall|m: int|
                0 <= m < j ==> entries.deep_view()[m].0 != entries.deep_view()[i as int].0,
        decreases i - j,
    {
        let q = &entries[j];
        if str_eq(q.0.as_str(), p.0.as_str()) {
            proof {
                assert(entries.deep_view()[j as int].0 == entries.deep_view()[i as int].0);
            }
            return true;
        }
        j = j + 1;
    }
    false
}

/// The position of the first merged task named `name`.
pub(crate) fn find_task_index(tasks: &Vec<ResolvedTask>, name: &str) -> (r: Option<usize>)
    ensures
        match r {
            Some(k) => k < tasks@.len() && task_index_from(tasks.deep_view(), name@, 0) == Some(
                k as int,
            ),
            None => task_index_from(tasks.deep_view(), name@, 0) is None,
        },
{
    let mut i: usize = 0;
    while i < tasks.len()
        invariant
            i <= tasks.len(),
            tasks.deep_view().len() == tasks.len(),
            task_index_from(tasks.deep_view(), name@, 0) == task_index_from(
                tasks.deep_view(),
                name@,
                i as int,
            ),
        decreases tasks.len() - i,
    {
        let t = &tasks[i];
        if str_eq(t.name.as_str(), name) {
            proof {
                assert(tasks.deep_view()[i as int].name == name@);
            }
            return Some(i);
        }
        i = i + 1;
    }
    None
}

/// Load and merge the task sets of the given documents.
///
/// With neither document present the load fails; global tasks are inserted
/// first, then local tasks overwrite any task of the same name in place (the
/// origin becomes local) or are appended. A task name repeated inside one
/// document is rejected against that document's path; the same name in both
/// documents is resolved by override, not rejected.
pub fn load_tasks(global: Option<&SourceDoc>, local: Option<&SourceDoc>) -> (r: Result<
    Vec<ResolvedTask>,
    RunzError,
>)
    ensures
        match r {
            Ok(v) => load_spec(doc_view(global), doc_view(local)) == Ok::<
                Seq<ResolvedTaskView>,
                ErrorView,
            >(v.deep_view()),
            Err(e) => load_spec(doc_view(global), doc_view(local)) == Err::<
                Seq<ResolvedTaskView>,
                ErrorView,
            >(e@),
        },
{
    if global.is_none() && local.is_none() {
        return Err(RunzError::NoConfigFound);
    }
    let mut tasks: Vec<ResolvedTask> = Vec::new();
    if let Some(g) = global {
        let cfg = match parse_config(g.content.as_str(), g.path.as_str()) {
            Ok(c) => c,
            Err(e) => {
                return Err(e);
            },
        };
        let ghost entries = cfg@;
        let mut i: usize = 0;
        proof {
            assert(tasks.deep_view() =~= global_tasks(entries.take(0)));
        }
        while i < cfg.tasks.len()
            invariant
                i <= cfg.tasks.len(),
                entries == cfg@,
                entries.len() == cfg.tasks.len(),
                doc_view(global) == Some((g.path@, g.content@)),
                parse_config_spec(g.content@, g.path@) == Ok::<
                    Seq<(Seq<char>, TaskDefView)>,
                    ErrorView,
                >(entries),
                first_dup_from(entries, 0) == first_dup_from(entries, i as int),
                tasks.deep_view() == global_tasks(entries.take(i as int)),
            decreases cfg.tasks.len() - i,
        {
            if dup_before(&cfg.tasks, i) {
                let p = &cfg.tasks[i];
                return Err(
                    RunzError::DuplicateTask { name: p.0.clone(), path: g.path.clone() },
                );
            }
            let p = &cfg.tasks[i];
            let ghost tasks_old = tasks.deep_view();
            tasks.push(ResolvedTask { name: p.0.clone(), def: p.1.clone(), source: TaskSource::Global });
            proof {
                assert(tasks.deep_view() =~= tasks_old.push(
                    ResolvedTaskView {
                        name: entries[i as int].0,
                        def: entries[i as int].1,
                        source: TaskSource::Global,
                    },
                ));
                assert(global_tasks(entries.take(i + 1)) =~= global_tasks(
                    entries.take(i as int),
                ).push(
                    ResolvedTaskView {
                        name: entries[i as int].0,
                        def: entries[i as int].1,
                        source: TaskSource::Global,
                    },
                ));
            }
            i = i + 1;
        }
        proof {
            assert(entries.take(entries.len() as int) =~= entries);
        }
    }
    let ghost base = tasks.deep_view();
    proof {
        if global.is_none() {
            assert(base =~= Seq::<ResolvedTaskView>::empty());
        }
        assert(load_spec(doc_view(global), doc_view(local)) == load_with_base(
            base,
            doc_view(local),
        ));
    }
    if let Some(l) = local {
        let cfg = match parse_config(l.content.as_str(), l.path.as_str()) {
            Ok(c) => c,
            Err(e) => {
                return Err(e);
            },
        };
        let ghost lentries = cfg@;
        let mut i: usize = 0;
        while i < cfg.tasks.len()
            invariant
                i <= cfg.tasks.len(),
                lentries == cfg@,
                lentries.len() == cfg.tasks.len(),
                load_spec(doc_view(global), doc_view(local)) == load_with_base(
                    base,
                    doc_view(local),
                ),
                doc_view(local) == Some((l.path@, l.content@)),
                parse_config_spec(l.content@, l.path@) == Ok::<
                    Seq<(Seq<char>, TaskDefView)>,
                    ErrorView,
                >(lentries),
                first_dup_from(lentries, 0) == first_dup_from(lentries, i as int),
                apply_local_from(base, lentries, 0) == apply_local_from(
                    tasks.deep_view(),
                    lentries,
                    i as int,
                ),
            decreases cfg.tasks.len() - i,
        {
            if dup_before(&cfg.tasks, i) {
                let p = &cfg.tasks[i];
                return Err(
                    RunzError::DuplicateTask { name: p.0.clone(), path: l.path.clone() },
                );
            }
            let p = &cfg.tasks[i];
            let rt = ResolvedTask { name: p.0.clone(), def: p.1.clone(), source: TaskSource::Local };
            let ghost rtv = rt@;
            let ghost tasks_old = tasks.deep_view();
            proof {
                assert(rtv == ResolvedTaskView {
                    name: lentries[i as int].0,
                    def: lentries[i as int].1,
                    source: TaskSource::Local,
                });
            }
            match find_task_index(&tasks, p.0.as_str()) {
                Some(k) => {
                    tasks.set(k, rt);
                    proof {
                        assert(tasks.deep_view() =~= tasks_old.update(k as int, rtv));
                        assert(upsert(tasks_old, rtv) == tasks_old.update(k as int, rtv));
                    }
                },
                None => {
                    tasks.push(rt);
                    proof {
                        assert(tasks.deep_view() =~= tasks_old.push(rtv));
                        assert(upsert(tasks_old, rtv) == tasks_old.push(rtv));
                    }
                },
            }
            i = i + 1;
        }
    }
    Ok(tasks)
}

// ---------- Laws of loading and merging ----------

/// The names of a merged task list, in order.
pub open spec fn task_names(ts: Seq<ResolvedTaskView>) -> Seq<Seq<char>> {
    ts.map_values(|t: ResolvedTaskView| t.name)
}

/// The task names a document's entries declare, in order.
pub open spec fn entry_names(entries: Seq<(Seq<char>, TaskDefView)>) -> Seq<Seq<char>> {
    entries.map_values(|e: (Seq<char>, TaskDefView)| e.0)
}

/// The merged task bearing a name, if any: the first, and under
/// `task_names(ts).no_duplicates()` the only one.
pub open spec fn task_lookup(ts: Seq<ResolvedTaskView>, name: Seq<char>) -> Option<
    ResolvedTaskView,
> {
    match task_index_from(ts, name, 0) {
        Some(i) => Some(ts[i]),
        None => None,
    }
}

proof fn lemma_task_index_char(acc: Seq<ResolvedTaskView>, name: Seq<char>, k: int)
    requires
        0 <= k <= acc.len(),
    ensures
        match task_index_from(acc, name, k) {
            Some(i) => k <= i < acc.len() && acc[i].name == name && forall|m: int|
                k <= m < i ==> acc[m].name != name,
            None => forall|m: int| k <= m < acc.len() ==> acc[m].name != name,
        },
    decreases acc.len() - k,
{
    if k < acc.len() && acc[k].name != name {
        lemma_task_index_char(acc, name, k + 1);
    }
}

proof fn lemma_task_index_found(acc: Seq<ResolvedTaskView>, name: Seq<char>, k: int, i: int)
    requires
        0 <= k <= i < acc.len(),
        acc[i].name == name,
        forall|m: int| k <= m < i ==> acc[m].name != name,
    ensures
        task_index_from(acc, name, k) == Some(i),
    decreases i - k,
{
    if k < i {
        lemma_task_index_found(acc, name, k + 1, i);
    }
}

proof fn lemma_task_index_none(acc: Seq<ResolvedTaskView>, name: Seq<char>, k: int)
    requires
        0 <= k,
        forall|m: int| k <= m < acc.len() ==> acc[m].name != name,
    ensures
        task_index_from(acc, name, k) is None,
    decreases acc.len() - k,
{
    if k < acc.len() {
        lemma_task_index_none(acc, name, k + 1);
    }
}

proof fn lemma_upsert_names(acc: Seq<ResolvedTaskView>, t: ResolvedTaskView)
    ensures
        task_names(acc).contains(t.name) ==> task_names(upsert(acc, t)) == task_names(acc),
        !task_names(acc).contains(t.name) ==> task_names(upsert(acc, t)) == task_names(acc).push(
            t.name,
        ),
{
    lemma_task_index_char(acc, t.name, 0);
    match task_index_from(acc, t.name, 0) {
        Some(i) => {
            assert(task_names(acc)[i] == t.name);
            assert(task_names(acc.update(i, t)) =~= task_names(acc));
        },
        None => {
            if task_names(acc).contains(t.name) {
                let i = choose|i: int|
                    0 <= i < task_names(acc).len() && task_names(acc)[i] == t.name;
                assert(acc[i].name == t.name);
            }
            assert(task_names(acc.push(t)) =~= task_names(acc).push(t.name));
        },
    }
}

proof fn lemma_push_to_set(names: Seq<Seq<char>>, n: Seq<char>)
    ensures
        names.push(n).to_set() == names.to_set().insert(n),
{
    assert forall|x: Seq<char>| names.push(n).contains(x) implies names.to_set().insert(n).contains(
        x,
    ) by {
        let i = choose|i: int| 0 <= i < names.push(n).len() && names.push(n)[i] == x;
        if i < names.len() {
            assert(names[i] == x);
        }
    }
    assert forall|x: Seq<char>| names.to_set().insert(n).contains(x) implies names.push(
        n,
    ).contains(x) by {
        if names.contains(x) {
            let i = choose|i: int| 0 <= i < names.len() && names[i] == x;
            assert(names.push(n)[i] == x);
        } else {
            assert(names.push(n)[names.len() as int] == x);
        }
    }
    assert(names.push(n).to_set() =~= names.to_set().insert(n));
}

proof fn lemma_skip_to_set(names: Seq<Seq<char>>, i: int)
    requires
        0 <= i < names.len(),
    ensures
        names.skip(i).to_set() == names.skip(i + 1).to_set().insert(names[i]),
    decreases names.len() - i,
{
    assert forall|x: Seq<char>| names.skip(i).contains(x) implies names.skip(i + 1).to_set().insert(
        names[i],
    ).contains(x) by {
        let k = choose|k: int| 0 <= k < names.skip(i).len() && names.skip(i)[k] == x;
        if k > 0 {
            assert(names.skip(i + 1)[k - 1] == x);
        }
    }
    assert forall|x: Seq<char>| names.skip(i + 1).to_set().insert(names[i]).contains(
        x,
    ) implies names.skip(i).contains(x) by {
        if names.skip(i + 1).contains(x) {
            let k = choose|k: int| 0 <= k < names.skip(i + 1).len() && #[trigger] names.skip(
                i + 1,
            )[k] == x;
            assert(names.skip(i)[k + 1] == x);
        } else {
            assert(names.skip(i)[0] == x);
        }
    }
    assert(names.skip(i).to_set() =~= names.skip(i + 1).to_set().insert(names[i]));
}

proof fn lemma_apply_local_names(
    acc: Seq<ResolvedTaskView>,
    entries: Seq<(Seq<char>, TaskDefView)>,
    i: int,
)
    requires
        0 <= i <= entries.len(),
        task_names(acc).no_duplicates(),
    ensures
        task_names(apply_local_from(acc, entries, i)).no_duplicates(),
        task_names(apply_local_from(acc, entries, i)).to_set() == task_names(acc).to_set()
            + entry_names(entries).skip(i).to_set(),
    decreases entries.len() - i,
{
    if i >= entries.len() {
        assert(entry_names(entries).skip(i) =~= Seq::<Seq<char>>::empty());
        assert(entry_names(entries).skip(i).to_set() =~= Set::<Seq<char>>::empty());
        assert(task_names(acc).to_set() + entry_names(entries).skip(i).to_set() =~= task_names(
            acc,
        ).to_set());
    } else {
        let t = ResolvedTaskView { name: entries[i].0, def: entries[i].1, source: TaskSource::Local };
        let u = upsert(acc, t);
        lemma_upsert_names(acc, t);
        if task_names(acc).contains(t.name) {
            assert(task_names(u).no_duplicates());
        } else {
            let names = task_names(acc);
            assert(task_names(u) == names.push(t.name));
            assert forall|a: int, b: int|
                0 <= a < b < names.push(t.name).len() implies names.push(t.name)[a] != names.push(
                t.name,
            )[b] by {
                if b < names.len() {
                    assert(names[a] != names[b]);
                } else {
                    if names[a] == t.name {
                        assert(names.contains(t.name));
                    }
                }
            }
            assert(task_names(u).no_duplicates());
            lemma_push_to_set(names, t.name);
        }
        lemma_apply_local_names(u, entries, i + 1);
        lemma_skip_to_set(entry_names(entries), i);
        assert(entry_names(entries)[i] == entries[i].0);
        if task_names(acc).contains(t.name) {
            assert(task_names(acc).to_set().contains(t.name));
            assert(task_names(u).to_set() + entry_names(entries).skip(i + 1).to_set() =~= task_names(
                acc,
            ).to_set() + entry_names(entries).skip(i).to_set());
        } else {
            assert(task_names(u).to_set() + entry_names(entries).skip(i + 1).to_set() =~= task_names(
                acc,
            ).to_set() + entry_names(entries).skip(i).to_set());
        }
    }
}

/// No duplication and no loss: merging documents whose own task names are
/// unique yields a list whose names are unique and are exactly the union of
/// the two documents' names — with N unique names over both sources, exactly
/// N tasks.
pub proof fn lemma_load_no_loss_no_duplication(
    g_entries: Seq<(Seq<char>, TaskDefView)>,
    l_entries: Seq<(Seq<char>, TaskDefView)>,
)
    requires
        entry_names(g_entries).no_duplicates(),
    ensures
        ({
            let merged = apply_local_from(global_tasks(g_entries), l_entries, 0);
            &&& task_names(merged).no_duplicates()
            &&& task_names(merged).to_set() == entry_names(g_entries).to_set() + entry_names(
                l_entries,
            ).to_set()
            &&& merged.len() == (entry_names(g_entries).to_set() + entry_names(
                l_entries,
            ).to_set()).len()
        }),
{
    let base = global_tasks(g_entries);
    assert(task_names(base) =~= entry_names(g_entries));
    lemma_apply_local_names(base, l_entries, 0);
    assert(entry_names(l_entries).skip(0) =~= entry_names(l_entries));
    let merged = apply_local_from(base, l_entries, 0);
    task_names(merged).unique_seq_to_set();
    assert(merged.len() == task_names(merged).len());
}

proof fn lemma_distinct_no_dup(entries: Seq<(Seq<char>, TaskDefView)>)
    requires
        entry_names(entries).no_duplicates(),
    ensures
        first_dup_from(entries, 0) is None,
{
    if first_dup_from(entries, 0) is Some {
        lemma_first_dup_char(entries, 0);
        let (x, y) = choose|x: int, y: int|
            0 <= x < y < entries.len() && entries[x].0 == entries[y].0;
        assert(entry_names(entries)[x] == entry_names(entries)[y]);
    }
}

/// No loss and no duplication, read off the load itself: two documents that
/// each parse with unique task names load successfully into the merged list,
/// whose names are unique and are exactly the union of the two documents'
/// names.
pub proof fn lemma_load_spec_no_loss(
    gdoc: (Seq<char>, Seq<char>),
    ldoc: (Seq<char>, Seq<char>),
    g_entries: Seq<(Seq<char>, TaskDefView)>,
    l_entries: Seq<(Seq<char>, TaskDefView)>,
)
    requires
        parse_config_spec(gdoc.1, gdoc.0) == Ok::<Seq<(Seq<char>, TaskDefView)>, ErrorView>(
            g_entries,
        ),
        parse_config_spec(ldoc.1, ldoc.0) == Ok::<Seq<(Seq<char>, TaskDefView)>, ErrorView>(
            l_entries,
        ),
        entry_names(g_entries).no_duplicates(),
        entry_names(l_entries).no_duplicates(),
    ensures
        ({
            let merged = apply_local_from(global_tasks(g_entries), l_entries, 0);
            &&& load_spec(Some(gdoc), Some(ldoc)) == Ok::<Seq<ResolvedTaskView>, ErrorView>(merged)
            &&& task_names(merged).no_duplicates()
            &&& task_names(merged).to_set() == entry_names(g_entries).to_set() + entry_names(
                l_entries,
            ).to_set()
            &&& merged.len() == (entry_names(g_entries).to_set() + entry_names(
                l_entries,
            ).to_set()).len()
        }),
{
    lemma_distinct_no_dup(g_entries);
    lemma_distinct_no_dup(l_entries);
    lemma_load_no_loss_no_duplication(g_entries, l_entries);
}

/// One document with N unique task names loads into exactly N tasks, one per
/// name, in document order.
pub proof fn lemma_load_spec_single_source(
    doc: (Seq<char>, Seq<char>),
    entries: Seq<(Seq<char>, TaskDefView)>,
)
    requires
        parse_config_spec(doc.1, doc.0) == Ok::<Seq<(Seq<char>, TaskDefView)>, ErrorView>(entries),
        entry_names(entries).no_duplicates(),
    ensures
        load_spec(Some(doc), None) == Ok::<Seq<ResolvedTaskView>, ErrorView>(
            global_tasks(entries),
        ),
        global_tasks(entries).len() == entries.len(),
        task_names(global_tasks(entries)) == entry_names(entries),
{
    lemma_distinct_no_dup(entries);
    assert(task_names(global_tasks(entries)) =~= entry_names(entries));
}

proof fn lemma_first_dup_none_distinct(entries: Seq<(Seq<char>, TaskDefView)>, k: int)
    requires
        0 <= k,
        first_dup_from(entries, k) is None,
    ensures
        forall|m: int, j: int|
            0 <= j < m && k <= m < entries.len() ==> entries[j].0 != entries[m].0,
    decreases entries.len() - k,
{
    if k < entries.len() {
        lemma_first_dup_none_distinct(entries, k + 1);
    }
}

proof fn lemma_first_dup_char(entries: Seq<(Seq<char>, TaskDefView)>, k: int)
    requires
        0 <= k,
    ensures
        match first_dup_from(entries, k) {
            Some(n) => exists|x: int, y: int|
                0 <= x < y < entries.len() && entries[x].0 == entries[y].0 && entries[y].0 == n,
            None => true,
        },
    decreases entries.len() - k,
{
    if k < entries.len() && first_dup_from(entries, k) is Some {
        if exists|j: int| 0 <= j < k && entries[j].0 == entries[k].0 {
        } else {
            lemma_first_dup_char(entries, k + 1);
        }
    }
}

/// A task name repeated inside the global document always fails the load
/// with a duplicate-task error naming a repeated key and that document's
/// path, whatever the local document holds.
pub proof fn lemma_duplicate_task_rejected(
    path: Seq<char>,
    content: Seq<char>,
    local: Option<(Seq<char>, Seq<char>)>,
    entries: Seq<(Seq<char>, TaskDefView)>,
    a: int,
    b: int,
)
    requires
        parse_config_spec(content, path) == Ok::<Seq<(Seq<char>, TaskDefView)>, ErrorView>(entries),
        0 <= a < b < entries.len(),
        entries[a].0 == entries[b].0,
    ensures
        match first_dup_from(entries, 0) {
            Some(n) => load_spec(Some((path, content)), local) == Err::<
                Seq<ResolvedTaskView>,
                ErrorView,
            >(ErrorView::DuplicateTask { name: n, path }) && (exists|x: int, y: int|
                0 <= x < y < entries.len() && entries[x].0 == entries[y].0 && entries[y].0 == n),
            None => false,
        },
{
    if first_dup_from(entries, 0) is None {
        lemma_first_dup_none_distinct(entries, 0);
        assert(false);
    }
    lemma_first_dup_char(entries, 0);
}

/// A task name repeated inside the local document always fails the load the
/// same way, provided the global document itself loads.
pub proof fn lemma_duplicate_task_rejected_local(
    global: Option<(Seq<char>, Seq<char>)>,
    path: Seq<char>,
    content: Seq<char>,
    entries: Seq<(Seq<char>, TaskDefView)>,
    a: int,
    b: int,
)
    requires
        match global {
            None => true,
            Some(doc) => parsed_source(doc) is Ok,
        },
        parse_config_spec(content, path) == Ok::<Seq<(Seq<char>, TaskDefView)>, ErrorView>(entries),
        0 <= a < b < entries.len(),
        entries[a].0 == entries[b].0,
    ensures
        match first_dup_from(entries, 0) {
            Some(n) => load_spec(global, Some((path, content))) == Err::<
                Seq<ResolvedTaskView>,
                ErrorView,
            >(ErrorView::DuplicateTask { name: n, path }) && (exists|x: int, y: int|
                0 <= x < y < entries.len() && entries[x].0 == entries[y].0 && entries[y].0 == n),
            None => false,
        },
{
    if first_dup_from(entries, 0) is None {
        lemma_first_dup_none_distinct(entries, 0);
        assert(false);
    }
    lemma_first_dup_char(entries, 0);
}

proof fn lemma_no_dup_entry_names(entries: Seq<(Seq<char>, TaskDefView)>)
    requires
        first_dup_from(entries, 0) is None,
    ensures
        entry_names(entries).no_duplicates(),
{
    lemma_first_dup_none_distinct(entries, 0);
    let names = entry_names(entries);
    assert forall|i: int, j: int|
        0 <= i < names.len() && 0 <= j < names.len() && i != j implies names[i] != names[j] by {
        if i < j {
            assert(entries[i].0 != entries[j].0);
        } else {
            assert(entries[j].0 != entries[i].0);
        }
    }
}

/// Whatever the documents hold, a successful load never yields two tasks of
/// one name.
pub proof fn lemma_load_names_unique(
    global: Option<(Seq<char>, Seq<char>)>,
    local: Option<(Seq<char>, Seq<char>)>,
    v: Seq<ResolvedTaskView>,
)
    requires
        load_spec(global, local) == Ok::<Seq<ResolvedTaskView>, ErrorView>(v),
    ensures
        task_names(v).no_duplicates(),
{
    let base = match global {
        None => Seq::<ResolvedTaskView>::empty(),
        Some(doc) => match parsed_source(doc) {
            Ok(entries) => global_tasks(entries),
            Err(_) => Seq::<ResolvedTaskView>::empty(),
        },
    };
    match global {
        None => {
            assert(task_names(base) =~= Seq::<Seq<char>>::empty());
        },
        Some(doc) => {
            match parsed_source(doc) {
                Ok(entries) => {
                    lemma_no_dup_entry_names(entries);
                    assert(task_names(global_tasks(entries)) =~= entry_names(entries));
                },
                Err(_) => {
                    assert(false);
                },
            }
        },
    }
    match local {
        None => {
            assert(v == base);
        },
        Some(doc) => {
            match parsed_source(doc) {
                Ok(entries) => {
                    lemma_apply_local_names(base, entries, 0);
                    assert(v == apply_local_from(base, entries, 0));
                },
                Err(_) => {
                    assert(false);
                },
            }
        },
    }
}

proof fn lemma_upsert_lookup_same(acc: Seq<ResolvedTaskView>, t: ResolvedTaskView)
    ensures
        task_lookup(upsert(acc, t), t.name) == Some(t),
{
    lemma_task_index_char(acc, t.name, 0);
    match task_index_from(acc, t.name, 0) {
        Some(i) => {
            let u = acc.update(i, t);
            assert(forall|m: int| 0 <= m < i ==> u[m].name != t.name);
            lemma_task_index_found(u, t.name, 0, i);
        },
        None => {
            let u = acc.push(t);
            assert(forall|m: int| 0 <= m < acc.len() ==> u[m].name != t.name);
            lemma_task_index_found(u, t.name, 0, acc.len() as int);
        },
    }
}

proof fn lemma_upsert_lookup_other(acc: Seq<ResolvedTaskView>, t: ResolvedTaskView, n: Seq<char>)
    requires
        n != t.name,
    ensures
        task_lookup(upsert(acc, t), n) == task_lookup(acc, n),
{
    lemma_task_index_char(acc, t.name, 0);
    lemma_task_index_char(acc, n, 0);
    match task_index_from(acc, t.name, 0) {
        Some(i) => {
            let u = acc.update(i, t);
            match task_index_from(acc, n, 0) {
                Some(k) => {
                    assert(u[k].name == n);
                    assert(forall|m: int| 0 <= m < k ==> u[m].name != n);
                    lemma_task_index_found(u, n, 0, k);
                },
                None => {
                    assert(forall|m: int| 0 <= m < u.len() ==> u[m].name != n);
                    lemma_task_index_none(u, n, 0);
                },
            }
        },
        None => {
            let u = acc.push(t);
            match task_index_from(acc, n, 0) {
                Some(k) => {
                    assert(u[k].name == n);
                    assert(forall|m: int| 0 <= m < k ==> u[m].name != n);
                    lemma_task_index_found(u, n, 0, k);
                },
                None => {
                    assert(forall|m: int| 0 <= m < u.len() ==> u[m].name != n);
                    lemma_task_index_none(u, n, 0);
                },
            }
        },
    }
}

proof fn lemma_apply_local_keeps(
    acc: Seq<ResolvedTaskView>,
    entries: Seq<(Seq<char>, TaskDefView)>,
    i: int,
    n: Seq<char>,
)
    requires
        0 <= i <= entries.len(),
        forall|j: int| i <= j < entries.len() ==> entries[j].0 != n,
    ensures
        task_lookup(apply_local_from(acc, entries, i), n) == task_lookup(acc, n),
    decreases entries.len() - i,
{
    if i < entries.len() {
        let t = ResolvedTaskView { name: entries[i].0, def: entries[i].1, source: TaskSource::Local };
        lemma_upsert_lookup_other(acc, t, n);
        lemma_apply_local_keeps(upsert(acc, t), entries, i + 1, n);
    }
}

proof fn lemma_local_overrides_from(
    acc: Seq<ResolvedTaskView>,
    entries: Seq<(Seq<char>, TaskDefView)>,
    i: int,
    k: int,
)
    requires
        0 <= i <= k < entries.len(),
        forall|j: int| k < j < entries.len() ==> entries[j].0 != entries[k].0,
    ensures
        task_lookup(apply_local_from(acc, entries, i), entries[k].0) == Some(
            ResolvedTaskView { name: entries[k].0, def: entries[k].1, source: TaskSource::Local },
        ),
    decreases k - i,
{
    let t = ResolvedTaskView { name: entries[i].0, def: entries[i].1, source: TaskSource::Local };
    if i == k {
        lemma_upsert_lookup_same(acc, t);
        lemma_apply_local_keeps(upsert(acc, t), entries, k + 1, entries[k].0);
    } else {
        lemma_local_overrides_from(upsert(acc, t), entries, i + 1, k);
    }
}

/// Local wins: a task name declared in the local document — at its last
/// occurrence `k`, the only one when the names are unique — resolves to the
/// local definition with origin local, whatever the base holds for that
/// name.
pub proof fn lemma_local_overrides(
    acc: Seq<ResolvedTaskView>,
    entries: Seq<(Seq<char>, TaskDefView)>,
    k: int,
)
    requires
        0 <= k < entries.len(),
        forall|j: int| k < j < entries.len() ==> entries[j].0 != entries[k].0,
    ensures
        task_lookup(apply_local_from(acc, entries, 0), entries[k].0) == Some(
            ResolvedTaskView { name: entries[k].0, def: entries[k].1, source: TaskSource::Local },
        ),
{
    lemma_local_overrides_from(acc, entries, 0, k);
}

/// Local wins, read off the load itself: when two documents load and the
/// local one declares task `k` whose name repeats nowhere later in it, the
/// merged list resolves that name to the local definition with origin local —
/// whatever the global document declares under the same name.
pub proof fn lemma_load_spec_local_override(
    gdoc: (Seq<char>, Seq<char>),
    ldoc: (Seq<char>, Seq<char>),
    g_entries: Seq<(Seq<char>, TaskDefView)>,
    l_entries: Seq<(Seq<char>, TaskDefView)>,
    k: int,
)
    requires
        parse_config_spec(gdoc.1, gdoc.0) == Ok::<Seq<(Seq<char>, TaskDefView)>, ErrorView>(
            g_entries,
        ),
        parse_config_spec(ldoc.1, ldoc.0) == Ok::<Seq<(Seq<char>, TaskDefView)>, ErrorView>(
            l_entries,
        ),
        first_dup_from(g_entries, 0) is None,
        first_dup_from(l_entries, 0) is None,
        0 <= k < l_entries.len(),
        forall|j: int| k < j < l_entries.len() ==> l_entries[j].0 != l_entries[k].0,
    ensures
        ({
            let merged = apply_local_from(global_tasks(g_entries), l_entries, 0);
            &&& load_spec(Some(gdoc), Some(ldoc)) == Ok::<Seq<ResolvedTaskView>, ErrorView>(merged)
            &&& task_lookup(merged, l_entries[k].0) == Some(
                ResolvedTaskView {
                    name: l_entries[k].0,
                    def: l_entries[k].1,
                    source: TaskSource::Local,
                },
            )
        }),
{
    lemma_local_overrides(global_tasks(g_entries), l_entries, k);
}

} // verus!
