//! What is handed to the shell to run a task, and what its end means.

use vstd::prelude::*;
use vstd::string::StringExecFns;
use crate::error::Error;
use crate::jogfile::{Task, TaskView};
use crate::resolve::{
    lemma_resolution_unique, resolves_to, select, select_fails_with, ConfigFile, Resolution,
};
use crate::text::{
    decimal_string, lemma_decimal_round_trip, parse_i32, parsed_i32, signed_decimal, str_view,
    string_view, strs,
};

verus! {

/// The variable that names the user's shell.
pub const SHELL: &'static str = "SHELL";

/// The variable that counts how deep in nested calls a task runs.
pub const DEPTH: &'static str = "JOG_DEPTH";

/// The variable that overrides the greatest depth allowed.
pub const MAX_DEPTH: &'static str = "JOG_MAX_DEPTH";

/// The depth of a call that no task made.
pub const DEFAULT_DEPTH: i32 = 0;

/// The greatest depth allowed where nothing overrides it.
pub const DEFAULT_MAX_DEPTH: i32 = 100;

/// The exit code of a run that failed before any task ended.
pub const FAILURE: i32 = 1;

/// One call of the shell: the program, the variables added to its
/// environment, and its arguments.
#[derive(Clone, Debug, PartialEq, Eq)]
pub struct Invocation {
    pub shell: String,
    pub env: Vec<(String, String)>,
    pub args: Vec<String>,
}

/// What each pair of strings holds.
pub open spec fn pairs(v: Seq<(String, String)>) -> Seq<(Seq<char>, Seq<char>)> {
    Seq::new(v.len(), |i: int| (v[i].0@, v[i].1@))
}

/// Each parameter with the argument in its place, unchanged.
pub open spec fn bindings(params: Seq<Seq<char>>, args: Seq<Seq<char>>) -> Seq<
    (Seq<char>, Seq<char>),
> {
    Seq::new(params.len(), |i: int| (params[i], args[i]))
}

/// The arguments that no parameter took.  They are passed on only to a task
/// with a rest parameter.
pub open spec fn rest_args(task: TaskView, args: Seq<Seq<char>>) -> Seq<Seq<char>> {
    if task.rest {
        args.subrange(task.params.len() as int, args.len() as int)
    } else {
        Seq::empty()
    }
}

/// The arguments of the shell: the body as the script, `script_name` as the
/// name it runs under, and the arguments that are passed on.
pub open spec fn shell_args(task: TaskView, script_name: Seq<char>, args: Seq<Seq<char>>) -> Seq<
    Seq<char>,
> {
    seq!["-c"@, task.body, script_name] + rest_args(task, args)
}

/// What a child process finds under `name` in its environment, to which the
/// pairs of `env` were added in order: the value of the last pair of that
/// name, if there is one.
pub open spec fn env_value(env: Seq<(Seq<char>, Seq<char>)>, name: Seq<char>) -> Option<Seq<char>>
    decreases env.len(),
{
    if env.len() == 0 {
        None
    } else if env.last().0 == name {
        Some(env.last().1)
    } else {
        env_value(env.drop_last(), name)
    }
}

fn bind(params: &Vec<String>, args: &[String]) -> (env: Vec<(String, String)>)
    requires
        params.len() <= args.len(),
    ensures
        pairs(env@) == bindings(strs(params@), strs(args@)),
{
    let mut env: Vec<(String, String)> = Vec::new();
    let mut i: usize = 0;
    while i < params.len()
        invariant
            i <= params.len() <= args.len(),
            env.len() == i,
            pairs(env@) == bindings(strs(params@), strs(args@)).take(i as int),
        decreases params.len() - i,
    {
        env.push((params[i].clone(), args[i].clone()));
        i += 1;
        assert(pairs(env@) =~= bindings(strs(params@), strs(args@)).take(i as int));
    }
    assert(pairs(env@) =~= bindings(strs(params@), strs(args@)));
    env
}

fn arguments(task: &Task, script_name: &str, args: &[String]) -> (out: Vec<String>)
    requires
        task.params.len() <= args.len(),
    ensures
        strs(out@) == shell_args(task@, script_name@, strs(args@)),
{
    let mut out: Vec<String> = Vec::new();
    out.push(String::from_str("-c"));
    out.push(task.body.clone());
    out.push(String::from_str(script_name));
    if !task.rest {
        assert(strs(out@) =~= shell_args(task@, script_name@, strs(args@)));
        return out;
    }
    let first = task.params.len();
    let mut i: usize = first;
    while i < args.len()
        invariant
            first == task.params.len(),
            first <= i <= args.len(),
            out.len() == 3 + (i - first),
            strs(out@) == seq!["-c"@, task.body@, script_name@] + strs(args@).subrange(
                first as int,
                i as int,
            ),
        decreases args.len() - i,
    {
        let ghost before = out@;
        out.push(args[i].clone());
        i += 1;
        let ghost head = seq!["-c"@, task.body@, script_name@];
        let ghost was = head + strs(args@).subrange(first as int, i - 1);
        let ghost now = head + strs(args@).subrange(first as int, i as int);
        assert forall|k: int| 0 <= k < before.len() implies strs(out@)[k] == now[k] by {
            assert(strs(before)[k] == was[k]);
        }
        assert(strs(out@) =~= now);
    }
    out
}

/// Whether `r` is what preparing a call of `task`, declared in the file
/// `path`, comes to.  Beyond the greatest depth it fails; without a shell it
/// fails; else each parameter is bound to its argument as it stands, the
/// depth handed on is one more than the call's own, and the path is the
/// script's name, which the arguments of a rest parameter follow.
pub open spec fn runs_as(
    task: TaskView,
    path: Seq<char>,
    args: Seq<Seq<char>>,
    depth: int,
    max_depth: int,
    shell: Option<Seq<char>>,
    r: Result<Invocation, Error>,
) -> bool {
    if depth > max_depth {
        r matches Err(Error::RecursionLimit { path: p, line, name, given }) && p@ == path && line
            == task.line_no && name@ == task.name && given == args.len()
    } else {
        match shell {
            None => r matches Err(Error::Environment { variable }) && variable@ == SHELL@,
            Some(program) => r matches Ok(call) && call.shell@ == program && pairs(call.env@)
                == bindings(task.params, args).push((DEPTH@, signed_decimal(depth + 1)))
                && strs(call.args@) == shell_args(task, path, args),
        }
    }
}

impl Task {
    /// Prepares the call of the shell that runs the task, declared in the
    /// file `path`, with `args`.  `depth` and `max_depth` are the nesting
    /// depth of the call and the greatest one allowed; `shell` is the user's
    /// shell, where the environment names one.
    ///
    /// A parameter that a header names twice is bound twice, in the order of
    /// the header: the environment then keeps the later binding.
    pub fn run(
        &self,
        path: &str,
        args: &[String],
        depth: i32,
        max_depth: i32,
        shell: Option<String>,
    ) -> (r: Result<Invocation, Error>)
        requires
            self.params.len() <= args.len(),
        ensures
            runs_as(
                self@,
                path@,
                strs(args@),
                depth as int,
                max_depth as int,
                string_view(shell),
                r,
            ),
    {
        if depth > max_depth {
            return Err(
                Error::RecursionLimit {
                    path: String::from_str(path),
                    line: self.line_no,
                    name: self.name.clone(),
                    given: args.len(),
                },
            );
        }
        match shell {
            None => Err(Error::Environment { variable: String::from_str(SHELL) }),
            Some(shell) => {
                let mut env = bind(&self.params, args);
                let ghost bound = env@;
                env.push((String::from_str(DEPTH), decimal_string(depth as i64 + 1)));
                assert(pairs(env@) =~= pairs(bound).push((DEPTH@, signed_decimal(depth + 1))));
                Ok(Invocation { shell, env, args: arguments(self, path, args) })
            },
        }
    }
}

/// Prepares the call of the shell that runs `task`, declared in the file
/// `path`, with `args`: `Task::run` as a function.
pub fn run(
    task: &Task,
    path: &str,
    args: &[String],
    depth: i32,
    max_depth: i32,
    shell: Option<String>,
) -> (r: Result<Invocation, Error>)
    requires
        task.params.len() <= args.len(),
    ensures
        runs_as(
            task@,
            path@,
            strs(args@),
            depth as int,
            max_depth as int,
            string_view(shell),
            r,
        ),
{
    task.run(path, args, depth, max_depth, shell)
}

/// Among the first `upto` bindings of parameters that differ from each
/// other, each parameter is found with its own argument.
pub proof fn lemma_bound_value(params: Seq<Seq<char>>, args: Seq<Seq<char>>, upto: int, i: int)
    requires
        0 <= i < upto <= params.len() <= args.len(),
        forall|j: int, k: int| 0 <= j < k < params.len() ==> params[j] != params[k],
    ensures
        env_value(bindings(params, args).take(upto), params[i]) == Some(args[i]),
    decreases upto,
{
    let bound = bindings(params, args).take(upto);
    assert(bound.last() == (params[upto - 1], args[upto - 1]));
    if i < upto - 1 {
        assert(bound.drop_last() =~= bindings(params, args).take(upto - 1));
        lemma_bound_value(params, args, upto - 1, i);
    }
}

/// Every argument reaches the child unchanged: where a call is prepared for
/// a task whose parameters differ from each other and from the name of the
/// depth counter, the child finds under each parameter the argument in its
/// place, as it was given, and under the depth counter one more than the
/// depth of the call.
pub proof fn lemma_arguments_reach_the_child(
    task: TaskView,
    path: Seq<char>,
    args: Seq<Seq<char>>,
    depth: int,
    max_depth: int,
    shell: Seq<char>,
    r: Result<Invocation, Error>,
)
    requires
        runs_as(task, path, args, depth, max_depth, Some(shell), r),
        depth <= max_depth,
        task.params.len() <= args.len(),
        forall|j: int, k: int| 0 <= j < k < task.params.len() ==> task.params[j] != task.params[k],
        forall|j: int| 0 <= j < task.params.len() ==> task.params[j] != DEPTH@,
    ensures
        r matches Ok(call) && {
            &&& forall|i: int|
                0 <= i < task.params.len() ==> env_value(pairs(call.env@), #[trigger] task.params[i])
                    == Some(args[i])
            &&& env_value(pairs(call.env@), DEPTH@) == Some(signed_decimal(depth + 1))
        },
{
    let bound = bindings(task.params, args);
    let env = bound.push((DEPTH@, signed_decimal(depth + 1)));
    assert(env.drop_last() =~= bound);
    assert(bound.take(bound.len() as int) =~= bound);
    assert forall|i: int| 0 <= i < task.params.len() implies env_value(
        env,
        #[trigger] task.params[i],
    ) == Some(args[i]) by {
        lemma_bound_value(task.params, args, task.params.len() as int, i);
    }
}

/// The value of an integer variable of the environment: the default where the
/// variable is not set, else the integer that its value denotes.
pub fn parse_env_or_default(variable: &str, value: Option<&str>, default: i32) -> (r: Result<
    i32,
    Error,
>)
    ensures
        match variable_value(str_view(value), default) {
            Some(n) => r == Ok::<i32, Error>(n),
            None => r matches Err(Error::Environment { variable: v }) && v@ == variable@,
        },
{
    match value {
        None => Ok(default),
        Some(text) => match parse_i32(text) {
            Some(n) => Ok(n),
            None => Err(Error::Environment { variable: String::from_str(variable) }),
        },
    }
}

/// The value of an integer variable: the default where it is not set, else
/// the integer that its value denotes, if any.
pub open spec fn variable_value(value: Option<Seq<char>>, default: i32) -> Option<i32> {
    match value {
        None => Some(default),
        Some(text) => parsed_i32(text),
    }
}

/// Whether `r` is what preparing the call `name` with `args` comes to, over
/// these files and with these values of the depth, of the greatest depth and
/// of the shell in the environment.  A call that selects no definition fails
/// as the selection does; a depth that is set to something else than an
/// integer fails under the variable's name, the depth before the greatest
/// depth; else the selected task is prepared.
pub open spec fn prepared(
    files: Seq<ConfigFile>,
    name: Seq<char>,
    args: Seq<Seq<char>>,
    depth: Option<Seq<char>>,
    max_depth: Option<Seq<char>>,
    shell: Option<Seq<char>>,
    r: Result<Invocation, Error>,
) -> bool {
    &&& (forall|f: usize, t: usize|
        !resolves_to(files, name, args.len(), Resolution::Matched { file: f, task: t })) ==> (r matches Err(
        err,
    ) && select_fails_with(files, name, args.len(), err))
    &&& forall|f: usize, t: usize| #[trigger]
        resolves_to(files, name, args.len(), Resolution::Matched { file: f, task: t }) ==> (match (
            variable_value(depth, DEFAULT_DEPTH),
            variable_value(max_depth, DEFAULT_MAX_DEPTH),
        ) {
            (None, _) => r matches Err(Error::Environment { variable }) && variable@ == DEPTH@,
            (Some(_), None) => r matches Err(Error::Environment { variable }) && variable@
                == MAX_DEPTH@,
            (Some(d), Some(m)) => runs_as(
                files[f as int].tasks[t as int]@,
                files[f as int].path@,
                args,
                d as int,
                m as int,
                shell,
                r,
            ),
        })
}

/// Prepares the call of the shell for the call `name` with `args`: selects
/// the definition, reads the depth and the greatest depth from the values of
/// their variables, and prepares the selected task.
pub fn prepare(
    files: &[ConfigFile],
    name: &str,
    args: &[String],
    depth: Option<&str>,
    max_depth: Option<&str>,
    shell: Option<String>,
) -> (r: Result<Invocation, Error>)
    ensures
        prepared(
            files@,
            name@,
            strs(args@),
            str_view(depth),
            str_view(max_depth),
            string_view(shell),
            r,
        ),
{
    let ghost given = args.len() as nat;
    assert(strs(args@).len() == given);
    let (file, task) = match select(files, name, args.len()) {
        Ok(found) => found,
        Err(err) => {
            assert forall|f: usize, t: usize|
                !resolves_to(
                    files@,
                    name@,
                    given,
                    Resolution::Matched { file: f, task: t },
                ) by {
                if resolves_to(files@, name@, given, Resolution::Matched { file: f, task: t }) {
                    match err {
                        Error::UnknownTask { .. } => {
                            lemma_resolution_unique(
                                files@,
                                name@,
                                given,
                                Resolution::Matched { file: f, task: t },
                                Resolution::UnknownTask,
                            );
                        },
                        Error::ArityMismatch { candidates, .. } => {
                            lemma_resolution_unique(
                                files@,
                                name@,
                                given,
                                Resolution::Matched { file: f, task: t },
                                Resolution::ArityMismatch { candidates },
                            );
                        },
                        _ => {},
                    }
                }
            }
            return Err(err);
        },
    };
    assert forall|f: usize, t: usize|
        resolves_to(
            files@,
            name@,
            given,
            Resolution::Matched { file: f, task: t },
        ) implies f == file && t == task by {
        lemma_resolution_unique(
            files@,
            name@,
            given,
            Resolution::Matched { file: f, task: t },
            Resolution::Matched { file, task },
        );
    }
    let depth = match parse_env_or_default(DEPTH, depth, DEFAULT_DEPTH) {
        Ok(depth) => depth,
        Err(err) => {
            return Err(err);
        },
    };
    let max_depth = match parse_env_or_default(MAX_DEPTH, max_depth, DEFAULT_MAX_DEPTH) {
        Ok(max_depth) => max_depth,
        Err(err) => {
            return Err(err);
        },
    };
    files[file].tasks[task].run(files[file].path.as_str(), args, depth, max_depth, shell)
}

/// The depth that a call hands on is the depth that a call within it reads.
pub proof fn lemma_depth_is_handed_on(depth: i32)
    requires
        depth < i32::MAX,
    ensures
        parsed_i32(signed_decimal(depth + 1)) == Some((depth + 1) as i32),
{
    lemma_decimal_round_trip(depth + 1);
}

/// The exit code that stands for the way the shell ended: its own exit code
/// where it has one, else the number of the signal that ended it.
pub fn exit_code(code: Option<i32>, signal: Option<i32>) -> (r: Result<i32, Error>)
    ensures
        r == (match (code, signal) {
            (Some(c), _) => Ok::<i32, Error>(c),
            (None, Some(s)) => Ok(s),
            (None, None) => Err(Error::Process),
        }),
{
    match code {
        Some(c) => Ok(c),
        None => match signal {
            Some(s) => Ok(s),
            None => Err(Error::Process),
        },
    }
}

} // verus!
