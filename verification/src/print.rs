//! The wording of what is reported to the user.

use vstd::prelude::*;
use vstd::string::StringExecFns;
use crate::error::{Arity, Error};
use crate::jogfile::{Task, TaskView};
use crate::resolve::arity_of;
use crate::text::{decimal, push_decimal};

verus! {

/// An arity as it is shown: the number of parameters, with a plus sign where
/// more arguments may follow.
pub open spec fn count_text(a: Arity) -> Seq<char> {
    if a.rest {
        decimal(a.params as nat).push('+')
    } else {
        decimal(a.params as nat)
    }
}

/// The first `upto` arities, separated by commas.
pub open spec fn listed(c: Seq<Arity>, upto: int) -> Seq<char>
    decreases upto,
{
    if upto <= 1 {
        count_text(c[0])
    } else {
        listed(c, upto - 1) + ", "@ + count_text(c[upto - 1])
    }
}

/// The arities as an enumeration: `1`, `1 or 2+`, `0, 1, or 3+`.
pub open spec fn counts_text(c: Seq<Arity>) -> Seq<char> {
    if c.len() == 1 {
        count_text(c[0])
    } else if c.len() == 2 {
        count_text(c[0]) + " or "@ + count_text(c[1])
    } else {
        listed(c, c.len() - 1) + ", "@ + "or "@ + count_text(c.last())
    }
}

/// The word for the parameters: singular only for a single definition with
/// one parameter.
pub open spec fn parameter_word(c: Seq<Arity>) -> Seq<char> {
    if c.len() > 1 || c[0].params != 1 {
        " parameters"@
    } else {
        " parameter"@
    }
}

/// How many arguments were given, as a clause.
pub open spec fn given_text(given: nat) -> Seq<char> {
    if given == 1 {
        decimal(given) + " was given"@
    } else {
        decimal(given) + " were given"@
    }
}

/// The complaint about a call of `name` with `given` arguments where its
/// definitions have the arities `c`, of which there is at least one.
pub open spec fn mismatch_text(c: Seq<Arity>, name: Seq<char>, given: nat) -> Seq<char> {
    "task '"@ + name + "' takes "@ + counts_text(c) + parameter_word(c) + ", but "@ + given_text(
        given,
    )
}

/// The arity of each of the tasks.
pub open spec fn arities(tasks: Seq<Task>) -> Seq<Arity> {
    Seq::new(tasks.len(), |i: int| arity_of(tasks[i]@))
}

fn param_count(a: &Arity) -> (s: String)
    ensures
        s@ == count_text(*a),
{
    let mut s = String::new();
    push_decimal(&mut s, a.params as u64);
    assert(s@ =~= decimal(a.params as nat));
    if a.rest {
        s.push('+');
    }
    s
}

fn counts(c: &[Arity]) -> (s: String)
    requires
        c.len() > 0,
    ensures
        s@ == counts_text(c@),
{
    let mut s = param_count(&c[0]);
    if c.len() == 2 {
        s.append(" or ");
        s.append(param_count(&c[1]).as_str());
    } else if c.len() > 2 {
        let last = c.len() - 1;
        let mut i: usize = 1;
        while i < last
            invariant
                1 <= i <= last,
                last == c.len() - 1,
                s@ == listed(c@, i as int),
            decreases last - i,
        {
            s.append(", ");
            s.append(param_count(&c[i]).as_str());
            i += 1;
        }
        s.append(", ");
        s.append("or ");
        s.append(param_count(&c[last]).as_str());
    }
    s
}

/// The message for a call that no definition of the task takes.
pub fn arity_mismatch_msg(candidates: &[Arity], name: &str, given: usize) -> (msg: String)
    requires
        candidates.len() > 0,
    ensures
        msg@ == mismatch_text(candidates@, name@, given as nat),
{
    let mut msg = String::from_str("task '");
    msg.append(name);
    msg.append("' takes ");
    msg.append(counts(candidates).as_str());
    if candidates.len() > 1 || candidates[0].params != 1 {
        msg.append(" parameters");
    } else {
        msg.append(" parameter");
    }
    msg.append(", but ");
    let mut args_msg = String::new();
    push_decimal(&mut args_msg, given as u64);
    assert(args_msg@ =~= decimal(given as nat));
    if given == 1 {
        args_msg.append(" was given");
    } else {
        args_msg.append(" were given");
    }
    msg.append(args_msg.as_str());
    msg
}

/// The message for a call of `name` with `args` where `tasks`, all the
/// definitions of that name, take other numbers of arguments.
pub fn mismatched_args_msg(tasks: &[Task], name: &str, args: &[String]) -> (msg: String)
    requires
        tasks.len() > 0,
    ensures
        msg@ == mismatch_text(arities(tasks@), name@, args.len() as nat),
{
    let mut candidates: Vec<Arity> = Vec::new();
    let mut i: usize = 0;
    while i < tasks.len()
        invariant
            i <= tasks.len(),
            candidates@ == arities(tasks@).take(i as int),
        decreases tasks.len() - i,
    {
        candidates.push(Arity { params: tasks[i].params.len(), rest: tasks[i].rest });
        i += 1;
        assert(candidates@ =~= arities(tasks@).take(i as int));
    }
    assert(candidates@ =~= arities(tasks@));
    arity_mismatch_msg(candidates.as_slice(), name, args.len())
}

/// Whether output is coloured.
#[derive(Clone, Copy, Debug, PartialEq, Eq, Structural)]
pub enum ColorChoice {
    /// Where the terminal shows colours.
    Auto,
    /// Not at all.
    Never,
}

/// Colours are for terminals: what is written elsewhere stays plain.
pub fn color_choice(is_terminal: bool) -> (choice: ColorChoice)
    ensures
        choice == if is_terminal {
            ColorChoice::Auto
        } else {
            ColorChoice::Never
        },
{
    if is_terminal {
        ColorChoice::Auto
    } else {
        ColorChoice::Never
    }
}

/// A place in a file: the path, a colon and the line number.
pub open spec fn place_text(path: Seq<char>, line: nat) -> Seq<char> {
    path + ":"@ + decimal(line)
}

fn place(path: &String, line: usize) -> (s: String)
    ensures
        s@ == place_text(path@, line as nat),
{
    let mut s = path.clone();
    s.append(":");
    push_decimal(&mut s, line as u64);
    s
}

/// The first `upto` parameters, each after a space.
pub open spec fn params_upto(params: Seq<Seq<char>>, upto: int) -> Seq<char>
    decreases upto,
{
    if upto <= 0 {
        Seq::empty()
    } else {
        params_upto(params, upto - 1) + " "@ + params[upto - 1]
    }
}

/// What follows a task's name in a listing: its parameters, and the rest
/// marker where it takes more arguments, each after a space.
pub open spec fn params_text(task: TaskView) -> Seq<char> {
    if task.rest {
        params_upto(task.params, task.params.len() as int) + " ..."@
    } else {
        params_upto(task.params, task.params.len() as int)
    }
}

/// The parameters of a task as a listing shows them after its name.
pub fn params(task: &Task) -> (s: String)
    ensures
        s@ == params_text(task@),
{
    let mut s = String::new();
    let mut i: usize = 0;
    while i < task.params.len()
        invariant
            i <= task.params.len(),
            s@ == params_upto(task@.params, i as int),
        decreases task.params.len() - i,
    {
        s.append(" ");
        s.append(task.params[i].as_str());
        i += 1;
    }
    if task.rest {
        s.append(" ...");
    }
    s
}

impl Error {
    /// An arity mismatch names at least one definition.
    pub open spec fn wf(&self) -> bool {
        match self {
            Error::ArityMismatch { candidates, .. } => candidates.len() > 0,
            _ => true,
        }
    }

    /// What the error says.
    pub open spec fn message_text(&self) -> Seq<char> {
        match self {
            Error::Discovery => "jogfile not found"@,
            Error::Parse { path, line } => place_text(path@, *line as nat)
                + ": malformed task: indented header"@,
            Error::Validation { path, earlier_line, later_line, name } => place_text(
                path@,
                *later_line as nat,
            ) + ": redundant definition for '"@ + name@ + "', already covered by "@ + place_text(
                path@,
                *earlier_line as nat,
            ),
            Error::UnknownTask { path, name } => path@ + ": unknown task '"@ + name@ + "'"@,
            Error::ArityMismatch { path, name, candidates, given } => path@ + ": "@
                + mismatch_text(candidates@, name@, *given as nat),
            Error::RecursionLimit { path, line, name, given } => place_text(path@, *line as nat)
                + ": maximum recursion depth exceeded running '"@ + name@ + "' with "@ + decimal(
                *given as nat,
            ) + (if *given == 1 {
                " argument"@
            } else {
                " arguments"@
            }),
            Error::Environment { variable } => "environment variable "@ + variable@
                + " is not set or not usable"@,
            Error::Process => "the shell left neither an exit code nor a signal"@,
        }
    }

    /// The message of the error, as one line without a line ending.
    pub fn message(&self) -> (msg: String)
        requires
            self.wf(),
        ensures
            msg@ == self.message_text(),
    {
        match self {
            Error::Discovery => String::from_str("jogfile not found"),
            Error::Parse { path, line } => {
                let mut msg = place(path, *line);
                msg.append(": malformed task: indented header");
                msg
            },
            Error::Validation { path, earlier_line, later_line, name } => {
                let mut msg = place(path, *later_line);
                msg.append(": redundant definition for '");
                msg.append(name.as_str());
                msg.append("', already covered by ");
                msg.append(place(path, *earlier_line).as_str());
                msg
            },
            Error::UnknownTask { path, name } => {
                let mut msg = path.clone();
                msg.append(": unknown task '");
                msg.append(name.as_str());
                msg.append("'");
                msg
            },
            Error::ArityMismatch { path, name, candidates, given } => {
                let mut msg = path.clone();
                msg.append(": ");
                msg.append(
                    arity_mismatch_msg(candidates.as_slice(), name.as_str(), *given).as_str(),
                );
                msg
            },
            Error::RecursionLimit { path, line, name, given } => {
                let mut msg = place(path, *line);
                msg.append(": maximum recursion depth exceeded running '");
                msg.append(name.as_str());
                msg.append("' with ");
                push_decimal(&mut msg, *given as u64);
                if *given == 1 {
                    msg.append(" argument");
                } else {
                    msg.append(" arguments");
                }
                msg
            },
            Error::Environment { variable } => {
                let mut msg = String::from_str("environment variable ");
                msg.append(variable.as_str());
                msg.append(" is not set or not usable");
                msg
            },
            Error::Process => String::from_str("the shell left neither an exit code nor a signal"),
        }
    }
}

} // verus!
