//! Which definition a call selects, over the files from the nearest to the
//! farthest.

use vstd::prelude::*;
use vstd::string::StringExecFns;
use crate::error::{Arity, Error};
use crate::jogfile::{covers, none_redundant, redundant, task_views, Task, TaskView};
use crate::text::str_view;

verus! {

/// A task file with its tasks, `distance` levels above the starting
/// directory.
#[derive(Clone, Debug, PartialEq, Eq)]
pub struct ConfigFile {
    pub path: String,
    pub tasks: Vec<Task>,
    pub distance: usize,
}

/// How a call was resolved.
#[derive(Clone, Debug, PartialEq, Eq)]
pub enum Resolution {
    /// The call selects task `task` of file `file`.
    Matched { file: usize, task: usize },
    /// No file declares the name.
    UnknownTask,
    /// The name is declared, with these arities, none of which fits.
    ArityMismatch { candidates: Vec<Arity> },
}

/// Whether a definition takes a call with `given` arguments.
pub open spec fn fits(task: TaskView, given: nat) -> bool {
    if task.rest {
        task.params.len() <= given
    } else {
        task.params.len() == given
    }
}

/// Task `t` of file `f` exists and has the name.
pub open spec fn named(files: Seq<ConfigFile>, f: int, t: int, name: Seq<char>) -> bool {
    0 <= f < files.len() && 0 <= t < files[f].tasks.len() && files[f].tasks[t]@.name == name
}

/// Task `t` of file `f` has the name and takes `given` arguments.
pub open spec fn hit(files: Seq<ConfigFile>, f: int, t: int, name: Seq<char>, given: nat) -> bool {
    named(files, f, t, name) && fits(files[f].tasks[t]@, given)
}

/// The order of the search: file by file, and within a file in the order of
/// declaration.
pub open spec fn earlier(f1: int, t1: int, f2: int, t2: int) -> bool {
    f1 < f2 || (f1 == f2 && t1 < t2)
}

/// The arity of a definition.
pub open spec fn arity_of(task: TaskView) -> Arity {
    Arity { params: task.params.len() as usize, rest: task.rest }
}

/// The arities of the definitions of `name` among the first `upto` tasks.
pub open spec fn same_named_in(tasks: Seq<Task>, name: Seq<char>, upto: int) -> Seq<Arity>
    decreases upto,
{
    if upto <= 0 {
        Seq::empty()
    } else if tasks[upto - 1]@.name == name {
        same_named_in(tasks, name, upto - 1).push(arity_of(tasks[upto - 1]@))
    } else {
        same_named_in(tasks, name, upto - 1)
    }
}

/// The arities of the definitions of `name` in the first `upto` files, in
/// the order of the search.
pub open spec fn same_named(files: Seq<ConfigFile>, name: Seq<char>, upto: int) -> Seq<Arity>
    decreases upto,
{
    if upto <= 0 {
        Seq::empty()
    } else {
        same_named(files, name, upto - 1) + same_named_in(
            files[upto - 1].tasks@,
            name,
            files[upto - 1].tasks.len() as int,
        )
    }
}

/// What the search for `name` with `given` arguments comes to.
pub open spec fn resolves_to(
    files: Seq<ConfigFile>,
    name: Seq<char>,
    given: nat,
    r: Resolution,
) -> bool {
    match r {
        Resolution::Matched { file, task } => {
            &&& hit(files, file as int, task as int, name, given)
            &&& forall|f: int, t: int|
                earlier(f, t, file as int, task as int) ==> !#[trigger] hit(files, f, t, name, given)
        },
        Resolution::UnknownTask => forall|f: int, t: int| !named(files, f, t, name),
        Resolution::ArityMismatch { candidates } => {
            &&& exists|f: int, t: int| named(files, f, t, name)
            &&& forall|f: int, t: int| !hit(files, f, t, name, given)
            &&& candidates@ == same_named(files, name, files.len() as int)
            &&& candidates.len() > 0
        },
    }
}

/// A call is resolved in one way only: to one definition, as unknown, or as
/// a mismatch with one list of candidates.
pub proof fn lemma_resolution_unique(
    files: Seq<ConfigFile>,
    name: Seq<char>,
    given: nat,
    a: Resolution,
    b: Resolution,
)
    requires
        resolves_to(files, name, given, a),
        resolves_to(files, name, given, b),
    ensures
        match (a, b) {
            (
                Resolution::Matched { file: f1, task: t1 },
                Resolution::Matched { file: f2, task: t2 },
            ) => f1 == f2 && t1 == t2,
            (Resolution::UnknownTask, Resolution::UnknownTask) => true,
            (
                Resolution::ArityMismatch { candidates: c1 },
                Resolution::ArityMismatch { candidates: c2 },
            ) => c1@ == c2@,
            _ => false,
        },
{
    match (a, b) {
        (
            Resolution::Matched { file: f1, task: t1 },
            Resolution::Matched { file: f2, task: t2 },
        ) => {
            assert(hit(files, f1 as int, t1 as int, name, given));
            assert(hit(files, f2 as int, t2 as int, name, given));
            assert(!earlier(f1 as int, t1 as int, f2 as int, t2 as int));
            assert(!earlier(f2 as int, t2 as int, f1 as int, t1 as int));
        },
        (Resolution::Matched { file, task }, _) => {
            assert(hit(files, file as int, task as int, name, given));
        },
        (_, Resolution::Matched { file, task }) => {
            assert(hit(files, file as int, task as int, name, given));
        },
        (Resolution::UnknownTask, Resolution::ArityMismatch { .. }) => {
            let (f, t) = choose|f: int, t: int| named(files, f, t, name);
            assert(named(files, f, t, name));
        },
        (Resolution::ArityMismatch { .. }, Resolution::UnknownTask) => {
            let (f, t) = choose|f: int, t: int| named(files, f, t, name);
            assert(named(files, f, t, name));
        },
        _ => {},
    }
}

fn takes(task: &Task, given: usize) -> (b: bool)
    ensures
        b == fits(task@, given as nat),
{
    if task.rest {
        task.params.len() <= given
    } else {
        task.params.len() == given
    }
}

/// Searches the files in order, and each file in the order of declaration,
/// for the first definition of `name` that takes `given` arguments.
pub fn resolve(files: &[ConfigFile], name: &str, given: usize) -> (r: Resolution)
    ensures
        resolves_to(files@, name@, given as nat, r),
{
    let wanted = String::from_str(name);
    let mut candidates: Vec<Arity> = Vec::new();
    let ghost mut seen: (int, int) = (0, 0);
    let mut f: usize = 0;
    while f < files.len()
        invariant
            f <= files.len(),
            wanted@ == name@,
            candidates@ == same_named(files@, name@, f as int),
            forall|g: int, t: int| g < f ==> !#[trigger] hit(files@, g, t, name@, given as nat),
            candidates.len() == 0 ==> forall|g: int, t: int| g < f ==> !#[trigger] named(files@, g, t, name@),
            candidates.len() > 0 ==> named(files@, seen.0, seen.1, name@),
        decreases files.len() - f,
    {
        let tasks = &files[f].tasks;
        let ghost before = candidates@;
        let mut t: usize = 0;
        while t < tasks.len()
            invariant
                f < files.len(),
                tasks == &files[f as int].tasks,
                t <= tasks.len(),
                wanted@ == name@,
                before == same_named(files@, name@, f as int),
                candidates@ == before + same_named_in(tasks@, name@, t as int),
                forall|g: int, u: int|
                    earlier(g, u, f as int, t as int) ==> !#[trigger] hit(files@, g, u, name@, given as nat),
                candidates.len() == 0 ==> forall|g: int, u: int|
                    earlier(g, u, f as int, t as int) ==> !#[trigger] named(files@, g, u, name@),
                candidates.len() > 0 ==> named(files@, seen.0, seen.1, name@),
            decreases tasks.len() - t,
        {
            let task = &tasks[t];
            if task.name == wanted {
                if takes(task, given) {
                    return Resolution::Matched { file: f, task: t };
                }
                candidates.push(Arity { params: task.params.len(), rest: task.rest });
                proof {
                    seen = (f as int, t as int);
                    assert(candidates@ =~= before + same_named_in(tasks@, name@, t + 1));
                }
            }
            t += 1;
        }
        f += 1;
    }
    if candidates.len() == 0 {
        Resolution::UnknownTask
    } else {
        Resolution::ArityMismatch { candidates }
    }
}

/// Whether `err` is what a call that selects no definition fails with:
/// that there is no file at all, that no file declares the name, or that no
/// definition of the name takes the arguments.  The last two are reported
/// under the path of the nearest file.
pub open spec fn select_fails_with(
    files: Seq<ConfigFile>,
    name: Seq<char>,
    given: nat,
    err: Error,
) -> bool {
    if files.len() == 0 {
        err is Discovery
    } else {
        match err {
            Error::UnknownTask { path, name: n } => {
                &&& resolves_to(files, name, given, Resolution::UnknownTask)
                &&& path@ == files[0].path@
                &&& n@ == name
            },
            Error::ArityMismatch { path, name: n, candidates, given: g } => {
                &&& resolves_to(files, name, given, Resolution::ArityMismatch { candidates })
                &&& path@ == files[0].path@
                &&& n@ == name
                &&& g == given
            },
            _ => false,
        }
    }
}

/// Resolves a call as `resolve` does, and reports a call that selects no
/// definition as an error.
pub fn select(files: &[ConfigFile], name: &str, given: usize) -> (r: Result<(usize, usize), Error>)
    ensures
        match r {
            Ok((file, task)) => resolves_to(
                files@,
                name@,
                given as nat,
                Resolution::Matched { file, task },
            ),
            Err(err) => select_fails_with(files@, name@, given as nat, err),
        },
{
    if files.len() == 0 {
        return Err(Error::Discovery);
    }
    match resolve(files, name, given) {
        Resolution::Matched { file, task } => Ok((file, task)),
        Resolution::UnknownTask => Err(
            Error::UnknownTask { path: files[0].path.clone(), name: String::from_str(name) },
        ),
        Resolution::ArityMismatch { candidates } => Err(
            Error::ArityMismatch {
                path: files[0].path.clone(),
                name: String::from_str(name),
                candidates,
                given,
            },
        ),
    }
}

/// Whether a task of this name is listed under the filter: every task where
/// there is none, else those of the filter's name.
pub open spec fn passes(name: Seq<char>, filter: Option<Seq<char>>) -> bool {
    match filter {
        Some(wanted) => name == wanted,
        None => true,
    }
}

/// The positions in file `f` of the tasks among its first `upto` that pass
/// the filter.
pub open spec fn listed_in(tasks: Seq<Task>, f: usize, filter: Option<Seq<char>>, upto: int) -> Seq<
    (usize, usize),
>
    decreases upto,
{
    if upto <= 0 {
        Seq::empty()
    } else if passes(tasks[upto - 1]@.name, filter) {
        listed_in(tasks, f, filter, upto - 1).push((f, (upto - 1) as usize))
    } else {
        listed_in(tasks, f, filter, upto - 1)
    }
}

/// The positions, as file and task, of the tasks in the first `upto` files
/// that pass the filter, in the order of the search.
pub open spec fn listed(files: Seq<ConfigFile>, filter: Option<Seq<char>>, upto: int) -> Seq<
    (usize, usize),
>
    decreases upto,
{
    if upto <= 0 {
        Seq::empty()
    } else {
        listed(files, filter, upto - 1) + listed_in(
            files[upto - 1].tasks@,
            (upto - 1) as usize,
            filter,
            files[upto - 1].tasks.len() as int,
        )
    }
}

/// Lists the tasks of all files, or those of one name, as positions: the
/// index of the file and the index of the task in it.
pub fn list_tasks(files: &[ConfigFile], filter: Option<&str>) -> (found: Vec<(usize, usize)>)
    ensures
        found@ == listed(files@, str_view(filter), files.len() as int),
{
    let wanted: Option<String> = match filter {
        Some(name) => Some(String::from_str(name)),
        None => None,
    };
    let mut found: Vec<(usize, usize)> = Vec::new();
    let mut f: usize = 0;
    while f < files.len()
        invariant
            f <= files.len(),
            wanted is Some <==> filter is Some,
            wanted is Some ==> wanted->0@ == filter->0@,
            found@ == listed(files@, str_view(filter), f as int),
        decreases files.len() - f,
    {
        let tasks = &files[f].tasks;
        let ghost before = found@;
        let mut t: usize = 0;
        while t < tasks.len()
            invariant
                f < files.len(),
                tasks == &files[f as int].tasks,
                t <= tasks.len(),
                wanted is Some <==> filter is Some,
                wanted is Some ==> wanted->0@ == filter->0@,
                found@ == before + listed_in(tasks@, f, str_view(filter), t as int),
            decreases tasks.len() - t,
        {
            let pass = match &wanted {
                Some(name) => tasks[t].name == *name,
                None => true,
            };
            if pass {
                found.push((f, t));
                assert(found@ =~= before + listed_in(tasks@, f, str_view(filter), t + 1));
            }
            t += 1;
        }
        f += 1;
    }
    found
}

/// An earlier definition is redundant for a later one of the same name just
/// when it takes every call that the later one takes: the later one is then
/// never reached.
pub proof fn lemma_redundant_takes_every_call(a: TaskView, b: TaskView)
    requires
        a.name == b.name,
    ensures
        redundant(a, b) <==> forall|given: nat| fits(b, given) ==> fits(a, given),
{
    if forall|given: nat| fits(b, given) ==> fits(a, given) {
        assert(fits(b, b.params.len()));
        assert(fits(a, b.params.len()));
        if b.rest {
            assert(fits(b, b.params.len() + 1));
            assert(fits(a, b.params.len() + 1));
        }
    }
}

/// A definition that an earlier one of its file covers is never selected,
/// whatever the call.
pub proof fn lemma_covered_is_never_selected(
    files: Seq<ConfigFile>,
    file: usize,
    earlier_task: int,
    task: usize,
    name: Seq<char>,
    given: nat,
)
    requires
        0 <= file < files.len(),
        covers(
            task_views(files[file as int].tasks@),
            earlier_task,
            task as int,
        ),
    ensures
        !resolves_to(files, name, given, Resolution::Matched { file, task }),
{
    let tasks = task_views(files[file as int].tasks@);
    if resolves_to(files, name, given, Resolution::Matched { file, task }) {
        assert(hit(files, file as int, task as int, name, given));
        lemma_redundant_takes_every_call(tasks[earlier_task], tasks[task as int]);
        assert(fits(tasks[task as int], given));
        assert(hit(files, file as int, earlier_task, name, given));
        assert(earlier(file as int, earlier_task, file as int, task as int));
    }
}

/// In a file that holds no redundant definition, each definition takes some
/// call that a given earlier definition of its name does not take.
pub proof fn lemma_later_takes_more(tasks: Seq<TaskView>, j: int)
    requires
        none_redundant(tasks),
        0 <= j < tasks.len(),
    ensures
        forall|i: int|
            0 <= i < j && tasks[i].name == tasks[j].name ==> exists|given: nat|
                fits(tasks[j], given) && !fits(#[trigger] tasks[i], given),
{
    assert forall|i: int| 0 <= i < j && tasks[i].name == tasks[j].name implies exists|given: nat|
        fits(tasks[j], given) && !fits(#[trigger] tasks[i], given) by {
        assert(!covers(tasks, i, j));
        lemma_redundant_takes_every_call(tasks[i], tasks[j]);
    }
}

} // verus!
