//! Task files: their grammar, and the rule that no definition in a file is
//! redundant for a later one.

use vstd::prelude::*;
use vstd::string::StringExecFns;
use crate::error::Error;
use crate::text::{
    is_space, is_whitespace, lemma_scan, lemma_words, line_views, lines_of, non_space, scan,
    split_lines, split_words, strs, words_of,
};

verus! {

/// One task definition.
#[derive(Clone, Debug, PartialEq, Eq)]
pub struct Task {
    pub name: String,
    pub params: Vec<String>,
    pub rest: bool,
    pub body: String,
    pub line_no: usize,
}

/// What a task definition says.
pub struct TaskView {
    pub name: Seq<char>,
    pub params: Seq<Seq<char>>,
    pub rest: bool,
    pub body: Seq<char>,
    pub line_no: nat,
}

impl View for Task {
    type V = TaskView;

    open spec fn view(&self) -> TaskView {
        TaskView {
            name: self.name@,
            params: strs(self.params@),
            rest: self.rest,
            body: self.body@,
            line_no: self.line_no as nat,
        }
    }
}

/// What each of the tasks says.
pub open spec fn task_views(tasks: Seq<Task>) -> Seq<TaskView> {
    Seq::new(tasks.len(), |i: int| tasks[i]@)
}

/// A line of whitespace only; the empty line is one.
pub open spec fn is_blank(line: Seq<char>) -> bool {
    scan(line, 0, non_space()) >= line.len()
}

/// A blank line is one on which every character is whitespace.
pub proof fn lemma_blank(line: Seq<char>)
    ensures
        is_blank(line) <==> forall|k: int| 0 <= k < line.len() ==> is_space(#[trigger] line[k]),
{
    lemma_scan(line, 0, non_space());
}

/// A line that begins with the comment sign.
pub open spec fn is_comment(line: Seq<char>) -> bool {
    line.len() > 0 && line[0] == '#'
}

/// A line that begins with whitespace.
pub open spec fn is_indented(line: Seq<char>) -> bool {
    line.len() > 0 && is_space(line[0])
}

/// The lines that are passed over while a header is awaited are the blank
/// ones and the comments: any other line is taken for a header.
pub open spec fn awaited() -> spec_fn(Seq<char>) -> bool {
    |line: Seq<char>| !is_blank(line) && !is_comment(line)
}

/// A body goes on over empty and indented lines: any other line ends it.
pub open spec fn after_body() -> spec_fn(Seq<char>) -> bool {
    |line: Seq<char>| line.len() > 0 && !is_indented(line)
}

/// The lines `from..to`, each followed by a line feed.
pub open spec fn body_text(lines: Seq<Seq<char>>, from: int, to: int) -> Seq<char>
    decreases to - from,
{
    if from >= to {
        Seq::empty()
    } else {
        body_text(lines, from, to - 1) + lines[to - 1].push('\n')
    }
}

/// The word that, as the last one of a header and after the name, stands for
/// any number of further arguments.
pub open spec fn rest_marker() -> Seq<char> {
    "..."@
}

/// The task whose header is line `h` and whose body is the lines up to `e`.
pub open spec fn task_at(lines: Seq<Seq<char>>, h: int, e: int) -> TaskView {
    let words = words_of(lines[h]);
    let rest = words.len() >= 2 && words.last() == rest_marker();
    TaskView {
        name: words[0],
        params: if rest {
            words.subrange(1, words.len() - 1)
        } else {
            words.subrange(1, words.len() as int)
        },
        rest,
        body: body_text(lines, h + 1, e),
        line_no: (h + 1) as nat,
    }
}

/// The tasks that are declared from line `i` on, or the number of the first
/// line that is indented where a header is due.
pub open spec fn parse_from(lines: Seq<Seq<char>>, i: int) -> Result<Seq<TaskView>, nat>
    decreases lines.len() - i,
{
    let h = scan(lines, i, awaited());
    if i < 0 || h >= lines.len() {
        Ok(Seq::empty())
    } else if is_indented(lines[h]) {
        Err((h + 1) as nat)
    } else {
        let e = scan(lines, h + 1, after_body());
        proof {
            lemma_scan(lines, i, awaited());
            lemma_scan(lines, h + 1, after_body());
        }
        match parse_from(lines, e) {
            Ok(tasks) => Ok(seq![task_at(lines, h, e)] + tasks),
            Err(line) => Err(line),
        }
    }
}

/// Every task that is read has a name of at least one character, and the
/// tasks stand in the order of their lines.
pub proof fn lemma_parsed_tasks(lines: Seq<Seq<char>>, i: int)
    requires
        0 <= i <= lines.len(),
    ensures
        parse_from(lines, i) matches Ok(tasks) ==> {
            &&& forall|k: int|
                0 <= k < tasks.len() ==> (#[trigger] tasks[k]).name.len() > 0 && i
                    < tasks[k].line_no <= lines.len()
            &&& forall|k: int, l: int|
                0 <= k < l < tasks.len() ==> (#[trigger] tasks[k]).line_no
                    < (#[trigger] tasks[l]).line_no
        },
    decreases lines.len() - i,
{
    let h = scan(lines, i, awaited());
    lemma_scan(lines, i, awaited());
    if h < lines.len() && !is_indented(lines[h]) {
        let e = scan(lines, h + 1, after_body());
        lemma_scan(lines, h + 1, after_body());
        lemma_parsed_tasks(lines, e);
        if let Ok(more) = parse_from(lines, e) {
            let first = task_at(lines, h, e);
            let tasks = seq![first] + more;
            assert(parse_from(lines, i) == Ok::<Seq<TaskView>, nat>(tasks));
            assert(awaited()(lines[h]));
            lemma_scan(lines[h], 0, non_space());
            lemma_words(lines[h], 0);
            assert(words_of(lines[h]).len() > 0);
            assert(first.name == words_of(lines[h])[0]);
            assert forall|k: int| 0 <= k < tasks.len() implies (#[trigger] tasks[k]).name.len() > 0
                && i < tasks[k].line_no <= lines.len() by {
                if k > 0 {
                    assert(tasks[k] == more[k - 1]);
                }
            }
            assert forall|k: int, l: int| 0 <= k < l < tasks.len() implies (#[trigger] tasks[k]).line_no
                < (#[trigger] tasks[l]).line_no by {
                assert(tasks[l] == more[l - 1]);
                if k > 0 {
                    assert(tasks[k] == more[k - 1]);
                }
            }
        }
    }
}

/// The tasks that a text declares.
pub open spec fn parse_text(text: Seq<char>) -> Result<Seq<TaskView>, nat> {
    parse_from(lines_of(text), 0)
}

fn blank_line(line: &Vec<char>) -> (b: bool)
    ensures
        b == is_blank(line@),
{
    let n = line.len();
    let mut a: usize = 0;
    while a < n && is_whitespace(line[a])
        invariant
            a <= n,
            n == line.len(),
            scan(line@, 0, non_space()) == scan(line@, a as int, non_space()),
        decreases n - a,
    {
        a += 1;
    }
    a >= n
}

fn indented_line(line: &Vec<char>) -> (b: bool)
    ensures
        b == is_indented(line@),
{
    line.len() > 0 && is_whitespace(line[0])
}

/// Reads the next task at or after line `start`: `None` where only blank
/// lines and comments are left, else the task with the index of the line
/// after its body.
pub fn parse_task(path: &str, lines: &Vec<Vec<char>>, start: usize) -> (r: Result<
    Option<(Task, usize)>,
    Error,
>)
    ensures
        ({
            let all = line_views(lines@);
            let h = scan(all, start as int, awaited());
            let e = scan(all, h + 1, after_body());
            if h >= all.len() {
                r == Ok::<Option<(Task, usize)>, Error>(None)
            } else if is_indented(all[h]) {
                r matches Err(Error::Parse { path: p, line }) && p@ == path@ && line == h + 1
            } else {
                r matches Ok(Some((task, next))) && next == e && h < e <= all.len() && task@
                    == task_at(all, h, e)
            }
        }),
{
    let n = lines.len();
    let ghost all = line_views(lines@);
    if start >= n {
        return Ok(None);
    }
    let mut h = start;
    while h < n && (blank_line(&lines[h]) || (lines[h].len() > 0 && lines[h][0] == '#'))
        invariant
            start <= h <= n,
            n == lines.len(),
            all == line_views(lines@),
            scan(all, start as int, awaited()) == scan(all, h as int, awaited()),
        decreases n - h,
    {
        h += 1;
    }
    if h >= n {
        return Ok(None);
    }
    if indented_line(&lines[h]) {
        return Err(Error::Parse { path: String::from_str(path), line: h + 1 });
    }
    let mut words = split_words(&lines[h]);
    assert(words_of(all[h as int]).len() > 0);
    assert(strs(words@).len() == words@.len());
    let mut rest = false;
    let marker = String::from_str("...");
    if words.len() >= 2 && words[words.len() - 1] == marker {
        words.pop();
        rest = true;
    }
    let name = words.remove(0);
    let mut body = String::new();
    let mut e = h + 1;
    while e < n && (lines[e].len() == 0 || indented_line(&lines[e]))
        invariant
            h < e <= n,
            n == lines.len(),
            all == line_views(lines@),
            scan(all, h + 1, after_body()) == scan(all, e as int, after_body()),
            body@ == body_text(all, h + 1, e as int),
        decreases n - e,
    {
        let line = &lines[e];
        let mut k: usize = 0;
        while k < line.len()
            invariant
                k <= line.len(),
                body@ == body_text(all, h + 1, e as int) + line@.take(k as int),
            decreases line.len() - k,
        {
            body.push(line[k]);
            k += 1;
            assert(body@ =~= body_text(all, h + 1, e as int) + line@.take(k as int));
        }
        body.push('\n');
        assert(line@.take(k as int) =~= line@);
        assert(body@ =~= body_text(all, h + 1, e + 1));
        e += 1;
    }
    let task = Task { name, params: words, rest, body, line_no: h + 1 };
    assert(task@.params =~= task_at(all, h as int, e as int).params);
    Ok(Some((task, e)))
}

/// Reads every task of a text, in the order of declaration.  Fails at the
/// first line that is indented where a header is due.
pub fn parse(path: &str, text: &str) -> (r: Result<Vec<Task>, Error>)
    ensures
        match parse_text(text@) {
            Ok(tasks) => r matches Ok(found) && task_views(found@) == tasks,
            Err(bad) => r matches Err(Error::Parse { path: p, line }) && p@ == path@ && line
                == bad,
        },
{
    let lines = split_lines(text);
    let ghost all = line_views(lines@);
    let mut tasks: Vec<Task> = Vec::new();
    let mut i: usize = 0;
    loop
        invariant
            i <= lines.len(),
            all == line_views(lines@),
            all == lines_of(text@),
            parse_text(text@) == match parse_from(all, i as int) {
                Ok(more) => Ok::<Seq<TaskView>, nat>(task_views(tasks@) + more),
                Err(bad) => Err(bad),
            },
        decreases lines.len() - i,
    {
        let ghost before = tasks@;
        proof {
            lemma_scan(all, i as int, awaited());
        }
        match parse_task(path, &lines, i) {
            Ok(None) => {
                assert(task_views(tasks@) + Seq::<TaskView>::empty() =~= task_views(tasks@));
                return Ok(tasks);
            },
            Ok(Some((task, next))) => {
                tasks.push(task);
                assert(forall|more: Seq<TaskView>|
                    #![trigger task_views(tasks@) + more]
                    task_views(tasks@) + more =~= task_views(before) + (seq![task@] + more));
                i = next;
            },
            Err(err) => {
                return Err(err);
            },
        }
    }
}

/// Whether the earlier definition `a` takes every call that the later
/// definition `b` could take.
pub open spec fn redundant(a: TaskView, b: TaskView) -> bool {
    a.name == b.name && if a.rest {
        a.params.len() <= b.params.len()
    } else {
        !b.rest && a.params.len() == b.params.len()
    }
}

/// Whether definition `i` of a file is redundant for definition `j` after
/// it.
pub open spec fn covers(tasks: Seq<TaskView>, i: int, j: int) -> bool {
    0 <= i < j < tasks.len() && redundant(tasks[i], tasks[j])
}

/// No definition of the file is redundant for a later one.
pub open spec fn none_redundant(tasks: Seq<TaskView>) -> bool {
    forall|i: int, j: int| !covers(tasks, i, j)
}

/// Whether `(i, j)` is the first pair of a redundant definition and a later
/// one that it covers: first by the later one, then by the earlier one.
pub open spec fn first_covered(tasks: Seq<TaskView>, i: int, j: int) -> bool {
    &&& covers(tasks, i, j)
    &&& forall|a: int, b: int| b < j || (b == j && a < i) ==> !#[trigger] covers(tasks, a, b)
}

/// Whether `err` is the report of the first redundant definition in the
/// tasks of the file `path`.
pub open spec fn reports(err: Error, path: Seq<char>, tasks: Seq<TaskView>) -> bool {
    err matches Error::Validation { path: p, earlier_line, later_line, name } && p@ == path
        && exists|i: int, j: int|
        {
            &&& #[trigger] first_covered(tasks, i, j)
            &&& earlier_line == tasks[i].line_no
            &&& later_line == tasks[j].line_no
            &&& name@ == tasks[i].name
        }
}

fn is_redundant(a: &Task, b: &Task) -> (r: bool)
    ensures
        r == redundant(a@, b@),
{
    a.name == b.name && if a.rest {
        a.params.len() <= b.params.len()
    } else {
        !b.rest && a.params.len() == b.params.len()
    }
}

/// Checks that no definition is redundant for a later one.  The error names
/// the first definition that an earlier one covers, and the first of those
/// that cover it.
pub fn validate(path: &str, tasks: &[Task]) -> (r: Result<(), Error>)
    ensures
        r is Ok <==> none_redundant(task_views(tasks@)),
        r matches Err(err) ==> reports(err, path@, task_views(tasks@)),
{
    let ghost all = task_views(tasks@);
    let n = tasks.len();
    let mut j: usize = 0;
    while j < n
        invariant
            j <= n,
            n == tasks.len(),
            all == task_views(tasks@),
            forall|a: int, b: int| b < j ==> !#[trigger] covers(all, a, b),
        decreases n - j,
    {
        let mut i: usize = 0;
        while i < j
            invariant
                i <= j < n,
                n == tasks.len(),
                all == task_views(tasks@),
                forall|a: int, b: int|
                    b < j || (b == j && a < i) ==> !#[trigger] covers(all, a, b),
            decreases j - i,
        {
            if is_redundant(&tasks[i], &tasks[j]) {
                assert(first_covered(all, i as int, j as int));
                return Err(
                    Error::Validation {
                        path: String::from_str(path),
                        earlier_line: tasks[i].line_no,
                        later_line: tasks[j].line_no,
                        name: tasks[i].name.clone(),
                    },
                );
            }
            i += 1;
        }
        j += 1;
    }
    Ok(())
}

/// Whether `err` is what reading the text of the file `path` fails with: the
/// malformed header where there is one, else the first redundant definition.
pub open spec fn read_fails_with(path: Seq<char>, text: Seq<char>, err: Error) -> bool {
    match parse_text(text) {
        Ok(tasks) => !none_redundant(tasks) && reports(err, path, tasks),
        Err(bad) => err matches Error::Parse { path: p, line } && p@ == path && line == bad,
    }
}

/// Whether the text declares these tasks, none of them redundant.
pub open spec fn reads_as(text: Seq<char>, tasks: Seq<TaskView>) -> bool {
    parse_text(text) == Ok::<Seq<TaskView>, nat>(tasks) && none_redundant(tasks)
}

/// Reads the tasks of one file from its text and checks them.
pub fn read(path: &str, text: &str) -> (r: Result<Vec<Task>, Error>)
    ensures
        match r {
            Ok(found) => reads_as(text@, task_views(found@)),
            Err(err) => read_fails_with(path@, text@, err),
        },
{
    let tasks = parse(path, text)?;
    validate(path, tasks.as_slice())?;
    Ok(tasks)
}

/// The directories that hold a task file, nearest first.  `present[d]` says
/// whether the directory `d` levels above the starting directory holds one.
pub fn find(present: &[bool]) -> (r: Result<Vec<usize>, Error>)
    ensures
        r is Ok <==> exists|d: int| 0 <= d < present.len() && present[d],
        r is Err ==> r == Err::<Vec<usize>, Error>(Error::Discovery),
        r matches Ok(found) ==> {
            &&& forall|k: int| 0 <= k < found.len() ==> found[k] < present.len() && present[found[k] as int]
            &&& forall|k: int, l: int| 0 <= k < l < found.len() ==> found[k] < found[l]
            &&& forall|d: int| 0 <= d < present.len() && present[d] ==> found@.contains(d as usize)
        },
{
    let mut found: Vec<usize> = Vec::new();
    let mut d: usize = 0;
    while d < present.len()
        invariant
            d <= present.len(),
            forall|k: int| 0 <= k < found.len() ==> found[k] < d && present[found[k] as int],
            forall|k: int, l: int| 0 <= k < l < found.len() ==> found[k] < found[l],
            forall|e: int| 0 <= e < d && present[e] ==> found@.contains(e as usize),
        decreases present.len() - d,
    {
        if present[d] {
            let ghost before = found@;
            found.push(d);
            assert(forall|e: int| 0 <= e < d && present[e] ==> before.contains(e as usize));
            assert forall|e: int| 0 <= e <= d && present[e] implies found@.contains(
                e as usize,
            ) by {
                if e < d {
                    let k = choose|k: int| 0 <= k < before.len() && before[k] == e as usize;
                    assert(found@[k] == e as usize);
                } else {
                    assert(found@[found.len() - 1] == d);
                }
            }
        }
        d += 1;
    }
    if found.len() == 0 {
        Err(Error::Discovery)
    } else {
        assert(present[found[0] as int]);
        Ok(found)
    }
}

} // verus!
