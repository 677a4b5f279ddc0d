//! The task files of a directory and of those above it.

use vstd::prelude::*;
use vstd::string::StringExecFns;
use crate::error::Error;
use crate::jogfile::{find, read, read_fails_with, reads_as, task_views};
use crate::resolve::ConfigFile;

verus! {

/// The name of a task file.
pub const FILE_NAME: &'static str = "jogfile";

/// The way up from a directory to the one `distance` levels above it.
pub open spec fn way_up(distance: nat) -> Seq<char>
    decreases distance,
{
    if distance == 0 {
        Seq::empty()
    } else {
        way_up((distance - 1) as nat) + "../"@
    }
}

/// The path, from the starting directory, of the task file `distance`
/// levels above it.
pub open spec fn path_text(distance: nat) -> Seq<char> {
    way_up(distance) + FILE_NAME@
}

/// The path of the task file `distance` levels above the starting
/// directory.
pub fn path_at(distance: usize) -> (path: String)
    ensures
        path@ == path_text(distance as nat),
{
    let mut path = String::new();
    let mut d: usize = 0;
    while d < distance
        invariant
            d <= distance,
            path@ == way_up(d as nat),
        decreases distance - d,
    {
        path.append("../");
        d += 1;
    }
    path.append(FILE_NAME);
    path
}

/// One directory on the way up from the starting directory: the path of its
/// task file, and the text of that file where the directory holds one.
#[derive(Clone, Debug, PartialEq, Eq)]
pub struct Level {
    pub path: String,
    pub text: Option<String>,
}

/// Whether `file` is the task file of level `d`, read and checked.
pub open spec fn loaded(levels: Seq<Level>, d: int, file: ConfigFile) -> bool {
    &&& 0 <= d < levels.len()
    &&& file.distance == d
    &&& file.path@ == levels[d].path@
    &&& levels[d].text matches Some(text) && reads_as(text@, task_views(file.tasks@))
}

/// Whether level `d` holds a task file that cannot be read, with `err` as
/// the reason.
pub open spec fn unreadable(levels: Seq<Level>, d: int, err: Error) -> bool {
    &&& 0 <= d < levels.len()
    &&& levels[d].text matches Some(text) && read_fails_with(levels[d].path@, text@, err)
}

/// Whether the files are those of all the levels that hold one, nearest
/// first.
pub open spec fn located(levels: Seq<Level>, files: Seq<ConfigFile>) -> bool {
    &&& forall|k: int| 0 <= k < files.len() ==> loaded(levels, files[k].distance as int, #[trigger] files[k])
    &&& forall|k: int, l: int|
        0 <= k < l < files.len() ==> (#[trigger] files[k]).distance < (#[trigger] files[l]).distance
    &&& forall|d: int|
        0 <= d < levels.len() && (#[trigger] levels[d]).text is Some ==> exists|k: int|
            0 <= k < files.len() && (#[trigger] files[k]).distance == d
}

/// Reads and checks the task file of every level that holds one, from the
/// nearest to the farthest.  Fails where no level holds a file, and else
/// with what the nearest file that cannot be read fails with.
pub fn locate(levels: &[Level]) -> (r: Result<Vec<ConfigFile>, Error>)
    ensures
        match r {
            Ok(files) => files.len() > 0 && located(levels@, files@),
            Err(Error::Discovery) => forall|d: int|
                0 <= d < levels.len() ==> (#[trigger] levels[d]).text is None,
            Err(err) => exists|d: int|
                {
                    &&& #[trigger] unreadable(levels@, d, err)
                    &&& forall|e: int, other: Error| 0 <= e < d ==> !unreadable(levels@, e, other)
                },
        },
{
    let mut present: Vec<bool> = Vec::new();
    let mut d: usize = 0;
    while d < levels.len()
        invariant
            d <= levels.len(),
            present.len() == d,
            forall|e: int| 0 <= e < d ==> present[e] == (#[trigger] levels[e]).text is Some,
        decreases levels.len() - d,
    {
        present.push(levels[d].text.is_some());
        d += 1;
    }
    let found = match find(present.as_slice()) {
        Ok(found) => found,
        Err(err) => {
            return Err(err);
        },
    };
    let mut files: Vec<ConfigFile> = Vec::new();
    let mut k: usize = 0;
    while k < found.len()
        invariant
            k <= found.len(),
            files.len() == k,
            present.len() == levels.len(),
            forall|e: int| 0 <= e < levels.len() ==> present[e] == (#[trigger] levels[e]).text is Some,
            forall|j: int| 0 <= j < found.len() ==> found[j] < present.len() && present[found[j] as int],
            forall|j: int, l: int| 0 <= j < l < found.len() ==> found[j] < found[l],
            forall|e: int| 0 <= e < present.len() && present[e] ==> found@.contains(e as usize),
            forall|j: int| 0 <= j < k ==> (#[trigger] files[j]).distance == found[j] && loaded(
                levels@,
                found[j] as int,
                files[j],
            ),
        decreases found.len() - k,
    {
        let d = found[k];
        let level = &levels[d];
        assert(level.text is Some);
        match &level.text {
            Some(text) => {
                match read(level.path.as_str(), text.as_str()) {
                    Ok(tasks) => {
                        files.push(ConfigFile { path: level.path.clone(), tasks, distance: d });
                    },
                    Err(err) => {
                        assert(unreadable(levels@, d as int, err));
                        assert forall|e: int, other: Error| 0 <= e < d implies !unreadable(
                            levels@,
                            e,
                            other,
                        ) by {
                            if unreadable(levels@, e, other) {
                                assert(present[e]);
                                assert(found@.contains(e as usize));
                                let j = choose|j: int|
                                    0 <= j < found@.len() && found@[j] == e as usize;
                                assert(j < k);
                                assert(loaded(levels@, e, files[j]));
                            }
                        }
                        assert(!(err is Discovery));
                        return Err(err);
                    },
                }
            },
            None => {},
        }
        k += 1;
    }
    assert forall|d: int| 0 <= d < levels.len() && (#[trigger] levels[d]).text is Some implies exists|
        j: int,
    |
        0 <= j < files.len() && (#[trigger] files[j]).distance == d by {
        assert(found@.contains(d as usize));
        let j = choose|j: int| 0 <= j < found@.len() && found@[j] == d as usize;
        assert(files[j].distance == d);
    }
    Ok(files)
}

} // verus!
