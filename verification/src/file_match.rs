//! A matched file and where it goes.
use vstd::prelude::*;
use vstd::string::*;
use crate::placeholder::{render, render_path};
use crate::text::{has_char, slice_texts};

verus! {

/// A file to move: where it is and where it goes.
#[derive(Debug, PartialEq, Clone)]
pub struct Match {
    /// Old path to the file: this file will be moved.
    pub old_file_path: String,
    /// New path to the file: it will be moved to this path.
    pub new_file_path: String,
}

impl View for Match {
    type V = (Seq<char>, Seq<char>);

    open spec fn view(&self) -> (Seq<char>, Seq<char>) {
        (self.old_file_path@, self.new_file_path@)
    }
}

/// What a completed move did to its destination.
#[derive(Debug, Clone, Copy, PartialEq, Eq)]
pub enum MoveStatus {
    /// Nothing was at the destination.
    MovedNotOverwritten,
    /// A file was at the destination and has been replaced.
    MovedOverwritten,
}

/// The directory part of a path: what stands before its last slash.
pub open spec fn is_parent_of(dir: Seq<char>, path: Seq<char>) -> bool {
    exists|k: int|
        0 <= k < path.len() && path[k] == '/' && dir == path.take(k) && !has_char(
            path.skip(k + 1),
            '/',
        )
}

impl MoveStatus {
    /// The status of a move that succeeded, given whether the destination existed
    /// before it.
    pub fn after_move(destination_existed: bool) -> (status: MoveStatus)
        ensures
            status == (if destination_existed {
                MoveStatus::MovedOverwritten
            } else {
                MoveStatus::MovedNotOverwritten
            }),
    {
        if destination_existed {
            MoveStatus::MovedOverwritten
        } else {
            MoveStatus::MovedNotOverwritten
        }
    }

    /// What the report adds to the line of a move with this status.
    pub fn suffix(&self) -> (s: &'static str)
        ensures
            s@ == (match *self {
                MoveStatus::MovedOverwritten => " - overwritten"@,
                MoveStatus::MovedNotOverwritten => ""@,
            }),
    {
        match self {
            MoveStatus::MovedOverwritten => " - overwritten",
            MoveStatus::MovedNotOverwritten => "",
        }
    }
}

impl Match {
    /// Pairs the file at `old_file_path` with the destination that `new_file_mask` gives
    /// for the captured `group_values`.
    pub fn new(old_file_path: &str, new_file_mask: &str, group_values: Vec<&str>) -> (m: Self)
        ensures
            m@ == (old_file_path@, render(new_file_mask@, slice_texts(group_values@))),
    {
        Match {
            old_file_path: String::from_str(old_file_path),
            new_file_path: render_path(new_file_mask, &group_values),
        }
    }

    /// Whether two matches name the same two paths.
    pub fn same_as(&self, other: &Match) -> (same: bool)
        ensures
            same == (self@ == other@),
    {
        self.old_file_path == other.old_file_path && self.new_file_path == other.new_file_path
    }

    /// The directory that must exist before the move: the destination up to its last
    /// slash, or `None` for a destination without a slash.
    pub fn destination_directory(&self) -> (dir: Option<String>)
        ensures
            match dir {
                Some(d) => is_parent_of(d@, self.new_file_path@),
                None => !has_char(self.new_file_path@, '/'),
            },
    {
        let path = self.new_file_path.as_str();
        let n = path.unicode_len();
        let mut k: usize = n;
        while k > 0
            invariant
                n == path@.len(),
                path@ == self.new_file_path@,
                k <= n,
                !has_char(path@.skip(k as int), '/'),
            decreases k,
        {
            k = k - 1;
            if path.get_char(k) == '/' {
                let dir = String::from_str(path.substring_char(0, k));
                proof {
                    assert(dir@ =~= path@.take(k as int));
                    assert(path@[k as int] == '/');
                }
                return Some(dir);
            }
            proof {
                let tail = path@.skip(k as int);
                let shorter = path@.skip(k + 1);
                assert forall|i: int| 0 <= i < tail.len() implies tail[i] != '/' by {
                    if i > 0 {
                        assert(tail[i] == shorter[i - 1]);
                    }
                }
            }
        }
        proof {
            assert(path@.skip(0) =~= path@);
        }
        None
    }

    /// The line that reports this move once it succeeded.
    pub fn report_line(&self, status: MoveStatus) -> (line: String)
        ensures
            line@ == self.old_file_path@ + " -> "@ + self.new_file_path@ + (match status {
                MoveStatus::MovedOverwritten => " - overwritten"@,
                MoveStatus::MovedNotOverwritten => ""@,
            }),
    {
        let mut line = self.old_file_path.clone();
        line.append(" -> ");
        line.append(self.new_file_path.as_str());
        line.append(status.suffix());
        line
    }
}

} // verus!
