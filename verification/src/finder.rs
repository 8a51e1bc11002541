//! The per-frame snapshot of the search engine's progress, and its status
//! fragment.
//!
//! The engine itself lives outside this library; a frame sees only the plain
//! values its read-only accessors returned at frame start.

use vstd::prelude::*;
use vstd::string::StringExecFns;
use crate::text::dec_of;
use crate::text::u64_dec;

verus! {

/// Where the currently focused match sits: its row, and the columns of that
/// row that hold it.
pub struct FoundRecord {
    pub row_index: usize,
    pub column_indices: Vec<usize>,
}

impl FoundRecord {
    pub fn new(row_index: usize, column_indices: Vec<usize>) -> (r: FoundRecord)
        ensures
            r.row_index == row_index,
            r.column_indices@ == column_indices@,
    {
        FoundRecord { row_index, column_indices }
    }

    pub fn row_index(&self) -> (r: usize)
        ensures
            r == self.row_index,
    {
        self.row_index
    }

    pub fn column_indices(&self) -> (r: &Vec<usize>)
        ensures
            r@ == self.column_indices@,
    {
        &self.column_indices
    }
}

/// A value snapshot of the search engine, taken once per frame.
pub struct FinderActiveState {
    pub find_complete: bool,
    pub total_found: u64,
    pub cursor_index: Option<u64>,
    pub target: String,
    pub found_record: Option<FoundRecord>,
}

/// Whether a search is showing at all this frame.
pub enum FinderState {
    FinderInactive,
    FinderActive(FinderActiveState),
}

impl FinderActiveState {
    /// The one machine limit: a cursor position must leave room for the
    /// 1-based position shown in the status line.
    pub open spec fn wf(self) -> bool {
        match self.cursor_index {
            Some(c) => c < u64::MAX,
            None => true,
        }
    }

    /// A fresh snapshot from what the engine's accessors returned.
    pub fn new(
        find_complete: bool,
        total_found: u64,
        cursor_index: Option<u64>,
        target: String,
        found_record: Option<FoundRecord>,
    ) -> (r: FinderActiveState)
        ensures
            r.find_complete == find_complete,
            r.total_found == total_found,
            r.cursor_index == cursor_index,
            r.target == target,
            r.found_record == found_record,
    {
        FinderActiveState { find_complete, total_found, cursor_index, target, found_record }
    }

    /// The body of the status fragment: how far the search has come.
    pub open spec fn body_spec(self) -> Seq<char> {
        if self.total_found == 0 {
            if self.find_complete {
                "Not found"@
            } else {
                "Finding..."@
            }
        } else {
            (match self.cursor_index {
                None => "-"@,
                Some(c) => dec_of((c + 1) as nat),
            }) + "/"@ + dec_of(self.total_found as nat) + (if self.find_complete {
                Seq::<char>::empty()
            } else {
                "+"@
            })
        }
    }

    /// The whole status fragment: `["target": body]`.
    pub open spec fn fragment_spec(self) -> Seq<char> {
        "[\""@ + self.target@ + "\": "@ + self.body_spec() + "]"@
    }

    /// Render the status fragment.
    pub fn status_line(&self) -> (r: String)
        requires
            self.wf(),
        ensures
            r@ == self.fragment_spec(),
    {
        let mut line: String;
        if self.total_found == 0 {
            if self.find_complete {
                line = String::from_str("Not found");
            } else {
                line = String::from_str("Finding...");
            }
        } else {
            match &self.cursor_index {
                None => {
                    line = String::from_str("-");
                },
                Some(c) => {
                    line = u64_dec(*c + 1);
                },
            }
            line.append("/");
            let total = u64_dec(self.total_found);
            line.append(total.as_str());
            if !self.find_complete {
                line.append("+");
            }
            proof {
                assert(line@ =~= self.body_spec());
            }
        }
        let mut r = String::from_str("[\"");
        r.append(self.target.as_str());
        r.append("\": ");
        r.append(line.as_str());
        r.append("]");
        proof {
            assert(r@ =~= self.fragment_spec());
        }
        r
    }
}

impl FinderState {
    pub open spec fn wf(self) -> bool {
        match self {
            FinderState::FinderActive(a) => a.wf(),
            FinderState::FinderInactive => true,
        }
    }

    /// An active snapshot, from what the engine's accessors returned.
    pub fn from_finder(
        find_complete: bool,
        total_found: u64,
        cursor_index: Option<u64>,
        target: String,
        found_record: Option<FoundRecord>,
    ) -> (r: FinderState)
        ensures
            (r matches FinderState::FinderActive(a) && a.find_complete == find_complete
                && a.total_found == total_found && a.cursor_index == cursor_index && a.target
                == target && a.found_record == found_record),
    {
        let active_state = FinderActiveState::new(
            find_complete,
            total_found,
            cursor_index,
            target,
            found_record,
        );
        FinderState::FinderActive(active_state)
    }
}

} // verus!
