//! The navigation state machine: the current path, the cached listing for
//! it, and the selection cursor. Commands move the cursor, descend into the
//! selected directory, ascend to the parent, or end the session. A descend
//! or ascend does not touch the state itself: it names the directory to
//! read, and the outcome of that read is applied afterwards — a failed read
//! leaves every field exactly as it was.

use vstd::prelude::*;
use vstd::relations::sorted_by;

use crate::entries::{DirEntryInfo, EntryModel};
use crate::listing::{Listing, entry_order, models_of, sort_spec, well_named};
use crate::paths::{join_of, join_path, name_wf, parent_of, parent_path, has_parent, path_wf};

verus! {

/// A discrete navigation command, derived from one key press.
#[derive(Clone, Copy, Debug, PartialEq, Eq, Structural)]
pub enum NavCommand {
    MoveSelectionDown,
    MoveSelectionUp,
    Descend,
    Ascend,
    Confirm,
    Quit,
}

/// What the caller must do after a command: repaint, read a directory and
/// hand the outcome back, or end the session (with the chosen path on
/// confirm, without one on quit).
#[derive(Debug)]
pub enum NavAction {
    Redraw,
    ReadDir(String),
    Finish(Option<String>),
}

/// A navigation-time failure: the directory to move into could not be read.
#[derive(Clone, Copy, Debug, PartialEq, Eq, Structural)]
pub enum NavError {
    DirectoryUnreadable,
}

/// The mathematical value of a [`NavState`].
pub struct NavModel {
    pub path: Seq<char>,
    pub entries: Seq<EntryModel>,
    pub selected: Option<int>,
}

/// Always a consistent triple: a well-formed current path, the listing
/// cached for it, and the selection cursor.
#[derive(Debug)]
pub struct NavState {
    current_path: String,
    listing: Listing,
    selected_index: Option<usize>,
}

/// The selection after a listing changes: the first entry, or none where
/// the listing is empty.
pub open spec fn reset_selection(len: int) -> Option<int> {
    if len == 0 {
        Option::None
    } else {
        Option::Some(0int)
    }
}

/// The cursor one step down, wrapping from the last entry to the first.
pub open spec fn wrap_next(sel: Option<int>, len: int) -> Option<int> {
    match sel {
        Option::None => Option::None,
        Option::Some(i) => Option::Some(if i + 1 < len { i + 1 } else { 0int }),
    }
}

/// The cursor one step up, wrapping from the first entry to the last.
pub open spec fn wrap_prev(sel: Option<int>, len: int) -> Option<int> {
    match sel {
        Option::None => Option::None,
        Option::Some(i) => Option::Some(if i == 0 { len - 1 } else { i - 1 }),
    }
}

/// The state invariant: the path is well-formed, the listing is in display
/// order with well-formed names, and the cursor is inside the listing
/// exactly when the listing is non-empty.
pub open spec fn nav_wf(m: NavModel) -> bool {
    &&& path_wf(m.path)
    &&& sorted_by(m.entries, entry_order())
    &&& forall|i: int| 0 <= i < m.entries.len() ==> name_wf(#[trigger] m.entries[i].name)
    &&& match m.selected {
        Option::Some(i) => 0 <= i < m.entries.len(),
        Option::None => m.entries.len() == 0,
    }
}

/// The selection law: in a well-formed state the cursor, when present, is
/// always inside the listing. Every constructor and mutation of
/// [`NavState`] ensures `wf`, so this holds of every reachable state.
pub proof fn lemma_selection_in_bounds(m: NavModel)
    requires
        nav_wf(m),
    ensures
        m.selected matches Option::Some(i) ==> 0 <= i < m.entries.len(),
{
}

/// The round-trip law: descending into the selected directory and then
/// ascending names the original path again. (The listing is rebuilt by the
/// re-read: `apply_read` pins it to exactly `sort_spec` of the well-named
/// raw entries, so reading the same entries back rebuilds the same
/// listing.)
pub proof fn lemma_descend_ascend_round_trip(m: NavModel, i: int)
    requires
        nav_wf(m),
        m.selected == Option::Some(i),
        m.entries[i].is_dir,
    ensures
        has_parent(join_of(m.path, m.entries[i].name)),
        parent_of(join_of(m.path, m.entries[i].name)) == m.path,
{
    assert(name_wf(m.entries[i].name));
    crate::paths::lemma_parent_of_join(m.path, m.entries[i].name);
}

impl View for NavState {
    type V = NavModel;

    closed spec fn view(&self) -> NavModel {
        NavModel {
            path: self.current_path@,
            entries: self.listing@,
            selected: match self.selected_index {
                Option::Some(i) => Option::Some(i as int),
                Option::None => Option::None,
            },
        }
    }
}

impl NavState {
    /// The state invariant; every public operation keeps it.
    pub open spec fn wf(&self) -> bool {
        nav_wf(self@)
    }

    /// The initial state: the given directory path and its raw entries,
    /// filtered and sorted into a listing, with the cursor on the first
    /// entry. Also returns how many raw entries were dropped for ill-formed
    /// names.
    pub fn new(path: String, raw: Vec<DirEntryInfo>) -> (res: (NavState, usize))
        requires
            path_wf(path@),
        ensures
            res.0.wf(),
            res.0@.path == path@,
            res.0@.entries == sort_spec(well_named(models_of(raw@))),
            res.0@.entries.to_multiset() == well_named(models_of(raw@)).to_multiset(),
            res.0@.selected == reset_selection(res.0@.entries.len() as int),
            res.0@.entries.len() + res.1 == raw@.len(),
    {
        let (listing, omitted) = Listing::from_entries(raw);
        let n = listing.len();
        let selected_index = if n == 0 {
            Option::None
        } else {
            Option::Some(0usize)
        };
        (NavState { current_path: path, listing, selected_index }, omitted)
    }

    /// Moves the cursor one entry down, wrapping at the end; on an empty
    /// listing nothing changes.
    pub fn move_selection_down(&mut self)
        requires
            old(self).wf(),
        ensures
            final(self).wf(),
            final(self)@ == (NavModel {
                selected: wrap_next(old(self)@.selected, old(self)@.entries.len() as int),
                ..old(self)@
            }),
    {
        match self.selected_index {
            Option::None => {},
            Option::Some(i) => {
                let n = self.listing.len();
                let j = if i + 1 < n {
                    i + 1
                } else {
                    0
                };
                self.selected_index = Option::Some(j);
            },
        }
    }

    /// Moves the cursor one entry up, wrapping at the start; on an empty
    /// listing nothing changes.
    pub fn move_selection_up(&mut self)
        requires
            old(self).wf(),
        ensures
            final(self).wf(),
            final(self)@ == (NavModel {
                selected: wrap_prev(old(self)@.selected, old(self)@.entries.len() as int),
                ..old(self)@
            }),
    {
        match self.selected_index {
            Option::None => {},
            Option::Some(i) => {
                let n = self.listing.len();
                let j = if i == 0 {
                    n - 1
                } else {
                    i - 1
                };
                self.selected_index = Option::Some(j);
            },
        }
    }

    /// Interprets one command. Cursor movement changes the state in place.
    /// Descend on a selected directory and ascend off a non-root path
    /// change nothing yet: they return the path to read, and
    /// [`Self::apply_read`] finishes (or rolls back) the move. Descend on a
    /// file or with nothing selected, and ascend at a root, are no-ops.
    /// Confirm ends the session surfacing the current path; quit ends it
    /// without a result.
    pub fn step(&mut self, cmd: NavCommand) -> (a: NavAction)
        requires
            old(self).wf(),
        ensures
            final(self).wf(),
            match cmd {
                NavCommand::MoveSelectionDown => a is Redraw && final(self)@ == (NavModel {
                    selected: wrap_next(old(self)@.selected, old(self)@.entries.len() as int),
                    ..old(self)@
                }),
                NavCommand::MoveSelectionUp => a is Redraw && final(self)@ == (NavModel {
                    selected: wrap_prev(old(self)@.selected, old(self)@.entries.len() as int),
                    ..old(self)@
                }),
                NavCommand::Descend => *final(self) == *old(self) && (match old(self)@.selected {
                    Option::Some(i) => if old(self)@.entries[i].is_dir {
                        a matches NavAction::ReadDir(t) && t@ == join_of(
                            old(self)@.path,
                            old(self)@.entries[i].name,
                        ) && path_wf(t@)
                    } else {
                        a is Redraw
                    },
                    Option::None => a is Redraw,
                }),
                NavCommand::Ascend => *final(self) == *old(self) && (if has_parent(
                    old(self)@.path,
                ) {
                    a matches NavAction::ReadDir(t) && t@ == parent_of(old(self)@.path)
                        && path_wf(t@)
                } else {
                    a is Redraw
                }),
                NavCommand::Confirm => *final(self) == *old(self) && (a matches NavAction::Finish(
                    r,
                ) && r matches Some(p) && p@ == old(self)@.path),
                NavCommand::Quit => *final(self) == *old(self) && a == (NavAction::Finish(
                    Option::None,
                )),
            },
    {
        match cmd {
            NavCommand::MoveSelectionDown => {
                self.move_selection_down();
                NavAction::Redraw
            },
            NavCommand::MoveSelectionUp => {
                self.move_selection_up();
                NavAction::Redraw
            },
            NavCommand::Descend => {
                match self.selected_index {
                    Option::Some(i) => {
                        let e = self.listing.get(i);
                        if e.is_dir {
                            proof {
                                assert(name_wf(self@.entries[i as int].name));
                            }
                            let target = join_path(
                                self.current_path.as_str(),
                                e.name.as_str(),
                            );
                            NavAction::ReadDir(target)
                        } else {
                            NavAction::Redraw
                        }
                    },
                    Option::None => NavAction::Redraw,
                }
            },
            NavCommand::Ascend => {
                match parent_path(self.current_path.as_str()) {
                    Option::Some(target) => NavAction::ReadDir(target),
                    Option::None => NavAction::Redraw,
                }
            },
            NavCommand::Confirm => NavAction::Finish(Option::Some(self.current_path.clone())),
            NavCommand::Quit => NavAction::Finish(Option::None),
        }
    }

    /// Finishes a descend or ascend with the outcome of reading `path`:
    /// with entries, the state moves to `path` with a fresh listing and the
    /// cursor reset; without (the directory was unreadable), every field
    /// stays exactly as it was and the failure is reported.
    pub fn apply_read(&mut self, path: String, outcome: Option<Vec<DirEntryInfo>>) -> (r: Result<
        usize,
        NavError,
    >)
        requires
            old(self).wf(),
            path_wf(path@),
        ensures
            final(self).wf(),
            match outcome {
                Option::None => *final(self) == *old(self) && r == Err::<usize, NavError>(
                    NavError::DirectoryUnreadable,
                ),
                Option::Some(raw) => {
                    &&& final(self)@.path == path@
                    &&& final(self)@.entries == sort_spec(well_named(models_of(raw@)))
                    &&& final(self)@.entries.to_multiset() == well_named(
                        models_of(raw@),
                    ).to_multiset()
                    &&& final(self)@.selected == reset_selection(
                        final(self)@.entries.len() as int,
                    )
                    &&& r matches Ok(omitted) && final(self)@.entries.len() + omitted == raw@.len()
                },
            },
    {
        match outcome {
            Option::None => Err(NavError::DirectoryUnreadable),
            Option::Some(raw) => {
                let (listing, omitted) = Listing::from_entries(raw);
                let n = listing.len();
                self.current_path = path;
                self.listing = listing;
                self.selected_index = if n == 0 {
                    Option::None
                } else {
                    Option::Some(0usize)
                };
                Ok(omitted)
            },
        }
    }

    /// The current directory's path, for display and as the confirm result.
    pub fn current_path(&self) -> (p: &String)
        ensures
            p@ == self@.path,
    {
        &self.current_path
    }

    /// The cached listing for the current path.
    pub fn listing(&self) -> (l: &Listing)
        ensures
            l@ == self@.entries,
    {
        &self.listing
    }

    /// The cursor, or none where the listing is empty.
    pub fn selected_index(&self) -> (s: Option<usize>)
        ensures
            match s {
                Option::Some(i) => self@.selected == Option::Some(i as int),
                Option::None => self@.selected is None,
            },
    {
        self.selected_index
    }
}

} // verus!
