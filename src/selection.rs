//! The displayed entry list and its selection cursor.
use crate::entry::{views, Path, PathView};
use vstd::prelude::*;

verus! {

/// The selection after moving to the first entry: index 0, or none when the
/// list is empty.
pub open spec fn first_of(len: nat) -> Option<usize> {
    if len > 0 {
        Some(0usize)
    } else {
        None
    }
}

/// The selection after moving to the last entry.
pub open spec fn last_of(len: nat) -> Option<usize> {
    if len > 0 {
        Some((len - 1) as usize)
    } else {
        None
    }
}

/// One step forward, held at the last entry; from no selection, the first.
pub open spec fn next_of(selected: Option<usize>, len: nat) -> Option<usize> {
    match selected {
        None => first_of(len),
        Some(i) => if i + 1 < len {
            Some((i + 1) as usize)
        } else {
            Some(i)
        },
    }
}

/// One step back, held at the first entry; from no selection, the first.
pub open spec fn previous_of(selected: Option<usize>, len: nat) -> Option<usize> {
    match selected {
        None => first_of(len),
        Some(i) => if i > 0 {
            Some((i - 1) as usize)
        } else {
            Some(i)
        },
    }
}

/// A selection that names an entry of a list of `len` entries, if any.
pub open spec fn selection_in(selected: Option<usize>, len: nat) -> bool {
    selected matches Some(i) ==> i < len
}

/// The selection is present exactly when the list is not empty, and valid.
pub open spec fn selection_settled(selected: Option<usize>, len: nat) -> bool {
    &&& selection_in(selected, len)
    &&& (selected is None <==> len == 0)
}

/// Entries in display order with an optional selected index.
pub struct PathList {
    items: Vec<Path>,
    selected: Option<usize>,
}

impl PathList {
    /// The displayed entries.
    pub closed spec fn entries(&self) -> Seq<PathView> {
        views(self.items@)
    }

    /// The selected index.
    pub closed spec fn selection(&self) -> Option<usize> {
        self.selected
    }

    /// The selection names an entry.
    pub open spec fn wf(&self) -> bool {
        selection_in(self.selection(), self.entries().len())
    }

    /// A list of `items` with nothing selected.
    pub fn from_iter(items: Vec<Path>) -> (r: PathList)
        ensures
            r.entries() == views(items@),
            r.selection() is None,
            r.wf(),
    {
        PathList { items, selected: None }
    }

    /// The displayed entries.
    pub fn items(&self) -> (r: &Vec<Path>)
        ensures
            views(r@) == self.entries(),
    {
        &self.items
    }

    /// The number of displayed entries.
    pub fn len(&self) -> (r: usize)
        ensures
            r == self.entries().len(),
    {
        self.items.len()
    }

    /// The selected index, if any.
    pub fn selected(&self) -> (r: Option<usize>)
        ensures
            r == self.selection(),
    {
        self.selected
    }

    /// The selected entry, if any.
    pub fn selected_item(&self) -> (r: Option<&Path>)
        requires
            self.wf(),
        ensures
            match self.selection() {
                Some(i) => r matches Some(p) && p@ == self.entries()[i as int],
                None => r is None,
            },
    {
        match self.selected {
            Some(i) => Some(&self.items[i]),
            None => None,
        }
    }

    /// Installs `items` in place of the displayed entries, with nothing
    /// selected.
    pub fn replace(&mut self, items: Vec<Path>)
        ensures
            final(self).entries() == views(items@),
            final(self).selection() is None,
            final(self).wf(),
    {
        self.items = items;
        self.selected = None;
    }

    /// Clears the selection.
    pub fn select_none(&mut self)
        ensures
            final(self).entries() == old(self).entries(),
            final(self).selection() is None,
    {
        self.selected = None;
    }

    /// Selects the first entry, or nothing when the list is empty.
    pub fn select_first(&mut self)
        ensures
            final(self).entries() == old(self).entries(),
            final(self).selection() == first_of(old(self).entries().len()),
    {
        self.selected = if self.items.len() > 0 {
            Some(0)
        } else {
            None
        };
    }

    /// Selects the last entry, or nothing when the list is empty.
    pub fn select_last(&mut self)
        ensures
            final(self).entries() == old(self).entries(),
            final(self).selection() == last_of(old(self).entries().len()),
    {
        let n = self.items.len();
        self.selected = if n > 0 {
            Some(n - 1)
        } else {
            None
        };
    }

    /// Moves the selection one entry forward, held at the last entry.
    pub fn select_next(&mut self)
        ensures
            final(self).entries() == old(self).entries(),
            final(self).selection() == next_of(old(self).selection(), old(self).entries().len()),
    {
        match self.selected {
            None => self.select_first(),
            Some(i) => {
                let n = self.items.len();
                if i < n && n - i > 1 {
                    self.selected = Some(i + 1);
                }
            },
        }
    }

    /// Moves the selection one entry back, held at the first entry.
    pub fn select_previous(&mut self)
        ensures
            final(self).entries() == old(self).entries(),
            final(self).selection() == previous_of(old(self).selection(), old(self).entries().len()),
    {
        match self.selected {
            None => self.select_first(),
            Some(i) => {
                if i > 0 {
                    self.selected = Some(i - 1);
                }
            },
        }
    }
}

} // verus!
