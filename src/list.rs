use vstd::prelude::*;

verus! {

/// A sequence of items with an optional cursor on one of them.
pub struct StatefulList<T> {
    pub selected: Option<usize>,
    pub items: Vec<T>,
}

/// The cursor after moving forward over `len` items: the first item when
/// nothing was selected, wrapping from the last item to the first.
pub open spec fn next_index(sel: Option<usize>, len: nat) -> Option<usize> {
    if len == 0 {
        None
    } else {
        match sel {
            None => Some(0),
            Some(i) => if i >= len - 1 {
                Some(0)
            } else {
                Some((i + 1) as usize)
            },
        }
    }
}

/// The cursor after moving back over `len` items: the first item when nothing
/// was selected, wrapping from the first item to the last.
pub open spec fn previous_index(sel: Option<usize>, len: nat) -> Option<usize> {
    if len == 0 {
        None
    } else {
        match sel {
            None => Some(0),
            Some(i) => if i == 0 {
                Some((len - 1) as usize)
            } else {
                Some((i - 1) as usize)
            },
        }
    }
}

impl<T> StatefulList<T> {
    pub fn new() -> (r: StatefulList<T>)
        ensures
            r.selected is None,
            r.items@.len() == 0,
    {
        StatefulList { selected: None, items: Vec::new() }
    }

    /// Moves the cursor forward.
    pub fn next(&mut self)
        ensures
            final(self).items == old(self).items,
            final(self).selected == next_index(old(self).selected, old(self).items@.len()),
    {
        let len = self.items.len();
        self.selected = if len == 0 {
            None
        } else {
            match self.selected {
                None => Some(0),
                Some(i) => if i >= len - 1 {
                    Some(0)
                } else {
                    Some(i + 1)
                },
            }
        };
    }

    /// Moves the cursor back.
    pub fn previous(&mut self)
        ensures
            final(self).items == old(self).items,
            final(self).selected == previous_index(old(self).selected, old(self).items@.len()),
    {
        let len = self.items.len();
        self.selected = if len == 0 {
            None
        } else {
            match self.selected {
                None => Some(0),
                Some(i) => if i == 0 {
                    Some(len - 1)
                } else {
                    Some(i - 1)
                },
            }
        };
    }

    /// Clears the cursor.
    pub fn unselect(&mut self)
        ensures
            final(self).items == old(self).items,
            final(self).selected is None,
    {
        self.selected = None;
    }

    /// Replaces the items and brings a cursor that no longer points at an
    /// item back onto the last one, or clears it when there are none.
    pub fn set_items(&mut self, items: Vec<T>)
        ensures
            final(self).items == items,
            final(self).selected == clamp_index(old(self).selected, items@.len()),
    {
        let len = items.len();
        self.items = items;
        self.selected = match self.selected {
            Some(i) => if len == 0 {
                None
            } else if i >= len {
                Some(len - 1)
            } else {
                Some(i)
            },
            None => None,
        };
    }
}

/// A cursor kept within `len` items.
pub open spec fn clamp_index(sel: Option<usize>, len: nat) -> Option<usize> {
    match sel {
        Some(i) => if len == 0 {
            None
        } else if i >= len {
            Some((len - 1) as usize)
        } else {
            Some(i)
        },
        None => None,
    }
}

} // verus!
