//! Shared enumerations: panel side, sort settings and function-key actions.
use vstd::prelude::*;

verus! {

/// Which panel is meant (left or right).
#[derive(Copy, Clone, PartialEq, Eq, Structural, Debug)]
pub enum Side {
    Left,
    Right,
}

impl Side {
    /// The opposite panel, as a mathematical function.
    pub open spec fn spec_other(self) -> Side {
        match self {
            Side::Left => Side::Right,
            Side::Right => Side::Left,
        }
    }

    /// The opposite panel.
    #[verifier::when_used_as_spec(spec_other)]
    pub fn other(self) -> (r: Side)
        ensures
            r == self.spec_other(),
            r != self,
    {
        match self {
            Side::Left => Side::Right,
            Side::Right => Side::Left,
        }
    }
}

/// What entries are ordered by.
#[derive(Copy, Clone, PartialEq, Eq, Structural, Debug)]
pub enum SortKey {
    Name,
    Size,
    Modified,
    Ext,
}

/// Ascending or descending.
#[derive(Copy, Clone, PartialEq, Eq, Structural, Debug)]
pub enum SortOrder {
    Asc,
    Desc,
}

impl SortOrder {
    /// The other direction, as a mathematical function.
    pub open spec fn spec_toggled(self) -> SortOrder {
        match self {
            SortOrder::Asc => SortOrder::Desc,
            SortOrder::Desc => SortOrder::Asc,
        }
    }

    /// The other direction.
    #[verifier::when_used_as_spec(spec_toggled)]
    pub fn toggled(self) -> (r: SortOrder)
        ensures
            r == self.spec_toggled(),
            r != self,
    {
        match self {
            SortOrder::Asc => SortOrder::Desc,
            SortOrder::Desc => SortOrder::Asc,
        }
    }
}

/// A panel's sort setting.
#[derive(Copy, Clone, PartialEq, Eq, Structural, Debug)]
pub struct Sort {
    pub key: SortKey,
    pub order: SortOrder,
}

impl Default for Sort {
    /// By name, ascending.
    fn default() -> (r: Sort)
        ensures
            r == (Sort { key: SortKey::Name, order: SortOrder::Asc }),
    {
        Sort { key: SortKey::Name, order: SortOrder::Asc }
    }
}

impl Sort {
    /// The setting after the user picks `key`, as a mathematical function.
    pub open spec fn spec_select(self, key: SortKey) -> Sort {
        if self.key == key {
            Sort { key, order: self.order.spec_toggled() }
        } else {
            Sort { key, order: SortOrder::Asc }
        }
    }

    /// The setting after the user picks `key`: picking the current key again
    /// flips the direction, picking another key sorts by it ascending.
    #[verifier::when_used_as_spec(spec_select)]
    pub fn select(self, key: SortKey) -> (r: Sort)
        ensures
            r == self.spec_select(key),
            self.key == key ==> r == (Sort { key, order: self.order.spec_toggled() }),
            self.key != key ==> r == (Sort { key, order: SortOrder::Asc }),
    {
        if self.key == key {
            Sort { key, order: self.order.toggled() }
        } else {
            Sort { key, order: SortOrder::Asc }
        }
    }
}

/// Turning to the other panel twice comes back to the first.
pub proof fn law_other_involutive(s: Side)
    ensures
        s.other().other() == s,
{
}

/// Flipping the direction twice restores it.
pub proof fn law_toggled_involutive(o: SortOrder)
    ensures
        o.toggled().toggled() == o,
{
}

/// Picking the same key twice restores the setting it started from.
pub proof fn law_select_twice(s: Sort)
    ensures
        s.select(s.key).select(s.key) == s,
{
}

/// The function-key bar's actions (F1 to F10).
#[derive(Copy, Clone, PartialEq, Eq, Structural, Debug)]
pub enum FuncAction {
    Help,
    View,
    Edit,
    Copy,
    Move,
    Mkdir,
    Delete,
    Menu,
    Quit,
}

} // verus!
