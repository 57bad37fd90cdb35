//! A panel's state: its folder, its rows in order, its sort; and what the
//! panel's cursor and selection pick.
use vstd::prelude::*;
use crate::listing_order::{sort_entries, stable_sort_of};
use crate::model::Entry;
use crate::paths::{joined, path_join};
use crate::state::{Side, Sort, SortKey};
use crate::text::{decimal, push_decimal, push_str, string_of};

verus! {

/// The changing part of a panel.
pub struct PanelState {
    pub cwd: String,
    pub entries: Vec<Entry>,
    pub sort: Sort,
}

/// The rows that a selection picks: each selected row that exists, in the
/// order given, except the ".." row.
pub open spec fn picked(entries: Seq<Entry>, selected: Seq<usize>) -> Seq<Entry>
    decreases selected.len(),
{
    if selected.len() == 0 {
        Seq::empty()
    } else {
        let rest = picked(entries, selected.drop_last());
        let i = selected.last() as int;
        if i < entries.len() && !entries[i].is_parent { rest.push(entries[i]) } else { rest }
    }
}

/// The rows an operation applies to: the picked rows, or when none, the row
/// under the cursor unless it is "..".
pub open spec fn action_rows(entries: Seq<Entry>, selected: Seq<usize>, focused: Option<usize>) -> Seq<Entry> {
    let p = picked(entries, selected);
    if p.len() > 0 {
        p
    } else {
        match focused {
            Some(i) => if (i as int) < entries.len() && !entries[i as int].is_parent { seq![entries[i as int]] } else { Seq::empty() },
            None => Seq::empty(),
        }
    }
}

impl PanelState {
    /// A panel at `cwd` with no rows yet, sorted by name ascending.
    pub fn new(cwd: String) -> (r: PanelState)
        ensures
            r.cwd == cwd,
            r.entries@.len() == 0,
            r.sort == (Sort { key: SortKey::Name, order: crate::state::SortOrder::Asc }),
    {
        PanelState { cwd, entries: Vec::new(), sort: Sort::default() }
    }

    /// Shows the listing of the folder `cwd`, sorted by the panel's sort.
    pub fn load(&mut self, cwd: String, entries: Vec<Entry>)
        ensures
            final(self).cwd == cwd,
            final(self).sort == old(self).sort,
            exists|p: Seq<int>| stable_sort_of(old(self).sort, entries@, final(self).entries@, p),
    {
        let ghost before = entries@;
        let mut entries = entries;
        sort_entries(&mut entries, self.sort);
        let ghost after = entries@;
        self.cwd = cwd;
        self.entries = entries;
        proof {
            let p = choose|p: Seq<int>| stable_sort_of(self.sort, before, after, p);
            assert(stable_sort_of(self.sort, before, self.entries@, p));
        }
    }

    /// Sorts the rows again by the panel's sort.
    pub fn resort(&mut self)
        ensures
            final(self).cwd == old(self).cwd,
            final(self).sort == old(self).sort,
            exists|p: Seq<int>| stable_sort_of(old(self).sort, old(self).entries@, final(self).entries@, p),
    {
        let ghost before = self.entries@;
        let mut entries = Vec::new();
        std::mem::swap(&mut entries, &mut self.entries);
        sort_entries(&mut entries, self.sort);
        let ghost after = entries@;
        self.entries = entries;
        proof {
            let p = choose|p: Seq<int>| stable_sort_of(self.sort, before, after, p);
            assert(stable_sort_of(self.sort, before, self.entries@, p));
        }
    }

    /// The user picked a sort key: the same key flips the direction, another
    /// sorts by it ascending; the rows are sorted again.
    pub fn select_sort(&mut self, key: SortKey)
        ensures
            final(self).cwd == old(self).cwd,
            final(self).sort == old(self).sort.spec_select(key),
            exists|p: Seq<int>| stable_sort_of(final(self).sort, old(self).entries@, final(self).entries@, p),
    {
        self.sort = self.sort.select(key);
        self.resort();
    }

    /// The row under the cursor (`focused`), if any.
    pub fn focused_entry(&self, focused: Option<usize>) -> (r: Option<Entry>)
        ensures
            match focused {
                Some(i) => if (i as int) < self.entries@.len() { r == Some(self.entries@[i as int]) } else { r is None },
                None => r is None,
            },
    {
        match focused {
            Some(i) => if i < self.entries.len() { Some(self.entries[i].duplicate()) } else { None },
            None => None,
        }
    }

    /// The full path of the row under the cursor.
    pub fn focused_path(&self, focused: Option<usize>) -> (r: Option<String>)
        ensures
            match focused {
                Some(i) => if (i as int) < self.entries@.len() {
                    r matches Some(p) && p@ == joined(self.cwd@, self.entries@[i as int].name@)
                } else {
                    r is None
                },
                None => r is None,
            },
    {
        match self.focused_entry(focused) {
            Some(e) => Some(path_join(self.cwd.as_str(), e.name.as_str())),
            None => None,
        }
    }

    /// The rows an operation applies to, given the selected row numbers and
    /// the cursor's row.
    pub fn action_entries(&self, selected: &Vec<usize>, focused: Option<usize>) -> (r: Vec<Entry>)
        ensures
            r@ == action_rows(self.entries@, selected@, focused),
    {
        let mut out: Vec<Entry> = Vec::new();
        let mut k: usize = 0;
        while k < selected.len()
            invariant
                k <= selected@.len(),
                out@ == picked(self.entries@, selected@.take(k as int)),
            decreases selected@.len() - k,
        {
            proof {
                assert(selected@.take(k + 1).drop_last() == selected@.take(k as int));
            }
            let i = selected[k];
            if i < self.entries.len() && !self.entries[i].is_parent {
                out.push(self.entries[i].duplicate());
            }
            k = k + 1;
        }
        proof {
            assert(selected@.take(selected@.len() as int) == selected@);
        }
        if out.len() == 0 {
            match focused {
                Some(i) => {
                    if i < self.entries.len() && !self.entries[i].is_parent {
                        out.push(self.entries[i].duplicate());
                        proof {
                            assert(out@ == seq![self.entries@[i as int]]);
                        }
                    }
                },
                None => {},
            }
        }
        out
    }

    /// The line under the panel: "<rows>개 항목 · <selected>개 선택".
    pub fn info_text(&self, selected_count: usize) -> (r: String)
        ensures
            r@ == decimal(self.entries@.len()) + "개 항목 · "@ + decimal(selected_count as nat) + "개 선택"@,
    {
        let mut out: Vec<char> = Vec::new();
        push_decimal(&mut out, self.entries.len() as u128);
        push_str(&mut out, "개 항목 · ");
        push_decimal(&mut out, selected_count as u128);
        push_str(&mut out, "개 선택");
        string_of(out.as_slice())
    }
}

/// How a row's name is listed: folders (other than "..") end in '\'.
pub open spec fn row_label_spec(e: Entry) -> Seq<char> {
    if e.is_dir && !e.is_parent { e.name@.push('\\') } else { e.name@ }
}

/// The name column of a row.
pub fn row_label(e: &Entry) -> (r: String)
    ensures
        r@ == row_label_spec(*e),
{
    if e.is_dir && !e.is_parent {
        let mut out: Vec<char> = Vec::new();
        push_str(&mut out, e.name.as_str());
        out.push('\\');
        string_of(out.as_slice())
    } else {
        e.name.clone()
    }
}

/// The status line: "[<side>] <folder>  ▶  <row>", with the side in Korean
/// ("왼쪽" or "오른쪽") and "-" when no row is under the cursor.
pub fn status_line(side: Side, cwd: &str, focused_name: Option<&str>) -> (r: String)
    ensures
        r@ == "["@ + (if side == Side::Left { "왼쪽"@ } else { "오른쪽"@ }) + "] "@ + cwd@ + "  ▶  "@
            + match focused_name {
                Some(n) => n@,
                None => "-"@,
            },
{
    let mut out: Vec<char> = Vec::new();
    push_str(&mut out, "[");
    match side {
        Side::Left => push_str(&mut out, "왼쪽"),
        Side::Right => push_str(&mut out, "오른쪽"),
    }
    push_str(&mut out, "] ");
    push_str(&mut out, cwd);
    push_str(&mut out, "  ▶  ");
    match focused_name {
        Some(n) => push_str(&mut out, n),
        None => push_str(&mut out, "-"),
    }
    string_of(out.as_slice())
}

} // verus!
