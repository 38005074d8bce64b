//! The macro table: an ordered list of bindings from a macro name to its
//! replacement text, with each name bound at most once.
//!
//! The order of the entries is the order in which the names were first
//! defined; redefining a name keeps its place. Substitution scans entries in
//! this order, which makes its tie-break between several matching names
//! deterministic.

use vstd::prelude::*;
use crate::text::eq_str;

verus! {

/// The mathematical content of a macro table: the name and replacement text
/// of each entry, in order, with the names pairwise distinct.
pub type TableView = Seq<(Seq<char>, Seq<char>)>;

/// Whether `t` binds `name`.
pub open spec fn tbl_contains(t: TableView, name: Seq<char>) -> bool {
    exists|i: int| 0 <= i < t.len() && t[i].0 == name
}

/// The position at which `t` binds `name` (meaningful only when
/// `tbl_contains(t, name)` holds; with distinct names it is unique).
pub open spec fn tbl_index_of(t: TableView, name: Seq<char>) -> int {
    choose|i: int| 0 <= i < t.len() && t[i].0 == name
}

/// The replacement text `t` binds `name` to.
pub open spec fn tbl_value(t: TableView, name: Seq<char>) -> Seq<char> {
    t[tbl_index_of(t, name)].1
}

/// Pairwise distinct names.
pub open spec fn tbl_distinct(t: TableView) -> bool {
    forall|i: int, j: int| 0 <= i < j < t.len() ==> t[i].0 != t[j].0
}

/// The table after binding `name` to `value`: an existing entry is updated in
/// place, a new name is appended.
pub open spec fn spec_insert(t: TableView, name: Seq<char>, value: Seq<char>) -> TableView {
    if tbl_contains(t, name) {
        t.update(tbl_index_of(t, name), (name, value))
    } else {
        t.push((name, value))
    }
}

/// The table after unbinding `name`; unchanged if `name` is not bound.
pub open spec fn spec_remove(t: TableView, name: Seq<char>) -> TableView {
    if tbl_contains(t, name) {
        t.remove(tbl_index_of(t, name))
    } else {
        t
    }
}

/// A mapping from macro names to their replacement text.
#[derive(Debug)]
pub struct MacroTable {
    entries: Vec<(String, String)>,
}

impl View for MacroTable {
    type V = TableView;

    closed spec fn view(&self) -> TableView {
        Seq::new(self.entries@.len() as nat, |i: int| (self.entries@[i].0@, self.entries@[i].1@))
    }
}

impl MacroTable {
    #[verifier::type_invariant]
    spec fn wf(&self) -> bool {
        tbl_distinct(self@)
    }

    /// An empty table.
    pub fn new() -> (r: MacroTable)
        ensures
            r@ == Seq::<(Seq<char>, Seq<char>)>::empty(),
    {
        let r = MacroTable { entries: Vec::new() };
        proof {
            assert(r@ =~= Seq::<(Seq<char>, Seq<char>)>::empty());
        }
        r
    }

    /// How many names are bound. Like every method, it also hands back the
    /// table's invariant: the names are pairwise distinct, however the table
    /// was obtained (redefinition updates in place and never duplicates).
    pub fn len(&self) -> (r: usize)
        ensures
            r == self@.len(),
            tbl_distinct(self@),
    {
        proof {
            use_type_invariant(self);
        }
        self.entries.len()
    }

    /// The entry at position `i`: its name and its replacement text.
    pub fn entry_at(&self, i: usize) -> (r: (&String, &String))
        requires
            i < self@.len(),
        ensures
            r.0@ == self@[i as int].0,
            r.1@ == self@[i as int].1,
            tbl_distinct(self@),
    {
        proof {
            use_type_invariant(self);
        }
        let e = &self.entries[i];
        (&e.0, &e.1)
    }

    /// The position at which `name` is bound, if it is.
    fn position_of(&self, name: &str) -> (r: Option<usize>)
        ensures
            match r {
                Some(i) => i < self@.len() && self@[i as int].0 == name@,
                None => !tbl_contains(self@, name@),
            },
    {
        let n = self.entries.len();
        let mut i: usize = 0;
        while i < n
            invariant
                0 <= i <= n,
                n == self@.len(),
                forall|j: int| 0 <= j < i ==> self@[j].0 != name@,
            decreases n - i,
        {
            if eq_str(self.entries[i].0.as_str(), name) {
                return Some(i);
            }
            i = i + 1;
        }
        None
    }

    /// Whether `name` is bound.
    pub fn contains_key(&self, name: &str) -> (r: bool)
        ensures
            r == tbl_contains(self@, name@),
            tbl_distinct(self@),
    {
        proof {
            use_type_invariant(self);
        }
        match self.position_of(name) {
            Some(_) => true,
            None => false,
        }
    }

    /// The replacement text bound to `name`, if any.
    pub fn get(&self, name: &str) -> (r: Option<&String>)
        ensures
            match r {
                Some(v) => tbl_contains(self@, name@) && v@ == tbl_value(self@, name@),
                None => !tbl_contains(self@, name@),
            },
            tbl_distinct(self@),
    {
        proof {
            use_type_invariant(self);
        }
        match self.position_of(name) {
            Some(i) => {
                proof {
                    self.lemma_index_unique(name@, i as int);
                }
                Some(&self.entries[i].1)
            },
            None => None,
        }
    }

    /// With distinct names, any position holding `name` is the position
    /// `tbl_index_of` picks.
    proof fn lemma_index_unique(&self, name: Seq<char>, i: int)
        requires
            tbl_distinct(self@),
            0 <= i < self@.len(),
            self@[i].0 == name,
        ensures
            tbl_index_of(self@, name) == i,
    {
        assert(tbl_contains(self@, name));
        let j = tbl_index_of(self@, name);
        assert(0 <= j < self@.len() && self@[j].0 == name);
    }

    /// Bind `name` to `value`, replacing any previous binding.
    pub fn insert(&mut self, name: String, value: String)
        ensures
            final(self)@ == spec_insert(old(self)@, name@, value@),
            tbl_distinct(old(self)@),
            tbl_distinct(final(self)@),
    {
        proof {
            use_type_invariant(&*self);
        }
        let ghost pre = self@;
        let pos = self.position_of(name.as_str());
        let mut tmp: Vec<(String, String)> = Vec::new();
        core::mem::swap(&mut tmp, &mut self.entries);
        match pos {
            Some(i) => {
                proof {
                    assert(tbl_distinct(pre));
                    assert(tbl_contains(pre, name@));
                    let j = tbl_index_of(pre, name@);
                    assert(0 <= j < pre.len() && pre[j].0 == name@);
                    assert(j == i);
                }
                tmp.remove(i);
                tmp.insert(i, (name, value));
            },
            None => {
                tmp.push((name, value));
            },
        }
        proof {
            let newv = Seq::new(tmp@.len() as nat, |k: int| (tmp@[k].0@, tmp@[k].1@));
            assert(newv =~= spec_insert(pre, name@, value@));
            assert(tbl_distinct(newv));
        }
        self.entries = tmp;
        proof {
            assert(self@ =~= spec_insert(pre, name@, value@));
        }
    }

    /// Unbind `name`; nothing happens if it is not bound.
    pub fn remove(&mut self, name: &str)
        ensures
            final(self)@ == spec_remove(old(self)@, name@),
            tbl_distinct(old(self)@),
            tbl_distinct(final(self)@),
    {
        proof {
            use_type_invariant(&*self);
        }
        let ghost pre = self@;
        let pos = self.position_of(name);
        match pos {
            Some(i) => {
                proof {
                    assert(tbl_contains(pre, name@));
                    let j = tbl_index_of(pre, name@);
                    assert(0 <= j < pre.len() && pre[j].0 == name@);
                    assert(j == i);
                }
                let mut tmp: Vec<(String, String)> = Vec::new();
                core::mem::swap(&mut tmp, &mut self.entries);
                tmp.remove(i);
                proof {
                    let newv = Seq::new(tmp@.len() as nat, |k: int| (tmp@[k].0@, tmp@[k].1@));
                    assert(newv =~= spec_remove(pre, name@));
                    assert(tbl_distinct(newv));
                }
                self.entries = tmp;
                proof {
                    assert(self@ =~= spec_remove(pre, name@));
                }
            },
            None => {},
        }
    }
}

} // verus!
