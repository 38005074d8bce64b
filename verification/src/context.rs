//! The state threaded through one processing session: the macro table, the
//! conditional-inclusion counters, the execution permission, and how many
//! `#in` blocks are currently open.

use vstd::prelude::*;
use crate::table::MacroTable;
use crate::table::TableView;
use crate::table::spec_insert;

verus! {

/// The mathematical content of a [`Context`].
pub ghost struct CtxView {
    /// The macro table's entries.
    pub macros: TableView,
    /// How many enclosing conditional groups currently suppress output.
    pub inactive_stack: nat,
    /// Whether a branch of the current conditional group has been taken.
    pub used_if: bool,
    /// Whether the `#exec` command family is recognized.
    pub allow_exec: bool,
    /// How many `#in` blocks are open.
    pub in_depth: nat,
}

/// Context of the current processing, shared by every line of a document and
/// of everything it includes.
///
/// `macros` holds the currently defined macros. `inactive_stack` counts the
/// enclosing conditional groups that are suppressing output: lines are
/// emitted only while it is zero. `used_if` records whether a branch of the
/// current conditional group has already been taken, which keeps every later
/// branch of that group from firing. `allow_exec` is set once at creation
/// and gates the `#exec`/`#in`/`#endin` family. `in_depth` counts the open
/// `#in` blocks whose child processes the caller's [`crate::Host`] holds.
#[derive(Debug)]
pub struct Context {
    /// All currently defined macros.
    pub macros: MacroTable,
    /// Number of layers of inactive conditional groups.
    pub inactive_stack: u64,
    /// Whether the current conditional group has been accepted.
    pub used_if: bool,
    /// Whether `#exec` and `#in` commands are allowed.
    pub allow_exec: bool,
    /// Number of `#in` blocks currently open.
    pub in_depth: usize,
}

impl View for Context {
    type V = CtxView;

    open spec fn view(&self) -> CtxView {
        CtxView {
            macros: self.macros@,
            inactive_stack: self.inactive_stack as nat,
            used_if: self.used_if,
            allow_exec: self.allow_exec,
            in_depth: self.in_depth as nat,
        }
    }
}

/// The view of a fresh context: no macros beyond `macros`, nothing
/// suppressed, no open pipes, execution permitted only if `allow_exec`.
pub open spec fn fresh_ctx(macros: TableView, allow_exec: bool) -> CtxView {
    CtxView { macros, inactive_stack: 0, used_if: false, allow_exec, in_depth: 0 }
}

/// The result of binding each of `ps` in turn, first to last, so a later
/// binding of the same name wins.
pub open spec fn spec_insert_all(t: TableView, ps: Seq<(Seq<char>, Seq<char>)>) -> TableView
    decreases ps.len(),
{
    if ps.len() == 0 {
        t
    } else {
        spec_insert_all(spec_insert(t, ps[0].0, ps[0].1), ps.drop_first())
    }
}

proof fn lemma_insert_all_snoc(t: TableView, ps: Seq<(Seq<char>, Seq<char>)>, x: (Seq<char>, Seq<char>))
    ensures
        spec_insert_all(t, ps.push(x)) == spec_insert(spec_insert_all(t, ps), x.0, x.1),
    decreases ps.len(),
{
    let whole = ps.push(x);
    assert(whole.len() == ps.len() + 1);
    assert(spec_insert_all(t, whole) == spec_insert_all(
        spec_insert(t, whole[0].0, whole[0].1),
        whole.drop_first(),
    ));
    if ps.len() == 0 {
        assert(whole[0] == x);
        assert(whole.drop_first() =~= Seq::<(Seq<char>, Seq<char>)>::empty());
        assert(spec_insert_all(spec_insert(t, x.0, x.1), whole.drop_first()) == spec_insert(
            t,
            x.0,
            x.1,
        ));
        assert(spec_insert_all(t, ps) == t);
    } else {
        assert(whole[0] == ps[0]);
        assert(whole.drop_first() =~= ps.drop_first().push(x));
        lemma_insert_all_snoc(spec_insert(t, ps[0].0, ps[0].1), ps.drop_first(), x);
    }
}

impl Default for Context {
    /// The same context as [`Context::new`].
    fn default() -> (r: Self)
        ensures
            r@ == fresh_ctx(Seq::empty(), false),
    {
        Context::new()
    }
}

impl Context {
    /// A new empty context: no macros, nothing suppressed, execution
    /// disallowed.
    pub fn new() -> (r: Self)
        ensures
            r@ == fresh_ctx(Seq::empty(), false),
    {
        Context {
            macros: MacroTable::new(),
            inactive_stack: 0,
            used_if: false,
            allow_exec: false,
            in_depth: 0,
        }
    }

    /// A new empty context with execution allowed.
    pub fn new_exec() -> (r: Self)
        ensures
            r@ == fresh_ctx(Seq::empty(), true),
    {
        Self::new().exec(true)
    }

    /// A context starting from the given macro table.
    pub fn from_macros(macros: MacroTable) -> (r: Self)
        ensures
            r@ == fresh_ctx(macros@, false),
    {
        Context { macros, inactive_stack: 0, used_if: false, allow_exec: false, in_depth: 0 }
    }

    /// A context whose macros are the given name/value pairs, bound in
    /// order, so that a repeated name takes its later value.
    pub fn from_macros_iter(pairs: Vec<(String, String)>) -> (r: Self)
        ensures
            r@ == fresh_ctx(
                spec_insert_all(
                    Seq::empty(),
                    pairs.deep_view(),
                ),
                false,
            ),
    {
        let ghost all = pairs.deep_view();
        let mut macros = MacroTable::new();
        let n = pairs.len();
        let mut i: usize = 0;
        proof {
            assert(all =~= Seq::new(pairs@.len() as nat, |k: int| (pairs@[k].0@, pairs@[k].1@)));
        }
        while i < n
            invariant
                0 <= i <= n,
                n == pairs@.len(),
                all == Seq::new(pairs@.len() as nat, |k: int| (pairs@[k].0@, pairs@[k].1@)),
                macros@ == spec_insert_all(Seq::empty(), all.take(i as int)),
            decreases n - i,
        {
            let name = pairs[i].0.clone();
            let value = pairs[i].1.clone();
            macros.insert(name, value);
            proof {
                assert(all.take(i + 1) =~= all.take(i as int).push(all[i as int]));
                lemma_insert_all_snoc(Seq::empty(), all.take(i as int), all[i as int]);
            }
            i = i + 1;
        }
        proof {
            assert(all.take(n as int) =~= all);
        }
        Self::from_macros(macros)
    }

    /// The same context with execution allowed or not as given.
    pub fn exec(self, allow_exec: bool) -> (r: Self)
        ensures
            r@ == (CtxView { allow_exec, ..self@ }),
    {
        Context { allow_exec, ..self }
    }
}

} // verus!
