//! Macro substitution: repeatedly replace the first whole-word occurrence of
//! a defined macro name until no name matches anywhere in the line.
//!
//! A name only matches as a whole word: the characters immediately before and
//! after the occurrence, where there are any, must not be word characters.
//! When several names match, the entry that comes first in the table is
//! taken, and its leftmost whole-word occurrence is replaced; the scan then
//! restarts on the new line. A macro whose value brings its own name back
//! never reaches a fixed point; the loop therefore carries a step budget so
//! large that exhausting it is indistinguishable from not terminating, and
//! the contracts state the result as exactly that bounded iteration.

use vstd::prelude::*;
use vstd::string::StrSliceExecFns;
use vstd::string::StringExecFns;
use crate::chars::is_word_char;
use crate::chars::spec_is_word_char;
use crate::table::MacroTable;
use crate::table::TableView;
use crate::text::with_newline;

verus! {

/// `name` occurs in `line` at position `p`.
pub open spec fn occurs_at(line: Seq<char>, name: Seq<char>, p: int) -> bool {
    0 <= p && p + name.len() <= line.len() && line.subrange(p, p + name.len()) == name
}

/// The characters flanking position `p..p+name.len()` are not word
/// characters (a missing neighbour at either end counts as a boundary).
pub open spec fn boundary_ok(line: Seq<char>, name: Seq<char>, p: int) -> bool {
    &&& (p == 0 || !spec_is_word_char(line[p - 1]))
    &&& (p + name.len() == line.len() || !spec_is_word_char(line[p + name.len()]))
}

/// `name` occurs in `line` at `p` as a whole word.
pub open spec fn word_occurs_at(line: Seq<char>, name: Seq<char>, p: int) -> bool {
    occurs_at(line, name, p) && boundary_ok(line, name, p)
}

/// `name` has some whole-word occurrence in `line`.
pub open spec fn has_word_occurrence(line: Seq<char>, name: Seq<char>) -> bool {
    exists|p: int| word_occurs_at(line, name, p)
}

/// The leftmost whole-word occurrence of `name` in `line` (meaningful only
/// when `has_word_occurrence(line, name)` holds).
pub open spec fn first_word_occurrence(line: Seq<char>, name: Seq<char>) -> int {
    choose|p: int|
        word_occurs_at(line, name, p) && forall|q: int|
            0 <= q < p ==> !word_occurs_at(line, name, q)
}

/// A witness that is itself minimal pins down `first_word_occurrence`.
proof fn lemma_first_occurrence_is(line: Seq<char>, name: Seq<char>, p: int)
    requires
        word_occurs_at(line, name, p),
        forall|q: int| 0 <= q < p ==> !word_occurs_at(line, name, q),
    ensures
        first_word_occurrence(line, name) == p,
{
    let c = first_word_occurrence(line, name);
    assert(word_occurs_at(line, name, c) && forall|q: int|
        0 <= q < c ==> !word_occurs_at(line, name, q));
    if c < p {
        assert(word_occurs_at(line, name, c));
        assert(false);
    }
    if p < c {
        assert(word_occurs_at(line, name, p));
        assert(false);
    }
}

/// `line` with the `name_len` characters at `p` replaced by `value`.
pub open spec fn spec_replace_at(line: Seq<char>, p: int, name_len: int, value: Seq<char>) -> Seq<
    char,
> {
    line.subrange(0, p) + value + line.subrange(p + name_len, line.len() as int)
}

/// Entry `i` of the table has a whole-word occurrence in `line`.
pub open spec fn entry_matches(t: TableView, line: Seq<char>, i: int) -> bool {
    has_word_occurrence(line, t[i].0)
}

/// Some entry of the table matches in `line`.
pub open spec fn some_entry_matches(t: TableView, line: Seq<char>) -> bool {
    exists|i: int| 0 <= i < t.len() && entry_matches(t, line, i)
}

/// No macro name has a whole-word occurrence left in `line`.
pub open spec fn is_fixed(t: TableView, line: Seq<char>) -> bool {
    !some_entry_matches(t, line)
}

/// The first table entry with a whole-word occurrence in `line` (meaningful
/// only when `some_entry_matches(t, line)` holds).
pub open spec fn first_matching_entry(t: TableView, line: Seq<char>) -> int {
    choose|i: int|
        0 <= i < t.len() && entry_matches(t, line, i) && forall|j: int|
            0 <= j < i ==> !entry_matches(t, line, j)
}

proof fn lemma_first_entry_is(t: TableView, line: Seq<char>, i: int)
    requires
        0 <= i < t.len(),
        entry_matches(t, line, i),
        forall|j: int| 0 <= j < i ==> !entry_matches(t, line, j),
    ensures
        first_matching_entry(t, line) == i,
{
    let c = first_matching_entry(t, line);
    assert(0 <= c < t.len() && entry_matches(t, line, c) && forall|j: int|
        0 <= j < c ==> !entry_matches(t, line, j));
    if c < i {
        assert(entry_matches(t, line, c));
        assert(false);
    }
    if i < c {
        assert(entry_matches(t, line, i));
        assert(false);
    }
}

/// One substitution step: replace the leftmost whole-word occurrence of the
/// first matching table entry, or nothing if no entry matches.
pub open spec fn spec_step(t: TableView, line: Seq<char>) -> Option<Seq<char>> {
    if some_entry_matches(t, line) {
        let i = first_matching_entry(t, line);
        let p = first_word_occurrence(line, t[i].0);
        Some(spec_replace_at(line, p, t[i].0.len() as int, t[i].1))
    } else {
        None
    }
}

/// `n` substitution steps, stopping early at a fixed point.
pub open spec fn spec_iter_subst(t: TableView, line: Seq<char>, n: nat) -> Seq<char>
    decreases n,
{
    if n == 0 {
        line
    } else {
        match spec_step(t, line) {
            None => line,
            Some(next) => spec_iter_subst(t, next, (n - 1) as nat),
        }
    }
}

/// What substitution makes of the text of a plain line: a newline is
/// appended, then substitution steps run until no name matches (or until the
/// step budget, too large to exhaust in practice, runs out).
#[verifier::opaque]
pub open spec fn spec_substitute(t: TableView, text: Seq<char>) -> Seq<char> {
    spec_iter_subst(t, text.push('\n'), u64::MAX as nat)
}

/// Iterating one step further applies `spec_step` to the previous iterate.
proof fn lemma_iter_succ(t: TableView, line: Seq<char>, n: nat)
    ensures
        spec_iter_subst(t, line, n + 1) == (match spec_step(t, spec_iter_subst(t, line, n)) {
            None => spec_iter_subst(t, line, n),
            Some(x) => x,
        }),
    decreases n,
{
    if n == 0 {
        assert(spec_iter_subst(t, line, 0) == line);
        assert(spec_iter_subst(t, line, 1) == (match spec_step(t, line) {
            None => line,
            Some(x) => spec_iter_subst(t, x, 0),
        }));
    } else {
        match spec_step(t, line) {
            None => {
                assert(spec_iter_subst(t, line, n) == line);
                assert(spec_iter_subst(t, line, n + 1) == line);
            },
            Some(next) => {
                lemma_iter_succ(t, next, (n - 1) as nat);
                assert(spec_iter_subst(t, line, n + 1) == spec_iter_subst(t, next, n));
                assert(spec_iter_subst(t, line, n) == spec_iter_subst(t, next, (n - 1) as nat));
            },
        }
    }
}

/// Once an iterate is a fixed point, all later iterates equal it.
pub proof fn lemma_iter_stops(t: TableView, line: Seq<char>, k: nat, n: nat)
    requires
        k <= n,
        is_fixed(t, spec_iter_subst(t, line, k)),
    ensures
        spec_iter_subst(t, line, n) == spec_iter_subst(t, line, k),
    decreases n - k,
{
    if k < n {
        lemma_iter_succ(t, line, (n - 1) as nat);
        lemma_iter_stops(t, line, k, (n - 1) as nat);
    }
}

/// Substitution is idempotent on a line in which no macro name occurs as a
/// whole word any more: however many further steps run, the line stays as it
/// is. Substitution output is such a line whenever the step budget sufficed,
/// so re-running substitution on its own output returns it unchanged.
pub proof fn lemma_substitution_idempotent(t: TableView, line: Seq<char>, n: nat)
    requires
        is_fixed(t, line),
    ensures
        spec_iter_subst(t, line, n) == line,
{
    lemma_iter_stops(t, line, 0, n);
}

/// Idempotence at the level of [`substitute`]'s own contract: substituting
/// the text of a line that is already a fixed point gives back exactly that
/// line (with its newline). Substitution output is such a fixed point
/// whenever the step budget sufficed, so a second pass returns it unchanged.
pub proof fn lemma_substitute_fixed_point(t: TableView, text: Seq<char>)
    requires
        is_fixed(t, text.push('\n')),
    ensures
        spec_substitute(t, text) == text.push('\n'),
{
    reveal(spec_substitute);
    lemma_substitution_idempotent(t, text.push('\n'), u64::MAX as nat);
}

/// The word-boundary rule: when every occurrence of every macro name in a
/// line touches a word character (a name only appearing inside a larger
/// identifier), the line is a fixed point and substitution never rewrites it.
pub proof fn lemma_word_boundary_blocks(t: TableView, line: Seq<char>, n: nat)
    requires
        forall|i: int, p: int|
            0 <= i < t.len() && occurs_at(line, t[i].0, p) ==> !boundary_ok(line, t[i].0, p),
    ensures
        is_fixed(t, line),
        spec_iter_subst(t, line, n) == line,
{
    assert forall|i: int| 0 <= i < t.len() implies !entry_matches(t, line, i) by {
        if entry_matches(t, line, i) {
            let p = choose|p: int| word_occurs_at(line, t[i].0, p);
            assert(occurs_at(line, t[i].0, p));
            assert(!boundary_ok(line, t[i].0, p));
        }
    }
    lemma_substitution_idempotent(t, line, n);
}

/// Whenever some number of steps within the budget reaches a fixed point,
/// the substitution result is exactly that fixed point.
pub proof fn lemma_expansion_complete(t: TableView, text: Seq<char>, k: nat)
    requires
        k <= u64::MAX as nat,
        is_fixed(t, spec_iter_subst(t, text.push('\n'), k)),
    ensures
        spec_substitute(t, text) == spec_iter_subst(t, text.push('\n'), k),
        is_fixed(t, spec_substitute(t, text)),
{
    reveal(spec_substitute);
    lemma_iter_stops(t, text.push('\n'), k, u64::MAX as nat);
}

/// Whether `name` occurs (character for character) at position `p` of `line`.
fn matches_at(line: &str, name: &str, p: usize) -> (r: bool)
    requires
        p + name@.len() <= line@.len(),
    ensures
        r == (line@.subrange(p as int, p + name@.len()) == name@),
{
    let n = line.unicode_len();
    let m = name.unicode_len();
    let mut j: usize = 0;
    while j < m
        invariant
            0 <= j <= m,
            m == name@.len(),
            n == line@.len(),
            p + m <= n,
            forall|k: int| 0 <= k < j ==> line@[p + k] == name@[k],
        decreases m - j,
    {
        if line.get_char(p + j) != name.get_char(j) {
            proof {
                assert(line@.subrange(p as int, p + name@.len())[j as int] != name@[j as int]);
            }
            return false;
        }
        j = j + 1;
    }
    proof {
        assert(line@.subrange(p as int, p + name@.len()) =~= name@);
    }
    true
}

/// The leftmost whole-word occurrence of `name` in `line`, if there is one.
fn find_word_occurrence(line: &str, name: &str) -> (r: Option<usize>)
    ensures
        match r {
            Some(p) => word_occurs_at(line@, name@, p as int) && first_word_occurrence(
                line@,
                name@,
            ) == p as int,
            None => !has_word_occurrence(line@, name@),
        },
{
    let n = line.unicode_len();
    let m = name.unicode_len();
    if m > n {
        proof {
            assert forall|p: int| !word_occurs_at(line@, name@, p) by {
                if word_occurs_at(line@, name@, p) {
                    assert(occurs_at(line@, name@, p));
                }
            }
        }
        return None;
    }
    if m == 0 {
        let mut p: usize = 0;
        while p < n
            invariant
                0 <= p <= n,
                m == 0,
                n == line@.len(),
                m == name@.len(),
                forall|q: int| 0 <= q < p ==> !word_occurs_at(line@, name@, q),
            decreases n - p,
        {
            let before_ok = p == 0 || !is_word_char(line.get_char(p - 1));
            let after_ok = !is_word_char(line.get_char(p));
            if before_ok && after_ok {
                proof {
                    assert(line@.subrange(p as int, p as int) =~= name@);
                    assert(word_occurs_at(line@, name@, p as int));
                    lemma_first_occurrence_is(line@, name@, p as int);
                }
                return Some(p);
            }
            proof {
                assert(!boundary_ok(line@, name@, p as int));
            }
            p = p + 1;
        }
        if n == 0 || !is_word_char(line.get_char(n - 1)) {
            proof {
                assert(line@.subrange(n as int, n as int) =~= name@);
                assert(word_occurs_at(line@, name@, n as int));
                lemma_first_occurrence_is(line@, name@, n as int);
            }
            return Some(n);
        }
        proof {
            assert forall|q: int| !word_occurs_at(line@, name@, q) by {
                if word_occurs_at(line@, name@, q) {
                    assert(occurs_at(line@, name@, q));
                    assert(0 <= q <= n);
                    assert(!boundary_ok(line@, name@, n as int));
                }
            }
        }
        return None;
    }
    let last_excl = n - m + 1;
    let mut p: usize = 0;
    while p < last_excl
        invariant
            0 <= p <= last_excl,
            1 <= m <= n,
            last_excl == n - m + 1,
            n == line@.len(),
            m == name@.len(),
            forall|q: int| 0 <= q < p ==> !word_occurs_at(line@, name@, q),
        decreases last_excl - p,
    {
        let before_ok = p == 0 || !is_word_char(line.get_char(p - 1));
        let after_ok = p + m == n || !is_word_char(line.get_char(p + m));
        if before_ok && after_ok && matches_at(line, name, p) {
            proof {
                assert(word_occurs_at(line@, name@, p as int));
                lemma_first_occurrence_is(line@, name@, p as int);
            }
            return Some(p);
        }
        proof {
            assert(!word_occurs_at(line@, name@, p as int));
        }
        p = p + 1;
    }
    proof {
        assert forall|q: int| !word_occurs_at(line@, name@, q) by {
            if word_occurs_at(line@, name@, q) {
                assert(occurs_at(line@, name@, q));
                assert(0 <= q && q + m <= n);
                assert(q < p);
            }
        }
    }
    None
}

/// Find the first table entry with a whole-word occurrence in `line` and
/// replace that occurrence with the entry's value; `None` when no entry
/// matches anywhere.
#[verifier::rlimit(60)]
pub fn replace_next_macro(line: &str, macros: &MacroTable) -> (r: Option<String>)
    ensures
        match r {
            Some(s) => spec_step(macros@, line@) == Some(s@),
            None => spec_step(macros@, line@) is None,
        },
{
    let k = macros.len();
    let mut i: usize = 0;
    while i < k
        invariant
            0 <= i <= k,
            k == macros@.len(),
            forall|j: int| 0 <= j < i ==> !entry_matches(macros@, line@, j),
        decreases k - i,
    {
        let (name, value) = macros.entry_at(i);
        if let Some(p) = find_word_occurrence(line, name.as_str()) {
            let n = line.unicode_len();
            let m = name.as_str().unicode_len();
            proof {
                assert(occurs_at(line@, name@, p as int));
            }
            let mut out = String::new();
            out.append(line.substring_char(0, p));
            out.append(value.as_str());
            out.append(line.substring_char(p + m, n));
            proof {
                assert(entry_matches(macros@, line@, i as int));
                assert(some_entry_matches(macros@, line@));
                lemma_first_entry_is(macros@, line@, i as int);
                assert(out@ =~= spec_replace_at(line@, p as int, m as int, value@));
                assert(spec_step(macros@, line@) == Some(
                    spec_replace_at(
                        line@,
                        first_word_occurrence(line@, macros@[i as int].0),
                        macros@[i as int].0.len() as int,
                        macros@[i as int].1,
                    ),
                ));
            }
            return Some(out);
        }
        i = i + 1;
    }
    proof {
        assert(!some_entry_matches(macros@, line@));
    }
    None
}

/// Expand macros in the text of one plain line: append a newline, then
/// replace whole-word macro occurrences over and over until none remains.
///
/// Replacement restarts from the whole new line after every step, so a value
/// may itself be expanded further; a value that brings its own name back
/// makes this spin without end (the step budget of `u64::MAX` rounds exists
/// only to bound the loop and cannot be exhausted in practice). The tie-break
/// between several matching names is the table's entry order.
#[verifier::rlimit(60)]
pub fn substitute(text: &str, macros: &MacroTable) -> (r: String)
    ensures
        r@ == spec_substitute(macros@, text@),
{
    proof {
        reveal(spec_substitute);
    }
    let ghost start = text@.push('\n');
    let mut cur = with_newline(text);
    let mut fuel: u64 = u64::MAX;
    while fuel > 0
        invariant
            start == text@.push('\n'),
            cur@ == spec_iter_subst(macros@, start, (u64::MAX - fuel) as nat),
        decreases fuel,
    {
        let ghost steps = (u64::MAX - fuel) as nat;
        match replace_next_macro(cur.as_str(), macros) {
            None => {
                proof {
                    reveal(spec_substitute);
                    assert(is_fixed(macros@, cur@));
                    assert(is_fixed(macros@, spec_iter_subst(macros@, start, steps)));
                    lemma_iter_stops(macros@, start, steps, u64::MAX as nat);
                    assert(spec_iter_subst(macros@, start, u64::MAX as nat) == cur@);
                    assert(spec_substitute(macros@, text@) == cur@);
                }
                return cur;
            },
            Some(next) => {
                proof {
                    lemma_iter_succ(macros@, start, steps);
                    assert(spec_iter_subst(macros@, start, steps + 1) == next@);
                }
                cur = next;
                fuel = fuel - 1;
            },
        }
    }
    proof {
        reveal(spec_substitute);
    }
    cur
}

} // verus!
