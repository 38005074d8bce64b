//! Small string utilities the engine is built from: character search,
//! whitespace trimming, line-terminator stripping, and splitting a text into
//! lines the way a buffered reader does.

use vstd::prelude::*;
use vstd::string::StrSliceExecFns;
use vstd::string::StringExecFns;
use crate::chars::is_space_char;
use crate::chars::spec_is_space_char;

verus! {

/// First position of `c` in `l`, if any.
pub open spec fn spec_find_char(l: Seq<char>, c: char) -> Option<int>
    decreases l.len(),
{
    if l.len() == 0 {
        None
    } else if l[0] == c {
        Some(0)
    } else {
        match spec_find_char(l.drop_first(), c) {
            None => None,
            Some(i) => Some(i + 1),
        }
    }
}

proof fn lemma_find_char_none(l: Seq<char>, c: char)
    requires
        forall|j: int| 0 <= j < l.len() ==> l[j] != c,
    ensures
        spec_find_char(l, c) is None,
    decreases l.len(),
{
    if l.len() > 0 {
        assert(forall|j: int| 0 <= j < l.drop_first().len() ==> l.drop_first()[j] == l[j + 1]);
        lemma_find_char_none(l.drop_first(), c);
    }
}

proof fn lemma_find_char_some(l: Seq<char>, c: char, i: int)
    requires
        0 <= i < l.len(),
        l[i] == c,
        forall|j: int| 0 <= j < i ==> l[j] != c,
    ensures
        spec_find_char(l, c) == Some(i),
    decreases i,
{
    if i == 0 {
    } else {
        assert(forall|j: int| 0 <= j < l.drop_first().len() ==> l.drop_first()[j] == l[j + 1]);
        lemma_find_char_some(l.drop_first(), c, i - 1);
    }
}

/// Position of the first occurrence of `c` in `s`, scanning left to right.
pub fn find_char(s: &str, c: char) -> (r: Option<usize>)
    ensures
        match r {
            Some(i) => spec_find_char(s@, c) == Some(i as int),
            None => spec_find_char(s@, c) is None,
        },
{
    let n = s.unicode_len();
    let mut i: usize = 0;
    while i < n
        invariant
            0 <= i <= n,
            n == s@.len(),
            forall|j: int| 0 <= j < i ==> s@[j] != c,
        decreases n - i,
    {
        if s.get_char(i) == c {
            proof {
                lemma_find_char_some(s@, c, i as int);
            }
            return Some(i);
        }
        i = i + 1;
    }
    proof {
        lemma_find_char_none(s@, c);
    }
    None
}

/// Where `spec_find_char` points: at the first occurrence of `c`, or
/// nowhere when there is none.
pub proof fn lemma_find_char_range(l: Seq<char>, c: char)
    ensures
        match spec_find_char(l, c) {
            Some(i) => 0 <= i < l.len() && l[i] == c && forall|j: int| 0 <= j < i ==> l[j] != c,
            None => forall|j: int| 0 <= j < l.len() ==> l[j] != c,
        },
    decreases l.len(),
{
    if l.len() > 0 && l[0] != c {
        let d = l.drop_first();
        assert(forall|j: int| 0 <= j < d.len() ==> d[j] == l[j + 1]);
        lemma_find_char_range(d, c);
        match spec_find_char(d, c) {
            Some(i) => {
                assert(spec_find_char(l, c) == Some(i + 1));
                assert(l[i + 1] == d[i]);
                assert forall|j: int| 0 <= j < i + 1 implies l[j] != c by {
                    if j > 0 {
                        assert(d[j - 1] == l[j]);
                    }
                }
            },
            None => {
                assert forall|j: int| 0 <= j < l.len() implies l[j] != c by {
                    if j > 0 {
                        assert(d[j - 1] == l[j]);
                    }
                }
            },
        }
    }
}

/// `l` with the leading whitespace removed, as `str::trim_start` does.
pub open spec fn spec_trim_start(l: Seq<char>) -> Seq<char>
    decreases l.len(),
{
    if l.len() > 0 && spec_is_space_char(l[0]) {
        spec_trim_start(l.drop_first())
    } else {
        l
    }
}

proof fn lemma_trim_start_skip(l: Seq<char>, i: int)
    requires
        0 <= i <= l.len(),
        forall|j: int| 0 <= j < i ==> spec_is_space_char(l[j]),
        i == l.len() || !spec_is_space_char(l[i]),
    ensures
        spec_trim_start(l) == l.skip(i),
    decreases i,
{
    if i == 0 {
        assert(l.skip(0) =~= l);
    } else {
        assert(forall|j: int| 0 <= j < l.drop_first().len() ==> l.drop_first()[j] == l[j + 1]);
        lemma_trim_start_skip(l.drop_first(), i - 1);
        assert(l.drop_first().skip(i - 1) =~= l.skip(i));
    }
}

/// `s` with its leading whitespace removed.
pub fn trim_start<'a>(s: &'a str) -> (r: &'a str)
    ensures
        r@ == spec_trim_start(s@),
{
    let n = s.unicode_len();
    let mut i: usize = 0;
    while i < n && is_space_char(s.get_char(i))
        invariant
            0 <= i <= n,
            n == s@.len(),
            forall|j: int| 0 <= j < i ==> spec_is_space_char(s@[j]),
        decreases n - i,
    {
        i = i + 1;
    }
    proof {
        lemma_trim_start_skip(s@, i as int);
    }
    let r = s.substring_char(i, n);
    proof {
        assert(r@ =~= s@.skip(i as int));
    }
    r
}

/// `l` with one trailing line terminator (`\r\n` or `\n`) removed.
pub open spec fn spec_strip_terminator(l: Seq<char>) -> Seq<char> {
    if l.len() >= 2 && l[l.len() - 2] == '\r' && l[l.len() - 1] == '\n' {
        l.take(l.len() - 2)
    } else if l.len() >= 1 && l[l.len() - 1] == '\n' {
        l.take(l.len() - 1)
    } else {
        l
    }
}

/// `line` with one trailing `\r\n` or `\n` removed, if present.
pub fn strip_terminator<'a>(line: &'a str) -> (r: &'a str)
    ensures
        r@ == spec_strip_terminator(line@),
{
    let n = line.unicode_len();
    if n >= 2 && line.get_char(n - 2) == '\r' && line.get_char(n - 1) == '\n' {
        let r = line.substring_char(0, n - 2);
        proof {
            assert(r@ =~= line@.take(n - 2));
        }
        r
    } else if n >= 1 && line.get_char(n - 1) == '\n' {
        let r = line.substring_char(0, n - 1);
        proof {
            assert(r@ =~= line@.take(n - 1));
        }
        r
    } else {
        line
    }
}

/// `text` with a newline appended.
pub fn with_newline(text: &str) -> (r: String)
    ensures
        r@ == text@.push('\n'),
{
    let mut r = String::from_str(text);
    r.append("\n");
    proof {
        reveal_strlit("\n");
        assert(r@ =~= text@.push('\n'));
    }
    r
}

/// A line segment with one trailing carriage return removed.
pub open spec fn spec_strip_cr(l: Seq<char>) -> Seq<char> {
    if l.len() > 0 && l[l.len() - 1] == '\r' {
        l.drop_last()
    } else {
        l
    }
}

/// The lines of `s` with `cur` as the partially read current line: each line
/// ends at a `\n` (a `\r` just before it is dropped too), and a final
/// fragment without a terminator is still a line.
pub open spec fn spec_lines_acc(s: Seq<char>, cur: Seq<char>) -> Seq<Seq<char>>
    decreases s.len(),
{
    if s.len() == 0 {
        if cur.len() == 0 {
            Seq::empty()
        } else {
            seq![cur]
        }
    } else if s[0] == '\n' {
        seq![spec_strip_cr(cur)] + spec_lines_acc(s.drop_first(), Seq::empty())
    } else {
        spec_lines_acc(s.drop_first(), cur.push(s[0]))
    }
}

/// The lines of `s`, split as a buffered reader splits them.
pub open spec fn spec_lines(s: Seq<char>) -> Seq<Seq<char>> {
    spec_lines_acc(s, Seq::empty())
}

/// Split `s` into lines: each `\n` ends a line (a `\r` immediately before it
/// is dropped as well), and text after the last `\n` forms a final line.
pub fn split_lines(s: &str) -> (r: Vec<String>)
    ensures
        r.deep_view() == spec_lines(s@),
{
    let n = s.unicode_len();
    let mut out: Vec<String> = Vec::new();
    let mut start: usize = 0;
    let mut i: usize = 0;
    proof {
        assert(s@.skip(0) =~= s@);
        assert(s@.subrange(0, 0) =~= Seq::<char>::empty());
        assert(out.deep_view() + spec_lines_acc(s@, Seq::empty()) =~= spec_lines(s@));
    }
    while i < n
        invariant
            0 <= start <= i <= n,
            n == s@.len(),
            forall|j: int| start <= j < i ==> s@[j] != '\n',
            spec_lines(s@) == out.deep_view() + spec_lines_acc(
                s@.skip(i as int),
                s@.subrange(start as int, i as int),
            ),
        decreases n - i,
    {
        let ghost pre = s@.skip(i as int);
        let ghost cur = s@.subrange(start as int, i as int);
        let ghost old_deep = out.deep_view();
        if s.get_char(i) == '\n' {
            let seg = if i > start && s.get_char(i - 1) == '\r' {
                s.substring_char(start, i - 1)
            } else {
                s.substring_char(start, i)
            };
            proof {
                assert(pre[0] == '\n');
                assert(pre.drop_first() =~= s@.skip(i + 1));
                assert(seg@ =~= spec_strip_cr(cur));
            }
            out.push(String::from_str(seg));
            proof {
                assert(out.deep_view() =~= old_deep.push(seg@));
                assert(s@.subrange(i + 1, i + 1) =~= Seq::<char>::empty());
                assert(spec_lines_acc(pre, cur) == seq![spec_strip_cr(cur)] + spec_lines_acc(
                    s@.skip(i + 1),
                    Seq::empty(),
                ));
                assert(out.deep_view() + spec_lines_acc(s@.skip(i + 1), s@.subrange(i + 1, i + 1))
                    =~= old_deep + spec_lines_acc(pre, cur));
            }
            start = i + 1;
        } else {
            proof {
                assert(pre[0] != '\n');
                assert(pre.drop_first() =~= s@.skip(i + 1));
                assert(cur.push(s@[i as int]) =~= s@.subrange(start as int, i + 1));
            }
        }
        i = i + 1;
    }
    if start < n {
        let seg = s.substring_char(start, n);
        proof {
            assert(seg@ =~= s@.subrange(start as int, n as int));
            assert(s@.skip(n as int).len() == 0);
        }
        out.push(String::from_str(seg));
        proof {
            assert(spec_lines(s@) =~= out.deep_view());
        }
    } else {
        proof {
            assert(s@.skip(n as int).len() == 0);
            assert(s@.subrange(start as int, n as int).len() == 0);
            assert(spec_lines(s@) =~= out.deep_view());
        }
    }
    out
}

/// Equality of two string slices, by their character sequences.
pub fn eq_str(a: &str, b: &str) -> (r: bool)
    ensures
        r == (a@ == b@),
{
    let n = a.unicode_len();
    if n != b.unicode_len() {
        return false;
    }
    let mut i: usize = 0;
    while i < n
        invariant
            0 <= i <= n,
            n == a@.len(),
            n == b@.len(),
            forall|j: int| 0 <= j < i ==> a@[j] == b@[j],
        decreases n - i,
    {
        if a.get_char(i) != b.get_char(i) {
            return false;
        }
        i = i + 1;
    }
    proof {
        assert(a@ =~= b@);
    }
    true
}

} // verus!
