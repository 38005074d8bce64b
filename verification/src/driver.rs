//! The stream driver: feed a text's lines one at a time through the
//! per-line engine, concatenate their contributions, and wrap any failure
//! with the source's label and the 0-based number of the line it arose on.
//!
//! As long as a run stays inside the engine — no `#include`, no `#exec`
//! family, no text routed into an open `#in` block — its whole outcome is a
//! function of the starting context and the lines, stated by [`pure_run`],
//! and the drivers promise exactly that outcome.

use vstd::prelude::*;
use vstd::string::StringExecFns;
use crate::context::Context;
use crate::context::CtxView;
use crate::engine::Classified;
use crate::engine::LineEffect;
use crate::engine::line_effect;
use crate::engine::process_line;
use crate::engine::spec_classify;
use crate::error::ErrView;
use crate::error::Error;
use crate::host::Host;
use crate::subst::is_fixed;
use crate::subst::lemma_substitute_fixed_point;
use crate::subst::spec_substitute;
use crate::table::TableView;
use crate::text::spec_lines;
use crate::text::spec_lines_acc;
use crate::text::spec_strip_cr;
use crate::text::spec_strip_terminator;
use crate::text::split_lines;

verus! {

/// What one line does when it needs nothing from the host.
pub ghost enum PureStep {
    /// The line completes: the context becomes `ctx` and `out` is the
    /// line's contribution to the result.
    Stay { ctx: CtxView, out: Seq<char> },
    /// The line fails with `err`, leaving the context as it was.
    Fails { err: ErrView },
    /// The line involves the host (a file, a child process, or text routed
    /// into an open `#in` block): its outcome is not a function of the
    /// context and the line alone.
    External,
}

/// The pure outcome of one line on context `c`.
pub open spec fn pure_line(c: CtxView, line: Seq<char>) -> PureStep {
    match line_effect(c, line) {
        LineEffect::Fail { err } => PureStep::Fails { err },
        LineEffect::Quiet { ctx } => PureStep::Stay { ctx, out: Seq::empty() },
        LineEffect::Expand { text } => if c.in_depth == 0 {
            PureStep::Stay { ctx: c, out: spec_substitute(c.macros, text) }
        } else {
            PureStep::External
        },
        LineEffect::Include { path } => PureStep::External,
        LineEffect::RunExec { cmd } => PureStep::External,
        LineEffect::OpenPipe { cmd } => PureStep::External,
        LineEffect::ClosePipe => PureStep::External,
    }
}

/// The outcome of a whole run over a sequence of lines.
pub ghost enum RunOut {
    /// Every line completed purely: the final context and the concatenated
    /// output.
    Finished { ctx: CtxView, out: Seq<char> },
    /// Line `at` (0-based) failed purely with `err`, the context standing
    /// at `ctx`; every earlier line completed purely.
    Failed { at: int, err: ErrView, ctx: CtxView },
    /// Some line before any failure involves the host.
    External,
}

/// Run the lines from context `c` as far as their outcome is decided by the
/// engine alone: the first failing line aborts the run, and a line that
/// involves the host makes the overall outcome `External`.
pub open spec fn pure_run(c: CtxView, lines: Seq<Seq<char>>) -> RunOut
    decreases lines.len(),
{
    if lines.len() == 0 {
        RunOut::Finished { ctx: c, out: Seq::empty() }
    } else {
        match pure_line(c, lines[0]) {
            PureStep::Fails { err } => RunOut::Failed { at: 0, err, ctx: c },
            PureStep::External => RunOut::External,
            PureStep::Stay { ctx, out } => match pure_run(ctx, lines.drop_first()) {
                RunOut::Finished { ctx: cf, out: rest } => RunOut::Finished {
                    ctx: cf,
                    out: out + rest,
                },
                RunOut::Failed { at, err, ctx: cx } => RunOut::Failed { at: at + 1, err, ctx: cx },
                RunOut::External => RunOut::External,
            },
        }
    }
}

/// How `pure_run` consumes its first line.
proof fn lemma_pure_run_unfold(c: CtxView, lines: Seq<Seq<char>>)
    requires
        lines.len() > 0,
    ensures
        pure_run(c, lines) == (match pure_line(c, lines[0]) {
            PureStep::Fails { err } => RunOut::Failed { at: 0, err, ctx: c },
            PureStep::External => RunOut::External,
            PureStep::Stay { ctx, out } => match pure_run(ctx, lines.drop_first()) {
                RunOut::Finished { ctx: cf, out: rest } => RunOut::Finished {
                    ctx: cf,
                    out: out + rest,
                },
                RunOut::Failed { at, err, ctx: cx } => RunOut::Failed { at: at + 1, err, ctx: cx },
                RunOut::External => RunOut::External,
            },
        }),
{
}

/// The driver's promise about a run from context `c0` over `all` lines,
/// labelled `label`, given result `r` and final context `cf`.
pub open spec fn run_contract(
    c0: CtxView,
    all: Seq<Seq<char>>,
    label: Seq<char>,
    r: Result<String, Error>,
    cf: CtxView,
) -> bool {
    match pure_run(c0, all) {
        RunOut::Finished { ctx, out } => (r matches Ok(s) && s@ == out) && cf == ctx,
        RunOut::Failed { at, err, ctx } => (r matches Err(e) && e@ == (ErrView::FileError {
            filename: label,
            line: at,
            error: Box::new(err),
        })) && cf == ctx,
        RunOut::External => true,
    }
}

/// The driver's loop invariant: unless the run involves the host, what the
/// whole run comes to equals what the remaining lines come to from the
/// current context, appended to the output accumulated so far.
spec fn glue(c0: CtxView, all: Seq<Seq<char>>, i: int, acc: Seq<char>, cur: CtxView) -> bool {
    !(pure_run(c0, all) is External) ==> pure_run(c0, all) == (match pure_run(
        cur,
        all.skip(i),
    ) {
        RunOut::Finished { ctx, out } => RunOut::Finished { ctx, out: acc + out },
        RunOut::Failed { at, err, ctx } => RunOut::Failed { at: at + i, err, ctx },
        RunOut::External => RunOut::External,
    })
}

proof fn lemma_glue_init(c0: CtxView, all: Seq<Seq<char>>)
    ensures
        glue(c0, all, 0, Seq::empty(), c0),
{
    assert(all.skip(0) =~= all);
    match pure_run(c0, all) {
        RunOut::Finished { ctx, out } => {
            assert(Seq::empty() + out =~= out);
        },
        _ => {},
    }
}

proof fn lemma_glue_stay(c0: CtxView, all: Seq<Seq<char>>, i: int, acc: Seq<char>, cur: CtxView)
    requires
        0 <= i < all.len(),
        glue(c0, all, i, acc, cur),
        pure_line(cur, all[i]) is Stay,
    ensures
        glue(
            c0,
            all,
            i + 1,
            acc + pure_line(cur, all[i])->Stay_out,
            pure_line(cur, all[i])->Stay_ctx,
        ),
{
    let rest = all.skip(i);
    assert(rest.len() > 0);
    assert(rest[0] == all[i]);
    assert(rest.drop_first() =~= all.skip(i + 1));
    lemma_pure_run_unfold(cur, rest);
    if !(pure_run(c0, all) is External) {
        match pure_line(cur, all[i]) {
            PureStep::Stay { ctx, out } => {
                match pure_run(ctx, all.skip(i + 1)) {
                    RunOut::Finished { ctx: cf, out: o2 } => {
                        assert(acc + (out + o2) =~= (acc + out) + o2);
                    },
                    _ => {},
                }
            },
            _ => {},
        }
    }
}

proof fn lemma_glue_fail(c0: CtxView, all: Seq<Seq<char>>, i: int, acc: Seq<char>, cur: CtxView)
    requires
        0 <= i < all.len(),
        glue(c0, all, i, acc, cur),
        pure_line(cur, all[i]) is Fails,
    ensures
        !(pure_run(c0, all) is External) ==> pure_run(c0, all) == (RunOut::Failed {
            at: i,
            err: pure_line(cur, all[i])->Fails_err,
            ctx: cur,
        }),
{
    let rest = all.skip(i);
    assert(rest.len() > 0);
    assert(rest[0] == all[i]);
    lemma_pure_run_unfold(cur, rest);
}

proof fn lemma_glue_external(c0: CtxView, all: Seq<Seq<char>>, i: int, acc: Seq<char>, cur: CtxView)
    requires
        0 <= i < all.len(),
        glue(c0, all, i, acc, cur),
        pure_line(cur, all[i]) is External,
    ensures
        pure_run(c0, all) is External,
{
    let rest = all.skip(i);
    assert(rest.len() > 0);
    assert(rest[0] == all[i]);
    lemma_pure_run_unfold(cur, rest);
    assert(pure_run(cur, rest) is External);
}

proof fn lemma_glue_finish(c0: CtxView, all: Seq<Seq<char>>, acc: Seq<char>, cur: CtxView)
    requires
        glue(c0, all, all.len() as int, acc, cur),
        !(pure_run(c0, all) is External),
    ensures
        pure_run(c0, all) == (RunOut::Finished { ctx: cur, out: acc }),
{
    assert(all.skip(all.len() as int).len() == 0);
    assert(pure_run(cur, all.skip(all.len() as int)) == (RunOut::Finished {
        ctx: cur,
        out: Seq::<char>::empty(),
    }));
    assert(acc + Seq::<char>::empty() =~= acc);
}

/// Process a sequence of lines, already split, against the given context.
///
/// Each line goes through [`process_line`]; the contributions are
/// concatenated. The first error aborts the run, wrapped as
/// `Error::FileError` with `buf_name` and the 0-based index of the line it
/// arose on (an error from inside an `#include` is wrapped again here, so a
/// chain of includes reports every hop).
#[verifier::rlimit(100)]
pub fn process_buf<H: Host>(
    lines: &Vec<String>,
    buf_name: &str,
    context: &mut Context,
    host: &mut H,
) -> (r: Result<String, Error>)
    ensures
        run_contract(old(context)@, lines.deep_view(), buf_name@, r, final(context)@),
        r matches Err(e) ==> (e@ matches ErrView::FileError { filename, line, error }
            && filename == buf_name@ && 0 <= line < lines.deep_view().len()),
{
    let ghost c0 = old(context)@;
    let ghost all = lines.deep_view();
    let n = lines.len();
    let mut acc = String::new();
    let mut i: usize = 0;
    proof {
        assert(all =~= Seq::new(lines@.len() as nat, |k: int| lines@[k]@));
        lemma_glue_init(c0, all);
    }
    while i < n
        invariant
            0 <= i <= n,
            n == lines@.len(),
            all == lines.deep_view(),
            all == Seq::new(lines@.len() as nat, |k: int| lines@[k]@),
            c0 == old(context)@,
            glue(c0, all, i as int, acc@, context@),
        decreases n - i,
    {
        let ghost cur = context@;
        proof {
            assert(all[i as int] == lines@[i as int]@);
        }
        match process_line(lines[i].as_str(), context, host) {
            Ok(s) => {
                proof {
                    match pure_line(cur, all[i as int]) {
                        PureStep::Fails { err } => {
                            assert(false);
                        },
                        PureStep::External => {
                            lemma_glue_external(c0, all, i as int, acc@, cur);
                        },
                        PureStep::Stay { ctx, out } => {
                            assert(context@ == ctx);
                            assert(s@ == out);
                            lemma_glue_stay(c0, all, i as int, acc@, cur);
                        },
                    }
                }
                acc.append(s.as_str());
                i = i + 1;
            },
            Err(e) => {
                proof {
                    match pure_line(cur, all[i as int]) {
                        PureStep::Stay { ctx, out } => {
                            assert(false);
                        },
                        PureStep::External => {
                            lemma_glue_external(c0, all, i as int, acc@, cur);
                        },
                        PureStep::Fails { err } => {
                            assert(e@ == err);
                            assert(context@ == cur);
                            lemma_glue_fail(c0, all, i as int, acc@, cur);
                        },
                    }
                }
                return Err(
                    Error::FileError {
                        filename: String::from_str(buf_name),
                        line: i,
                        error: Box::new(e),
                    },
                );
            },
        }
    }
    proof {
        if !(pure_run(c0, all) is External) {
            lemma_glue_finish(c0, all, acc@, context@);
        }
    }
    Ok(acc)
}

/// The text of several lines, one after another.
pub open spec fn concat_lines(ys: Seq<Seq<char>>) -> Seq<char>
    decreases ys.len(),
{
    if ys.len() == 0 {
        Seq::empty()
    } else {
        ys[0] + concat_lines(ys.drop_first())
    }
}

/// The shape of one produced line: nonempty, exactly one newline, at its
/// end, with no carriage return just before it.
pub open spec fn line_shape(y: Seq<char>) -> bool {
    &&& y.len() > 0
    &&& y[y.len() - 1] == '\n'
    &&& forall|j: int| 0 <= j < y.len() - 1 ==> y[j] != '\n'
    &&& !(y.len() >= 2 && y[y.len() - 2] == '\r')
}

/// A finished output line for macro table `t`: a plain line (no command
/// marker) in which no macro name occurs at a word boundary any more.
pub open spec fn finished_line(t: TableView, y: Seq<char>) -> bool {
    &&& line_shape(y)
    &&& y[0] != '#'
    &&& is_fixed(t, y)
}

/// Splitting consumes leading newline-free text into the current line.
proof fn lemma_lines_acc_text(w: Seq<char>, s: Seq<char>, cur: Seq<char>)
    requires
        forall|j: int| 0 <= j < w.len() ==> w[j] != '\n',
    ensures
        spec_lines_acc(w + s, cur) == spec_lines_acc(s, cur + w),
    decreases w.len(),
{
    if w.len() == 0 {
        assert(w + s =~= s);
        assert(cur + w =~= cur);
    } else {
        assert((w + s)[0] == w[0]);
        assert((w + s).drop_first() =~= w.drop_first() + s);
        assert(cur.push(w[0]) + w.drop_first() =~= cur + w);
        assert(forall|j: int|
            0 <= j < w.drop_first().len() ==> w.drop_first()[j] == w[j + 1]);
        lemma_lines_acc_text(w.drop_first(), s, cur.push(w[0]));
    }
}

/// Splitting peels one whole line off the front of a text.
proof fn lemma_lines_block(y: Seq<char>, z: Seq<char>)
    requires
        line_shape(y),
    ensures
        spec_lines_acc(y + z, Seq::empty()) == seq![y.drop_last()] + spec_lines_acc(
            z,
            Seq::empty(),
        ),
{
    let text = y.drop_last();
    assert(forall|j: int| 0 <= j < text.len() ==> text[j] == y[j]);
    let nl_z = seq!['\n'] + z;
    assert(text + nl_z =~= y + z);
    assert(Seq::<char>::empty() + text =~= text);
    lemma_lines_acc_text(text, nl_z, Seq::empty());
    assert(nl_z[0] == '\n');
    assert(nl_z.drop_first() =~= z);
    if text.len() > 0 {
        assert(text[text.len() - 1] == y[y.len() - 2]);
    }
    assert(spec_strip_cr(text) == text);
}

/// Splitting the concatenation of whole lines gives back their texts.
proof fn lemma_split_of_concat(ys: Seq<Seq<char>>)
    requires
        forall|i: int| 0 <= i < ys.len() ==> line_shape(#[trigger] ys[i]),
    ensures
        spec_lines(concat_lines(ys)) == Seq::new(ys.len(), |i: int| ys[i].drop_last()),
    decreases ys.len(),
{
    let texts = Seq::new(ys.len(), |i: int| ys[i].drop_last());
    if ys.len() == 0 {
        assert(spec_lines(concat_lines(ys)) =~= texts);
    } else {
        let rest = ys.drop_first();
        assert(forall|i: int| 0 <= i < rest.len() ==> rest[i] == ys[i + 1]);
        lemma_lines_block(ys[0], concat_lines(rest));
        lemma_split_of_concat(rest);
        assert(texts =~= seq![ys[0].drop_last()] + Seq::new(
            rest.len(),
            |i: int| rest[i].drop_last(),
        ));
    }
}

/// Re-running the engine over finished lines is the identity, line by line.
proof fn lemma_rerun_finished(c: CtxView, ys: Seq<Seq<char>>)
    requires
        c.inactive_stack == 0,
        c.in_depth == 0,
        forall|i: int| 0 <= i < ys.len() ==> finished_line(c.macros, #[trigger] ys[i]),
    ensures
        pure_run(c, Seq::new(ys.len(), |i: int| ys[i].drop_last())) == (RunOut::Finished {
            ctx: c,
            out: concat_lines(ys),
        }),
    decreases ys.len(),
{
    reveal(crate::engine::line_effect);
    let texts = Seq::new(ys.len(), |i: int| ys[i].drop_last());
    if ys.len() == 0 {
        assert(pure_run(c, texts) == (RunOut::Finished { ctx: c, out: Seq::<char>::empty() }));
    } else {
        let y = ys[0];
        let text = y.drop_last();
        assert(forall|j: int| 0 <= j < text.len() ==> text[j] == y[j]);
        assert(spec_strip_terminator(text) == text);
        assert(spec_classify(text) == (Classified::Text { text }));
        assert(line_effect(c, text) == (LineEffect::Expand { text }));
        assert(text.push('\n') =~= y);
        lemma_substitute_fixed_point(c.macros, text);
        assert(pure_line(c, text) == (PureStep::Stay { ctx: c, out: y }));
        let rest = ys.drop_first();
        assert(forall|i: int| 0 <= i < rest.len() ==> rest[i] == ys[i + 1]);
        lemma_rerun_finished(c, rest);
        assert(texts[0] == text);
        assert(texts.drop_first() =~= Seq::new(rest.len(), |i: int| rest[i].drop_last()));
        lemma_pure_run_unfold(c, texts);
        assert(pure_run(c, texts) == (RunOut::Finished {
            ctx: c,
            out: y + concat_lines(rest),
        }));
    }
}

/// Processing its own finished output is the identity. Take any text whose
/// lines are all finished for the context's macro table: plain lines (no
/// command marker), fully expanded, each ending in its own single newline.
/// Splitting that text and running its lines from a context with nothing
/// suppressed and no block open finishes with exactly that text and leaves
/// the context as it was — so by [`run_contract`], a second `process_str`
/// on such an output returns `Ok` with the output unchanged.
pub proof fn lemma_reprocessing_identity(c: CtxView, ys: Seq<Seq<char>>)
    requires
        c.inactive_stack == 0,
        c.in_depth == 0,
        forall|i: int| 0 <= i < ys.len() ==> finished_line(c.macros, #[trigger] ys[i]),
    ensures
        pure_run(c, spec_lines(concat_lines(ys))) == (RunOut::Finished {
            ctx: c,
            out: concat_lines(ys),
        }),
{
    lemma_split_of_concat(ys);
    lemma_rerun_finished(c, ys);
}

/// Process a multi-line string of text.
///
/// The text is split into lines as a buffered reader splits them and run
/// through [`process_buf`] with `"<string>"` as the label in any error.
pub fn process_str<H: Host>(s: &str, context: &mut Context, host: &mut H) -> (r: Result<
    String,
    Error,
>)
    ensures
        run_contract(old(context)@, spec_lines(s@), "<string>"@, r, final(context)@),
        r matches Err(e) ==> (e@ matches ErrView::FileError { filename, line, error }
            && filename == "<string>"@ && 0 <= line < spec_lines(s@).len()),
{
    let lines = split_lines(s);
    process_buf(&lines, "<string>", context, host)
}

/// Process a named file: the host reads and splits it, and its lines run
/// through [`process_buf`] with the file's path as the label in any error.
/// A file that cannot be read is the host's error, returned as it stands.
/// What comes back for the file's content is [`process_buf`]'s promise for
/// whatever lines the host supplied.
pub fn process_file<H: Host>(filename: &str, context: &mut Context, host: &mut H) -> (r: Result<
    String,
    Error,
>) {
    match host.read_lines(filename) {
        Ok(lines) => process_buf(&lines, filename, context, host),
        Err(e) => Err(e),
    }
}

} // verus!

