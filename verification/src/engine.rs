//! The per-line engine: classify a line as text, a literal-hash escape or a
//! named command; consult the conditional-inclusion state; run the command
//! or expand macros; and route the line's output either into the overall
//! result or into the innermost open `#in` child.

use vstd::prelude::*;
use vstd::string::StrSliceExecFns;
use vstd::string::StringExecFns;
use crate::context::Context;
use crate::context::CtxView;
use crate::error::ErrView;
use crate::error::Error;
use crate::host::Host;
use crate::subst::spec_substitute;
use crate::subst::substitute;
use crate::table::spec_insert;
use crate::table::spec_remove;
use crate::table::tbl_contains;
use crate::text::find_char;
use crate::text::eq_str;
use crate::text::spec_find_char;
use crate::text::spec_strip_terminator;
use crate::text::spec_trim_start;
use crate::text::strip_terminator;
use crate::text::trim_start;

verus! {

/// The named commands.
#[derive(Clone, Copy, Debug, PartialEq, Eq, Structural)]
pub enum Cmd {
    Define,
    Undef,
    Include,
    Ifdef,
    Ifndef,
    Elifdef,
    Elifndef,
    Else,
    Endif,
    Exec,
    In,
    Endin,
}

/// Whether the command is recognized only when execution is permitted.
pub open spec fn cmd_requires_exec(cmd: Cmd) -> bool {
    match cmd {
        Cmd::Exec | Cmd::In | Cmd::Endin => true,
        _ => false,
    }
}

/// Whether the command is still processed while the conditional stack is
/// suppressing lines (true exactly for the six conditional commands).
pub open spec fn cmd_conditional(cmd: Cmd) -> bool {
    match cmd {
        Cmd::Ifdef | Cmd::Ifndef | Cmd::Elifdef | Cmd::Elifndef | Cmd::Else | Cmd::Endif => true,
        _ => false,
    }
}

/// The command a name denotes, apart from any permission.
pub open spec fn spec_cmd_of_name(name: Seq<char>) -> Option<Cmd> {
    if name == "exec"@ {
        Some(Cmd::Exec)
    } else if name == "in"@ {
        Some(Cmd::In)
    } else if name == "endin"@ {
        Some(Cmd::Endin)
    } else if name == "include"@ {
        Some(Cmd::Include)
    } else if name == "define"@ {
        Some(Cmd::Define)
    } else if name == "undef"@ {
        Some(Cmd::Undef)
    } else if name == "ifdef"@ {
        Some(Cmd::Ifdef)
    } else if name == "ifndef"@ {
        Some(Cmd::Ifndef)
    } else if name == "elifdef"@ {
        Some(Cmd::Elifdef)
    } else if name == "elifndef"@ {
        Some(Cmd::Elifndef)
    } else if name == "else"@ {
        Some(Cmd::Else)
    } else if name == "endif"@ {
        Some(Cmd::Endif)
    } else {
        None
    }
}

/// The command a name denotes under the given permission: one of the `#exec`
/// family without permission is as unknown as a misspelt name.
pub open spec fn spec_lookup(name: Seq<char>, allow_exec: bool) -> Option<Cmd> {
    match spec_cmd_of_name(name) {
        Some(cmd) => if cmd_requires_exec(cmd) && !allow_exec {
            None
        } else {
            Some(cmd)
        },
        None => None,
    }
}

/// The command name in `t` (already trimmed): everything up to the first
/// space, or all of `t`.
pub open spec fn spec_cmd_name(t: Seq<char>) -> Seq<char> {
    match spec_find_char(t, ' ') {
        None => t,
        Some(k) => t.take(k),
    }
}

/// The command argument in `t`: everything after the first space, with its
/// own leading whitespace removed.
pub open spec fn spec_cmd_arg(t: Seq<char>) -> Seq<char> {
    match spec_find_char(t, ' ') {
        None => Seq::empty(),
        Some(k) => spec_trim_start(t.skip(k + 1)),
    }
}

/// The name given to `#define`: the argument up to its first space.
pub open spec fn define_name(arg: Seq<char>) -> Seq<char> {
    match spec_find_char(arg, ' ') {
        None => arg,
        Some(k) => arg.take(k),
    }
}

/// The value given to `#define`: everything after the first space, kept as
/// it stands; with no space the value defaults to empty.
pub open spec fn define_value(arg: Seq<char>) -> Seq<char> {
    match spec_find_char(arg, ' ') {
        None => Seq::empty(),
        Some(k) => arg.skip(k + 1),
    }
}

/// What a line is, before permissions and the conditional stack are
/// consulted.
pub ghost enum Classified {
    /// Plain text (for a doubled marker, the text with one marker stripped).
    Text { text: Seq<char> },
    /// A command line: the name after the marker, and its argument.
    Named { name: Seq<char>, arg: Seq<char> },
}

/// Classify a line (already stripped of its terminator): a `#` at the start
/// makes it a command line unless a second `#` follows immediately, which
/// makes it text with one marker stripped.
pub open spec fn spec_classify(l: Seq<char>) -> Classified {
    if l.len() > 0 && l[0] == '#' {
        let rest = l.drop_first();
        if rest.len() > 0 && rest[0] == '#' {
            Classified::Text { text: rest }
        } else {
            let t = spec_trim_start(rest);
            Classified::Named { name: spec_cmd_name(t), arg: spec_cmd_arg(t) }
        }
    } else {
        Classified::Text { text: l }
    }
}

/// The context after `#ifdef` (or `#ifndef`, with the test inverted): an
/// already suppressed group nests one deeper; otherwise the test decides
/// whether the group starts suppressed or taken.
pub open spec fn ifdef_ctx(c: CtxView, name: Seq<char>, inverted: bool) -> CtxView {
    if c.inactive_stack > 0 {
        CtxView {
            inactive_stack: if c.inactive_stack < u64::MAX as nat {
                (c.inactive_stack + 1) as nat
            } else {
                c.inactive_stack
            },
            ..c
        }
    } else if tbl_contains(c.macros, name) == inverted {
        CtxView { inactive_stack: 1, used_if: false, ..c }
    } else {
        CtxView { used_if: true, ..c }
    }
}

/// The context after `#elifdef` (or `#elifndef`): it reactivates only the
/// directly enclosing group, only when no earlier branch of it was taken,
/// and only when its own test passes — and a branch that fires marks the
/// group as satisfied, so no later branch of it fires again.
pub open spec fn elifdef_ctx(c: CtxView, name: Seq<char>, inverted: bool) -> CtxView {
    if c.inactive_stack == 0 {
        CtxView { inactive_stack: 1, ..c }
    } else if c.inactive_stack == 1 && !c.used_if && tbl_contains(c.macros, name) != inverted {
        CtxView { inactive_stack: 0, used_if: true, ..c }
    } else {
        c
    }
}

/// The context after `#else`: the branch that fires exactly when no earlier
/// branch of the group did, and that marks the group as satisfied when it
/// does.
pub open spec fn else_ctx(c: CtxView) -> CtxView {
    if c.inactive_stack == 0 {
        CtxView { inactive_stack: 1, ..c }
    } else if c.inactive_stack == 1 && !c.used_if {
        CtxView { inactive_stack: 0, used_if: true, ..c }
    } else {
        c
    }
}

/// The context after `#endif`: one suppressed layer fewer, never below zero.
pub open spec fn endif_ctx(c: CtxView) -> CtxView {
    if c.inactive_stack != 0 {
        CtxView { inactive_stack: (c.inactive_stack - 1) as nat, ..c }
    } else {
        c
    }
}

/// `c` with its count of open `#in` blocks set to `d`.
pub open spec fn with_depth(c: CtxView, d: nat) -> CtxView {
    CtxView { in_depth: d, ..c }
}

/// At most one branch of a conditional group ever fires: once a branch has
/// been taken (`used_if` set while the group is the directly enclosing
/// suppressed one), every later `#elifdef`/`#elifndef` of the group leaves
/// it suppressed whatever its test would say, and so does `#else`.
pub proof fn lemma_branch_exclusive(c: CtxView, name: Seq<char>, inverted: bool)
    requires
        c.inactive_stack == 1,
        c.used_if,
    ensures
        elifdef_ctx(c, name, inverted) == c,
        else_ctx(c) == c,
{
}

/// Every way a branch comes to fire leaves the group marked as satisfied:
/// a passing `#ifdef`/`#ifndef` sets the flag, and so does a reactivating
/// `#elifdef`/`#elifndef` or `#else`. With [`lemma_branch_exclusive`] this
/// is the exclusivity of branches: after any fired branch, no later branch
/// of the same group fires again.
pub proof fn lemma_fired_branch_marks_group(c: CtxView, name: Seq<char>, inverted: bool)
    ensures
        c.inactive_stack == 0 && ifdef_ctx(c, name, inverted).inactive_stack == 0
            ==> ifdef_ctx(c, name, inverted).used_if,
        c.inactive_stack == 1 && elifdef_ctx(c, name, inverted).inactive_stack == 0
            ==> elifdef_ctx(c, name, inverted).used_if,
        c.inactive_stack == 1 && else_ctx(c).inactive_stack == 0 ==> else_ctx(c).used_if,
{
}

/// A conditional group leaves the suppression depth where it found it:
/// opening a group with `#ifdef` or `#ifndef` and closing it with `#endif`
/// restores the number of suppressed layers, whether or not the test passed,
/// so nesting groups suppresses and releases lines in matched pairs.
pub proof fn lemma_group_restores_depth(c: CtxView, name: Seq<char>, inverted: bool)
    requires
        c.inactive_stack < u64::MAX as nat,
    ensures
        endif_ctx(ifdef_ctx(c, name, inverted)).inactive_stack == c.inactive_stack,
{
}

/// What processing one line does, as far as it is decided by the context
/// and the line alone.
pub ghost enum LineEffect {
    /// The line fails; the context is untouched.
    Fail { err: ErrView },
    /// The line produces no output and leaves the context as `ctx`: a
    /// suppressed line, or a `#define`/`#undef`/conditional command.
    Quiet { ctx: CtxView },
    /// Plain text to be macro-expanded and then routed.
    Expand { text: Seq<char> },
    /// `#include`: the host processes `path` with the same context and the
    /// spliced output is routed.
    Include { path: Seq<char> },
    /// `#exec`: the host runs `cmd` and the captured output is routed.
    RunExec { cmd: Seq<char> },
    /// `#in`: the host spawns `cmd`; on success one more block is open.
    OpenPipe { cmd: Seq<char> },
    /// `#endin`: the innermost block closes and its output is routed.
    ClosePipe,
}

/// The effect of a command line that is actually executed.
pub open spec fn command_effect(c: CtxView, cmd: Cmd, arg: Seq<char>) -> LineEffect {
    match cmd {
        Cmd::Define => LineEffect::Quiet {
            ctx: CtxView {
                macros: spec_insert(c.macros, define_name(arg), define_value(arg)),
                ..c
            },
        },
        Cmd::Undef => LineEffect::Quiet {
            ctx: CtxView { macros: spec_remove(c.macros, arg), ..c },
        },
        Cmd::Ifdef => LineEffect::Quiet { ctx: ifdef_ctx(c, arg, false) },
        Cmd::Ifndef => LineEffect::Quiet { ctx: ifdef_ctx(c, arg, true) },
        Cmd::Elifdef => LineEffect::Quiet { ctx: elifdef_ctx(c, arg, false) },
        Cmd::Elifndef => LineEffect::Quiet { ctx: elifdef_ctx(c, arg, true) },
        Cmd::Else => if arg.len() != 0 {
            LineEffect::Fail { err: ErrView::TooManyParameters { command: "else"@ } }
        } else {
            LineEffect::Quiet { ctx: else_ctx(c) }
        },
        Cmd::Endif => if arg.len() != 0 {
            LineEffect::Fail { err: ErrView::TooManyParameters { command: "endif"@ } }
        } else {
            LineEffect::Quiet { ctx: endif_ctx(c) }
        },
        Cmd::Include => LineEffect::Include { path: arg },
        Cmd::Exec => LineEffect::RunExec { cmd: arg },
        Cmd::In => if c.in_depth == usize::MAX as nat {
            LineEffect::Fail { err: ErrView::PipeFailed }
        } else {
            LineEffect::OpenPipe { cmd: arg }
        },
        Cmd::Endin => if arg.len() != 0 {
            LineEffect::Fail { err: ErrView::TooManyParameters { command: "endin"@ } }
        } else if c.in_depth == 0 {
            LineEffect::Fail { err: ErrView::UnexpectedCommand { command: "endin"@ } }
        } else {
            LineEffect::ClosePipe
        },
    }
}

/// The effect of one raw line on context `c`: strip the terminator,
/// classify, check the name, and let the conditional stack gate everything
/// but the conditional commands themselves.
#[verifier::opaque]
pub open spec fn line_effect(c: CtxView, line: Seq<char>) -> LineEffect {
    match spec_classify(spec_strip_terminator(line)) {
        Classified::Text { text } => if c.inactive_stack > 0 {
            LineEffect::Quiet { ctx: c }
        } else {
            LineEffect::Expand { text }
        },
        Classified::Named { name, arg } => match spec_lookup(name, c.allow_exec) {
            None => LineEffect::Fail { err: ErrView::InvalidCommand { command_name: name } },
            Some(cmd) => if c.inactive_stack > 0 && !cmd_conditional(cmd) {
                LineEffect::Quiet { ctx: c }
            } else {
                command_effect(c, cmd, arg)
            },
        },
    }
}

/// Whether `cmd` is one of the six conditional commands.
fn cmd_is_conditional(cmd: Cmd) -> (r: bool)
    ensures
        r == cmd_conditional(cmd),
{
    match cmd {
        Cmd::Ifdef | Cmd::Ifndef | Cmd::Elifdef | Cmd::Elifndef | Cmd::Else | Cmd::Endif => true,
        _ => false,
    }
}

/// Whether `cmd` is recognized only when execution is permitted.
fn cmd_needs_exec(cmd: Cmd) -> (r: bool)
    ensures
        r == cmd_requires_exec(cmd),
{
    match cmd {
        Cmd::Exec | Cmd::In | Cmd::Endin => true,
        _ => false,
    }
}

/// Look a command name up, respecting the execution permission.
fn lookup_command(name: &str, allow_exec: bool) -> (r: Option<Cmd>)
    ensures
        r == spec_lookup(name@, allow_exec),
{
    let found = if eq_str(name, "exec") {
        Some(Cmd::Exec)
    } else if eq_str(name, "in") {
        Some(Cmd::In)
    } else if eq_str(name, "endin") {
        Some(Cmd::Endin)
    } else if eq_str(name, "include") {
        Some(Cmd::Include)
    } else if eq_str(name, "define") {
        Some(Cmd::Define)
    } else if eq_str(name, "undef") {
        Some(Cmd::Undef)
    } else if eq_str(name, "ifdef") {
        Some(Cmd::Ifdef)
    } else if eq_str(name, "ifndef") {
        Some(Cmd::Ifndef)
    } else if eq_str(name, "elifdef") {
        Some(Cmd::Elifdef)
    } else if eq_str(name, "elifndef") {
        Some(Cmd::Elifndef)
    } else if eq_str(name, "else") {
        Some(Cmd::Else)
    } else if eq_str(name, "endif") {
        Some(Cmd::Endif)
    } else {
        None
    };
    match found {
        Some(cmd) => if cmd_needs_exec(cmd) && !allow_exec {
            None
        } else {
            Some(cmd)
        },
        None => None,
    }
}

/// Bind the name in `line` to the rest of `line` (split at the first space;
/// with no space the value is empty).
fn process_define(line: &str, context: &mut Context) -> (r: Result<String, Error>)
    ensures
        r matches Ok(s) && s@ == Seq::<char>::empty(),
        final(context)@ == (CtxView {
            macros: spec_insert(old(context)@.macros, define_name(line@), define_value(line@)),
            ..old(context)@
        }),
{
    match find_char(line, ' ') {
        None => {
            proof {
                crate::text::lemma_find_char_range(line@, ' ');
            }
            context.macros.insert(String::from_str(line), String::new());
        },
        Some(k) => {
            proof {
                crate::text::lemma_find_char_range(line@, ' ');
            }
            let n = line.unicode_len();
            let name = line.substring_char(0, k);
            let value = line.substring_char(k + 1, n);
            proof {
                assert(name@ =~= define_name(line@));
                assert(value@ =~= define_value(line@));
            }
            context.macros.insert(String::from_str(name), String::from_str(value));
        },
    }
    Ok(String::new())
}

/// Unbind the macro named by the whole of `line`.
fn process_undef(line: &str, context: &mut Context) -> (r: Result<String, Error>)
    ensures
        r matches Ok(s) && s@ == Seq::<char>::empty(),
        final(context)@ == (CtxView { macros: spec_remove(old(context)@.macros, line@), ..old(context)@ }),
{
    context.macros.remove(line);
    Ok(String::new())
}

/// Open a conditional group: `#ifdef` tests that the macro named by `line`
/// is defined, `#ifndef` (`inverted`) that it is not.
fn process_ifdef(line: &str, context: &mut Context, inverted: bool) -> (r: Result<String, Error>)
    ensures
        r matches Ok(s) && s@ == Seq::<char>::empty(),
        final(context)@ == ifdef_ctx(old(context)@, line@, inverted),
{
    if context.inactive_stack > 0 {
        if context.inactive_stack < u64::MAX {
            context.inactive_stack = context.inactive_stack + 1;
        }
    } else if context.macros.contains_key(line) == inverted {
        context.inactive_stack = 1;
        context.used_if = false;
    } else {
        context.used_if = true;
    }
    Ok(String::new())
}

/// A further branch of the current group, taken only when no earlier branch
/// was and its own test passes.
fn process_elifdef(line: &str, context: &mut Context, inverted: bool) -> (r: Result<String, Error>)
    ensures
        r matches Ok(s) && s@ == Seq::<char>::empty(),
        final(context)@ == elifdef_ctx(old(context)@, line@, inverted),
{
    if context.inactive_stack == 0 {
        context.inactive_stack = 1;
    } else if context.inactive_stack == 1 && !context.used_if && context.macros.contains_key(line)
        != inverted {
        context.inactive_stack = 0;
        context.used_if = true;
    }
    Ok(String::new())
}

/// `#else`: takes no argument; fires exactly when no earlier branch did.
fn process_else(line: &str, context: &mut Context) -> (r: Result<String, Error>)
    ensures
        line@.len() != 0 ==> (r matches Err(e) && e@ == (ErrView::TooManyParameters {
            command: "else"@,
        }) && final(context)@ == old(context)@),
        line@.len() == 0 ==> (r matches Ok(s) && s@ == Seq::<char>::empty()) && final(context)@
            == else_ctx(old(context)@),
{
    if !line.is_empty() {
        return Err(Error::TooManyParameters { command: String::from_str("else") });
    }
    if context.inactive_stack == 0 {
        context.inactive_stack = 1;
    } else if context.inactive_stack == 1 && !context.used_if {
        context.inactive_stack = 0;
        context.used_if = true;
    }
    Ok(String::new())
}

/// `#endif`: takes no argument; closes the innermost group.
fn process_endif(line: &str, context: &mut Context) -> (r: Result<String, Error>)
    ensures
        line@.len() != 0 ==> (r matches Err(e) && e@ == (ErrView::TooManyParameters {
            command: "endif"@,
        }) && final(context)@ == old(context)@),
        line@.len() == 0 ==> (r matches Ok(s) && s@ == Seq::<char>::empty()) && final(context)@
            == endif_ctx(old(context)@),
{
    if !line.is_empty() {
        return Err(Error::TooManyParameters { command: String::from_str("endif") });
    }
    if context.inactive_stack != 0 {
        context.inactive_stack = context.inactive_stack - 1;
    }
    Ok(String::new())
}

/// Route a line's output: while an `#in` block is open it goes to the
/// innermost child's input and contributes nothing to the result; otherwise
/// it is the line's contribution.
fn route<H: Host>(out: String, context: &Context, host: &mut H) -> (r: Result<String, Error>)
    ensures
        context@.in_depth == 0 ==> (r matches Ok(s) && s@ == out@),
        context@.in_depth > 0 ==> (r matches Ok(s) ==> s@ == Seq::<char>::empty()),
{
    if context.in_depth > 0 {
        if !out.as_str().is_empty() {
            match host.pipe_write(out.as_str()) {
                Ok(_) => Ok(String::new()),
                Err(e) => Err(e),
            }
        } else {
            Ok(String::new())
        }
    } else {
        Ok(out)
    }
}

/// Expand macros in a text line and route the expansion.
fn process_text<H: Host>(text: &str, context: &mut Context, host: &mut H) -> (r: Result<
    String,
    Error,
>)
    ensures
        final(context)@ == old(context)@,
        old(context)@.in_depth == 0 ==> (r matches Ok(s) && s@ == spec_substitute(
            old(context)@.macros,
            text@,
        )),
        old(context)@.in_depth > 0 ==> (r matches Ok(s) ==> s@ == Seq::<char>::empty()),
{
    let out = substitute(text, &context.macros);
    route(out, context, host)
}

/// Process a single line of input.
///
/// The line's terminator, if any, is stripped; the line is then classified
/// and acted on as [`line_effect`] lays down, and whatever output it
/// produces is routed: appended to the result when no `#in` block is open,
/// written to the innermost open child otherwise. The host performs any
/// file reading or child-process work the line calls for.
///
/// Plain text comes back macro-expanded with a trailing newline; commands
/// come back as their output (empty for the quiet ones). An unknown command
/// name, or an `#exec`-family command without permission, is
/// `Error::InvalidCommand`.
pub fn process_line<H: Host>(line: &str, context: &mut Context, host: &mut H) -> (r: Result<
    String,
    Error,
>)
    ensures
        ({
            let eff = line_effect(old(context)@, line@);
            match eff {
                LineEffect::Fail { err } => r matches Err(e) && e@ == err && final(context)@ == old(
                    context,
                )@,
                LineEffect::Quiet { ctx } => (r matches Ok(s) && s@ == Seq::<char>::empty())
                    && final(context)@ == ctx,
                LineEffect::Expand { text } => final(context)@ == old(context)@ && (if old(
                    context,
                )@.in_depth == 0 {
                    (r matches Ok(s) && s@ == spec_substitute(old(context)@.macros, text))
                } else {
                    r matches Ok(s) ==> s@ == Seq::<char>::empty()
                }),
                LineEffect::Include { path } => (final(context)@.in_depth > 0 ==> (
                r matches Ok(s) ==> s@ == Seq::<char>::empty())),
                LineEffect::RunExec { cmd } => final(context)@ == old(context)@ && (old(
                    context,
                )@.in_depth > 0 ==> (r matches Ok(s) ==> s@ == Seq::<char>::empty())),
                LineEffect::OpenPipe { cmd } => (r matches Ok(s) ==> s@ == Seq::<char>::empty()
                    && final(context)@ == with_depth(old(context)@, old(context)@.in_depth + 1)) && (
                r matches Err(e) ==> final(context)@ == old(context)@),
                LineEffect::ClosePipe => final(context)@ == with_depth(
                    old(context)@,
                    (old(context)@.in_depth - 1) as nat,
                ) && (old(context)@.in_depth > 1 ==> (r matches Ok(s) ==> s@ == Seq::<
                    char,
                >::empty())),
            }
        }),
{
    proof {
        reveal(line_effect);
    }
    let stripped = strip_terminator(line);
    let ghost l = spec_strip_terminator(line@);
    let n = stripped.unicode_len();
    if n > 0 && stripped.get_char(0) == '#' {
        let rest = stripped.substring_char(1, n);
        proof {
            assert(rest@ =~= l.drop_first());
        }
        if !rest.is_empty() && rest.get_char(0) == '#' {
            proof {
                assert(spec_classify(l) == (Classified::Text { text: rest@ }));
            }
            if context.inactive_stack > 0 {
                return Ok(String::new());
            }
            process_text(rest, context, host)
        } else {
            let t = trim_start(rest);
            let (name, arg) = split_command(t);
            proof {
                assert(spec_classify(l) == (Classified::Named { name: name@, arg: arg@ }));
            }
            match lookup_command(name, context.allow_exec) {
                None => Err(
                    Error::InvalidCommand { command_name: String::from_str(name) },
                ),
                Some(cmd) => {
                    if context.inactive_stack > 0 && !cmd_is_conditional(cmd) {
                        return Ok(String::new());
                    }
                    match cmd {
                        Cmd::Define => process_define(arg, context),
                        Cmd::Undef => process_undef(arg, context),
                        Cmd::Ifdef => process_ifdef(arg, context, false),
                        Cmd::Ifndef => process_ifdef(arg, context, true),
                        Cmd::Elifdef => process_elifdef(arg, context, false),
                        Cmd::Elifndef => process_elifdef(arg, context, true),
                        Cmd::Else => process_else(arg, context),
                        Cmd::Endif => process_endif(arg, context),
                        Cmd::Include => {
                            let out = match host.include_file(arg, context) {
                                Ok(out) => out,
                                Err(e) => {
                                    return Err(e);
                                },
                            };
                            route(out, context, host)
                        },
                        Cmd::Exec => {
                            let out = match host.run_command(arg) {
                                Ok(out) => out,
                                Err(e) => {
                                    return Err(e);
                                },
                            };
                            route(out, context, host)
                        },
                        Cmd::In => {
                            if context.in_depth == usize::MAX {
                                return Err(Error::PipeFailed);
                            }
                            match host.pipe_open(arg) {
                                Ok(_) => {},
                                Err(e) => {
                                    return Err(e);
                                },
                            }
                            context.in_depth = context.in_depth + 1;
                            Ok(String::new())
                        },
                        Cmd::Endin => {
                            if !arg.is_empty() {
                                return Err(
                                    Error::TooManyParameters {
                                        command: String::from_str("endin"),
                                    },
                                );
                            }
                            if context.in_depth == 0 {
                                return Err(
                                    Error::UnexpectedCommand {
                                        command: String::from_str("endin"),
                                    },
                                );
                            }
                            context.in_depth = context.in_depth - 1;
                            let out = match host.pipe_close() {
                                Ok(out) => out,
                                Err(e) => {
                                    return Err(e);
                                },
                            };
                            route(out, context, host)
                        },
                    }
                },
            }
        }
    } else {
        proof {
            assert(spec_classify(l) == (Classified::Text { text: l }));
        }
        if context.inactive_stack > 0 {
            return Ok(String::new());
        }
        process_text(stripped, context, host)
    }
}

/// Split a trimmed command line into its name and its argument.
fn split_command<'a>(t: &'a str) -> (r: (&'a str, &'a str))
    ensures
        r.0@ == spec_cmd_name(t@),
        r.1@ == spec_cmd_arg(t@),
{
    match find_char(t, ' ') {
        None => {
            let empty = t.substring_char(0, 0);
            proof {
                assert(empty@ =~= Seq::<char>::empty());
                assert(spec_trim_start(Seq::<char>::empty()) == Seq::<char>::empty());
            }
            (t, empty)
        },
        Some(k) => {
            proof {
                crate::text::lemma_find_char_range(t@, ' ');
            }
            let n = t.unicode_len();
            let name = t.substring_char(0, k);
            let raw = t.substring_char(k + 1, n);
            proof {
                assert(name@ =~= t@.take(k as int));
                assert(raw@ =~= t@.skip(k + 1));
            }
            (name, trim_start(raw))
        },
    }
}

} // verus!
