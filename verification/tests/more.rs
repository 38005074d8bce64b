//! Edge cases and error behaviour: empty define values, unknown commands,
//! permission gating, argument checking, error wrapping across includes,
//! line splitting, and the table-building constructors.

use gpp::Context;
use gpp::Error;
use gpp::Host;
use gpp::MacroTable;
use gpp::process_file;
use gpp::process_line;
use gpp::process_str;

struct Shell {
    files: Vec<(String, String)>,
    pipes: Vec<(String, String)>,
}

fn sh() -> Shell {
    Shell { files: Vec::new(), pipes: Vec::new() }
}

fn sh_with(files: &[(&str, &str)]) -> Shell {
    Shell {
        files: files.iter().map(|(n, t)| (n.to_string(), t.to_string())).collect(),
        pipes: Vec::new(),
    }
}

fn run(cmd: &str, input: &str) -> Result<String, Error> {
    if cmd == "tr a-z A-Z" {
        return Ok(input.to_uppercase());
    }
    if cmd == "echo hi" {
        return Ok("hi\n".to_string());
    }
    if cmd == "false" {
        return Err(Error::ChildFailed { status: Some(1) });
    }
    if cmd == "binary" {
        return Err(Error::FromUtf8Error { message: "invalid utf-8".to_string() });
    }
    Err(Error::IoError { message: format!("unknown command: {}", cmd) })
}

impl Host for Shell {
    fn read_lines(&mut self, path: &str) -> Result<Vec<String>, Error> {
        for (name, text) in &self.files {
            if name == path {
                return Ok(text.lines().map(|l| l.to_string()).collect());
            }
        }
        Err(Error::IoError { message: format!("no such file: {}", path) })
    }

    fn include_file(&mut self, path: &str, context: &mut Context) -> Result<String, Error> {
        process_file(path, context, self)
    }

    fn run_command(&mut self, cmd: &str) -> Result<String, Error> {
        run(cmd, "")
    }

    fn pipe_open(&mut self, cmd: &str) -> Result<(), Error> {
        if cmd == "broken" {
            return Err(Error::PipeFailed);
        }
        self.pipes.push((cmd.to_string(), String::new()));
        Ok(())
    }

    fn pipe_write(&mut self, text: &str) -> Result<(), Error> {
        match self.pipes.last_mut() {
            Some(p) => {
                p.1.push_str(text);
                Ok(())
            },
            None => Err(Error::PipeFailed),
        }
    }

    fn pipe_close(&mut self) -> Result<String, Error> {
        match self.pipes.pop() {
            Some((cmd, input)) => run(&cmd, &input),
            None => Err(Error::PipeFailed),
        }
    }
}

#[test]
fn define_empty_default() {
    assert_eq!(
        process_str("#define Empty\n-Empty-", &mut Context::new(), &mut sh()).unwrap(),
        "--\n"
    );
}

#[test]
fn undef_leaves_unexpanded() {
    assert_eq!(
        process_str(
            "#define Foo value\n#undef Foo\nFoo",
            &mut Context::new(),
            &mut sh()
        )
        .unwrap(),
        "Foo\n"
    );
}

#[test]
fn recursive_expansion() {
    assert_eq!(
        process_str(
            "#define A B b\n#define B c\nA",
            &mut Context::new(),
            &mut sh()
        )
        .unwrap(),
        "c b\n"
    );
}

#[test]
fn substitution_idempotent_on_output() {
    let mut context = Context::new();
    context.macros.insert("Foo".to_string(), "Bar".to_string());
    let once = process_str("One Foo Two", &mut context, &mut sh()).unwrap();
    let twice = process_str(&once, &mut context, &mut sh()).unwrap();
    assert_eq!(once, twice);
}

#[test]
fn ifdef_unset_suppresses() {
    assert_eq!(
        process_str("#ifdef Foo\nBar\n#endif", &mut Context::new(), &mut sh()).unwrap(),
        ""
    );
}

#[test]
fn invalid_command() {
    let e = process_str("#some text", &mut Context::new(), &mut sh()).unwrap_err();
    match e {
        Error::FileError { filename, line, error } => {
            assert_eq!(filename, "<string>");
            assert_eq!(line, 0);
            match *error {
                Error::InvalidCommand { command_name } => assert_eq!(command_name, "some"),
                other => panic!("unexpected error: {:?}", other),
            }
        },
        other => panic!("unexpected error: {:?}", other),
    }
}

#[test]
fn exec_denied_without_permission() {
    let e = process_line("#exec echo hi", &mut Context::new(), &mut sh()).unwrap_err();
    match e {
        Error::InvalidCommand { command_name } => assert_eq!(command_name, "exec"),
        other => panic!("unexpected error: {:?}", other),
    }
}

#[test]
fn exec_allowed_with_permission() {
    assert_eq!(
        process_line("#exec echo hi", &mut Context::new_exec(), &mut sh()).unwrap(),
        "hi\n"
    );
}

#[test]
fn else_takes_no_argument() {
    let e = process_line("#else junk", &mut Context::new(), &mut sh()).unwrap_err();
    assert!(matches!(e, Error::TooManyParameters { .. }));
    let e = process_line("#endif junk", &mut Context::new(), &mut sh()).unwrap_err();
    assert!(matches!(e, Error::TooManyParameters { .. }));
}

#[test]
fn endin_unexpected() {
    let e = process_line("#endin", &mut Context::new_exec(), &mut sh()).unwrap_err();
    match e {
        Error::UnexpectedCommand { command } => assert_eq!(command, "endin"),
        other => panic!("unexpected error: {:?}", other),
    }
    let e = process_line("#endin junk", &mut Context::new_exec(), &mut sh()).unwrap_err();
    assert!(matches!(e, Error::TooManyParameters { .. }));
}

#[test]
fn include_error_is_wrapped_twice() {
    let e = process_str(
        "#include bad.txt",
        &mut Context::new(),
        &mut sh_with(&[("bad.txt", "fine\n#bogus")]),
    )
    .unwrap_err();
    match e {
        Error::FileError { filename, line, error } => {
            assert_eq!(filename, "<string>");
            assert_eq!(line, 0);
            match *error {
                Error::FileError { filename, line, error } => {
                    assert_eq!(filename, "bad.txt");
                    assert_eq!(line, 1);
                    assert!(matches!(*error, Error::InvalidCommand { .. }));
                },
                other => panic!("unexpected error: {:?}", other),
            }
        },
        other => panic!("unexpected error: {:?}", other),
    }
}

#[test]
fn include_missing_file() {
    let e = process_str("#include nowhere.txt", &mut Context::new(), &mut sh()).unwrap_err();
    match e {
        Error::FileError { line, error, .. } => {
            assert_eq!(line, 0);
            assert!(matches!(*error, Error::IoError { .. }));
        },
        other => panic!("unexpected error: {:?}", other),
    }
}

#[test]
fn include_shares_context_both_ways() {
    let mut context = Context::new();
    let out = process_str(
        "#include defs.txt\nGreeting",
        &mut context,
        &mut sh_with(&[("defs.txt", "#define Greeting hello")]),
    )
    .unwrap();
    assert_eq!(out, "hello\n");
    assert_eq!(context.macros.get("Greeting").unwrap(), "hello");
}

#[test]
fn commands_inside_in_block_route_to_child() {
    assert_eq!(
        process_str(
            "#in tr a-z A-Z\nplain text\n#exec echo hi\n#endin",
            &mut Context::new_exec(),
            &mut sh()
        )
        .unwrap(),
        "PLAIN TEXT\nHI\n"
    );
}

#[test]
fn suppressed_lines_do_not_run() {
    // The #exec inside the failed group never runs, but the unknown name
    // inside it is still an error.
    assert_eq!(
        process_str(
            "#ifdef Foo\n#exec echo hi\n#endif",
            &mut Context::new_exec(),
            &mut sh()
        )
        .unwrap(),
        ""
    );
    let e = process_str("#ifdef Foo\n#bogus\n#endif", &mut Context::new(), &mut sh())
        .unwrap_err();
    match e {
        Error::FileError { line, error, .. } => {
            assert_eq!(line, 1);
            assert!(matches!(*error, Error::InvalidCommand { .. }));
        },
        other => panic!("unexpected error: {:?}", other),
    }
}

#[test]
fn stray_elifdef_suppresses() {
    assert_eq!(
        process_str(
            "#define A\n#elifdef A\ntext\n#endif",
            &mut Context::new(),
            &mut sh()
        )
        .unwrap(),
        ""
    );
}

#[test]
fn fired_elif_blocks_later_branches() {
    // Both B and D are defined, but once the B branch has fired the group is
    // satisfied: the D branch must never fire.
    assert_eq!(
        process_str(
            "#define B\n#define D\n#ifdef A\na\n#elifdef B\nb\n#elifdef C\nc\n#elifdef D\nd\n#endif",
            &mut Context::new(),
            &mut sh()
        )
        .unwrap(),
        "b\n"
    );
}

#[test]
fn fired_elif_blocks_else() {
    // The B branch fires and satisfies the group; the #else after the failed
    // C branch must stay suppressed.
    assert_eq!(
        process_str(
            "#define B\n#ifdef A\na\n#elifdef B\nb\n#elifdef C\nc\n#else\ne\n#endif",
            &mut Context::new(),
            &mut sh()
        )
        .unwrap(),
        "b\n"
    );
}

#[test]
fn nested_groups() {
    assert_eq!(
        process_str(
            "#define A\n#ifdef B\n#ifdef A\nhidden\n#endif\nalso hidden\n#endif\nshown",
            &mut Context::new(),
            &mut sh()
        )
        .unwrap(),
        "shown\n"
    );
}

#[test]
fn else_branches() {
    assert_eq!(
        process_str(
            "#ifdef A\nyes\n#else\nno\n#endif",
            &mut Context::new(),
            &mut sh()
        )
        .unwrap(),
        "no\n"
    );
    assert_eq!(
        process_str(
            "#define A\n#ifdef A\nyes\n#else\nno\n#endif",
            &mut Context::new(),
            &mut sh()
        )
        .unwrap(),
        "yes\n"
    );
}

#[test]
fn crlf_lines() {
    assert_eq!(
        process_str("a\r\nb", &mut Context::new(), &mut sh()).unwrap(),
        "a\nb\n"
    );
}

#[test]
fn line_terminator_added() {
    assert_eq!(
        process_line("no newline", &mut Context::new(), &mut sh()).unwrap(),
        "no newline\n"
    );
    assert_eq!(
        process_line("kept\n", &mut Context::new(), &mut sh()).unwrap(),
        "kept\n"
    );
}

#[test]
fn failing_child_aborts() {
    let e = process_str("#exec false", &mut Context::new_exec(), &mut sh()).unwrap_err();
    match e {
        Error::FileError { line, error, .. } => {
            assert_eq!(line, 0);
            assert!(matches!(*error, Error::ChildFailed { status: Some(1) }));
        },
        other => panic!("unexpected error: {:?}", other),
    }
}

#[test]
fn word_characters() {
    assert!(gpp::chars::is_word_char('a'));
    assert!(gpp::chars::is_word_char('Z'));
    assert!(gpp::chars::is_word_char('7'));
    assert!(gpp::chars::is_word_char('_'));
    assert!(!gpp::chars::is_word_char(' '));
    assert!(!gpp::chars::is_word_char('$'));
    assert!(!gpp::chars::is_word_char('#'));
}

#[test]
fn default_context_is_new() {
    let mut context = Context::default();
    assert_eq!(process_str("plain", &mut context, &mut sh()).unwrap(), "plain\n");
    let e = process_line("#exec echo hi", &mut context, &mut sh()).unwrap_err();
    assert!(matches!(e, Error::InvalidCommand { .. }));
}

#[test]
fn undecodable_child_output() {
    let e = process_line("#exec binary", &mut Context::new_exec(), &mut sh()).unwrap_err();
    assert!(matches!(e, Error::FromUtf8Error { .. }));
}

#[test]
fn failed_pipe_setup_leaves_no_block_open() {
    let mut context = Context::new_exec();
    let e = process_str("#in broken
after", &mut context, &mut sh()).unwrap_err();
    match e {
        Error::FileError { line, error, .. } => {
            assert_eq!(line, 0);
            assert!(matches!(*error, Error::PipeFailed));
        },
        other => panic!("unexpected error: {:?}", other),
    }
    assert_eq!(context.in_depth, 0);
    assert_eq!(process_str("after", &mut context, &mut sh()).unwrap(), "after
");
}

#[test]
fn bare_marker_is_error() {
    let e = process_line("#", &mut Context::new(), &mut sh()).unwrap_err();
    match e {
        Error::InvalidCommand { command_name } => assert_eq!(command_name, ""),
        other => panic!("unexpected error: {:?}", other),
    }
}

#[test]
fn open_block_persists_across_calls() {
    let mut context = Context::new_exec();
    let mut host = sh();
    assert_eq!(
        process_str("#in tr a-z A-Z\nhello", &mut context, &mut host).unwrap(),
        ""
    );
    assert_eq!(context.in_depth, 1);
    assert_eq!(process_str("#endin", &mut context, &mut host).unwrap(), "HELLO\n");
    assert_eq!(context.in_depth, 0);
}

#[test]
fn from_macros_iter_last_binding_wins() {
    let pairs = vec![
        ("A".to_string(), "one".to_string()),
        ("B".to_string(), "two".to_string()),
        ("A".to_string(), "three".to_string()),
    ];
    let mut context = Context::from_macros_iter(pairs);
    assert_eq!(process_str("A B", &mut context, &mut sh()).unwrap(), "three two\n");
}

#[test]
fn from_macros_table() {
    let mut table = MacroTable::new();
    table.insert("X".to_string(), "y".to_string());
    assert_eq!(table.len(), 1);
    assert!(table.contains_key("X"));
    let mut context = Context::from_macros(table);
    assert_eq!(process_str("X", &mut context, &mut sh()).unwrap(), "y\n");
    context.macros.remove("X");
    assert!(context.macros.get("X").is_none());
}
