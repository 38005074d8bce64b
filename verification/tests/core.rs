//! The core behaviour: substitution, defining, conditionals, includes and
//! command piping, driven through a host that keeps files in memory and
//! stands in for the few shell commands these inputs use.

use gpp::Context;
use gpp::Error;
use gpp::Host;
use gpp::process_file;
use gpp::process_str;

struct Shell {
    files: Vec<(String, String)>,
    pipes: Vec<(String, String)>,
}

fn sh() -> Shell {
    Shell { files: Vec::new(), pipes: Vec::new() }
}

fn sh_with(files: &[(&str, &str)]) -> Shell {
    Shell {
        files: files.iter().map(|(n, t)| (n.to_string(), t.to_string())).collect(),
        pipes: Vec::new(),
    }
}

/// A stand-in for the shell: the handful of commands these tests run.
fn run(cmd: &str, input: &str) -> Result<String, Error> {
    if cmd == "sed 's/cat/dog/g'" {
        return Ok(input.replace("cat", "dog"));
    }
    if cmd == "head -c4" {
        return Ok(input.chars().take(4).collect());
    }
    if cmd == "echo 'Hello there!' | sed 's/there/world/'" {
        return Ok("Hello world!\n".to_string());
    }
    Err(Error::IoError { message: format!("unknown command: {}", cmd) })
}

impl Host for Shell {
    fn read_lines(&mut self, path: &str) -> Result<Vec<String>, Error> {
        for (name, text) in &self.files {
            if name == path {
                return Ok(text.lines().map(|l| l.to_string()).collect());
            }
        }
        Err(Error::IoError { message: format!("no such file: {}", path) })
    }

    fn include_file(&mut self, path: &str, context: &mut Context) -> Result<String, Error> {
        process_file(path, context, self)
    }

    fn run_command(&mut self, cmd: &str) -> Result<String, Error> {
        run(cmd, "")
    }

    fn pipe_open(&mut self, cmd: &str) -> Result<(), Error> {
        self.pipes.push((cmd.to_string(), String::new()));
        Ok(())
    }

    fn pipe_write(&mut self, text: &str) -> Result<(), Error> {
        match self.pipes.last_mut() {
            Some(p) => {
                p.1.push_str(text);
                Ok(())
            },
            None => Err(Error::PipeFailed),
        }
    }

    fn pipe_close(&mut self) -> Result<String, Error> {
        match self.pipes.pop() {
            Some((cmd, input)) => run(&cmd, &input),
            None => Err(Error::PipeFailed),
        }
    }
}

#[test]
fn substitution() {
    let mut context = Context::new();
    context.macros.insert("Foo".to_string(), "Bar".to_string());

    assert_eq!(process_str("Foo", &mut context, &mut sh()).unwrap(), "Bar\n");
    assert_eq!(process_str("AFooB", &mut context, &mut sh()).unwrap(), "AFooB\n");
    assert_eq!(process_str("Foo_", &mut context, &mut sh()).unwrap(), "Foo_\n");
    assert_eq!(process_str("_Foo", &mut context, &mut sh()).unwrap(), "_Foo\n");
    assert_eq!(
        process_str("One Foo Two", &mut context, &mut sh()).unwrap(),
        "One Bar Two\n"
    );
}

#[test]
fn define() {
    assert_eq!(
        process_str("#define Baz Quux\nBaz\n", &mut Context::new(), &mut sh()).unwrap(),
        "Quux\n"
    );
    assert_eq!(
        process_str(
            "# define Baz\nBaz\n#undef Quux\n# undef Baz\nBaz\n",
            &mut Context::new(),
            &mut sh()
        )
        .unwrap(),
        "\nBaz\n"
    );
}

#[test]
fn context() {
    let mut context = Context::new();
    context.macros.insert("$Foo".to_string(), "1".to_string());
    assert_eq!(process_str("$Foo", &mut context, &mut sh()).unwrap(), "1\n");
    assert_eq!(
        process_str("#define $Foo 2", &mut context, &mut sh()).unwrap(),
        ""
    );
    assert_eq!(process_str("$Foo", &mut context, &mut sh()).unwrap(), "2\n");
}

#[test]
fn ifdef() {
    let mut context = Context::new();

    assert_eq!(
        process_str(
            "#define Foo
#ifdef Foo
Bar
#endif",
            &mut context,
            &mut sh()
        )
        .unwrap(),
        "Bar\n"
    );
}

#[test]
fn elif() {
    assert_eq!(
        process_str(
            "#define Foo foo
#define Bar bar
#ifdef Foo
Just Foo
# ifdef Baz
No Line
# elifdef Bar
Foo and Bar
# endif
#endif",
            &mut Context::new(),
            &mut sh()
        )
        .unwrap(),
        "Just foo\nfoo and bar\n"
    );
}

#[test]
fn ifndef() {
    assert_eq!(
        process_str(
            "#define A
#ifndef A
No Text
#elifndef B
text
#endif",
            &mut Context::new(),
            &mut sh()
        )
        .unwrap(),
        "text\n"
    );
}

const TEST_TXT: &str = "#ifdef A
a macro is A
#elifdef B
b macro is B
#else
no macro
#endif";

#[test]
fn include_splices() {
    assert_eq!(
        process_str(
            "#define A some_text
#include test.txt",
            &mut Context::new(),
            &mut sh_with(&[("test.txt", TEST_TXT)])
        )
        .unwrap(),
        "a macro is some_text\n"
    );

    assert_eq!(
        process_str(
            "#define B more_text
#include test.txt",
            &mut Context::new(),
            &mut sh_with(&[("test.txt", TEST_TXT)])
        )
        .unwrap(),
        "b macro is more_text\n"
    );

    assert_eq!(
        process_str(
            "#include test.txt",
            &mut Context::new(),
            &mut sh_with(&[("test.txt", TEST_TXT)])
        )
        .unwrap(),
        "no macro\n"
    );
}

#[test]
fn include_dir() {
    assert_eq!(
        process_str(
            "#include tests/include.txt",
            &mut Context::new(),
            &mut sh_with(&[("tests/include.txt", "some text")])
        )
        .unwrap(),
        "some text\n"
    );
}

#[test]
fn exec() {
    assert_eq!(
        process_str(
            "#exec echo 'Hello there!' | sed 's/there/world/'",
            &mut Context::new_exec(),
            &mut sh()
        )
        .unwrap(),
        "Hello world!\n"
    );
}

#[test]
fn input() {
    assert_eq!(
        process_str(
            "#in sed 's/cat/dog/g'\nI love cats!\n#endin",
            &mut Context::new_exec(),
            &mut sh()
        )
        .unwrap(),
        "I love dogs!\n"
    );
}

#[test]
fn nested_input() {
    assert_eq!(
        process_str(
            "
#in sed 's/cat/dog/g'
I love cats!
# in head -c4
cats are great.
# endin
#endin",
            &mut Context::new_exec(),
            &mut sh()
        )
        .unwrap(),
        "
I love dogs!
dogs"
    );
}

#[test]
fn literal_hash() {
    assert_eq!(
        process_str(" ## literal hash", &mut Context::new(), &mut sh()).unwrap(),
        " ## literal hash\n"
    );
    assert_eq!(
        process_str("## literal hash", &mut Context::new(), &mut sh()).unwrap(),
        "# literal hash\n"
    );
}
