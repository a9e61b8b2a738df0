use litfile::command::{
    Invocation, LitCmd, Lookup, Output, COMMAND_NAME, OPTIONS_VARIABLE, RUN_FLAGS, VERSION_FLAG,
};
use litfile::error::LitError;

fn owned(parts: &[&str]) -> Vec<String> {
    parts.iter().map(|p| p.to_string()).collect()
}

fn lit() -> LitCmd {
    LitCmd::new(Lookup::Found("/usr/bin/lit".to_string())).unwrap()
}

fn printed(text: &str) -> Output {
    Output { success: true, stdout: text.as_bytes().to_vec() }
}

#[test]
fn words_of_the_command() {
    assert_eq!(COMMAND_NAME, "lit");
    assert_eq!(OPTIONS_VARIABLE, "LIT_OPTIONS");
    assert_eq!(VERSION_FLAG, "--version");
    assert_eq!(RUN_FLAGS, "-sv");
}

#[test]
fn new_takes_the_path_that_was_found() {
    let cmd = LitCmd::new(Lookup::Found("/opt/llvm/bin/lit".to_string())).unwrap();
    assert_eq!(cmd.path(), "/opt/llvm/bin/lit");
}

#[test]
fn command_is_not_made_without_a_runner() {
    assert_eq!(LitCmd::new(Lookup::Missing), Err(LitError::CommandNotFound));
}

#[test]
fn new_fails_on_a_path_that_is_no_text() {
    assert_eq!(LitCmd::new(Lookup::NotText), Err(LitError::CommandNotText));
}

#[test]
fn version_query_asks_the_runner_for_its_version() {
    assert_eq!(
        lit().version_query(),
        Invocation { program: "/usr/bin/lit".to_string(), args: owned(&["--version"]) }
    );
}

#[test]
fn version_drops_the_name_and_the_white_space() {
    assert_eq!(lit().version(printed("lit 17.0.6\n")), Ok("17.0.6".to_string()));
    assert_eq!(lit().version(printed("lit 0.9.0dev")), Ok("0.9.0dev".to_string()));
    assert_eq!(lit().version(printed("litlit  3 \n")), Ok("3".to_string()));
}

#[test]
fn version_keeps_text_that_does_not_start_with_the_name() {
    assert_eq!(lit().version(printed(" lit 1.0")), Ok("lit 1.0".to_string()));
    assert_eq!(lit().version(printed("18.1.0\n")), Ok("18.1.0".to_string()));
    assert_eq!(lit().version(printed("")), Ok("".to_string()));
}

#[test]
fn version_decodes_utf8() {
    let output = Output { success: true, stdout: vec![b'l', b'i', b't', b' ', 0xc3, 0xa9, b'\n'] };
    assert_eq!(lit().version(output), Ok("\u{e9}".to_string()));
}

#[test]
fn version_fails_when_the_runner_failed() {
    let output = Output { success: false, stdout: b"lit 17.0.6\n".to_vec() };
    assert_eq!(lit().version(output), Err(LitError::VersionFailed));
    let output = Output { success: false, stdout: vec![0xff] };
    assert_eq!(lit().version(output), Err(LitError::VersionFailed));
}

#[test]
fn version_fails_on_bytes_that_are_not_utf8() {
    let output = Output { success: true, stdout: vec![b'l', b'i', b't', 0xff] };
    assert_eq!(lit().version(output), Err(LitError::VersionNotText));
    let output = Output { success: true, stdout: vec![0xed, 0xa0, 0x80] };
    assert_eq!(lit().version(output), Err(LitError::VersionNotText));
}

#[test]
fn invocation_puts_the_words_behind_the_directory() {
    let out = lit().invocation("/w/foo.txt.litfile", "-a -j4", Some(owned(&["-a", "-j4"])));
    assert_eq!(
        out,
        Ok(Invocation {
            program: "/usr/bin/lit".to_string(),
            args: owned(&["-sv", "/w/foo.txt.litfile", "-a", "-j4"]),
        })
    );
}

#[test]
fn invocation_without_words_has_the_flags_and_the_directory() {
    let out = lit().invocation("/w/foo.txt.litfile", "", Some(Vec::new()));
    assert_eq!(
        out,
        Ok(Invocation {
            program: "/usr/bin/lit".to_string(),
            args: owned(&["-sv", "/w/foo.txt.litfile"]),
        })
    );
}

#[test]
fn invocation_fails_where_the_split_failed() {
    let out = lit().invocation("/w/foo.txt.litfile", "'oops", None);
    assert_eq!(out, Err(LitError::BadOptions("'oops".to_string())));
}

#[test]
fn run_without_options_has_the_flags_and_the_directory() {
    let expected = Invocation {
        program: "/usr/bin/lit".to_string(),
        args: owned(&["-sv", "/w/foo.txt.litfile"]),
    };
    assert_eq!(lit().run("/w/foo.txt.litfile", None), Ok(expected));
    let expected = Invocation {
        program: "/usr/bin/lit".to_string(),
        args: owned(&["-sv", "/w/foo.txt.litfile"]),
    };
    assert_eq!(lit().run("/w/foo.txt.litfile", Some("".to_string())), Ok(expected));
}

#[test]
fn run_splits_the_options_as_a_shell_does() {
    let out = lit().run("/w/d", Some("-o output.log  --param 'a b' \"c d\" e\\ f".to_string()));
    assert_eq!(
        out,
        Ok(Invocation {
            program: "/usr/bin/lit".to_string(),
            args: owned(&["-sv", "/w/d", "-o", "output.log", "--param", "a b", "c d", "e f"]),
        })
    );
}

#[test]
fn run_fails_on_options_that_end_inside_a_quotation() {
    assert_eq!(
        lit().run("/w/d", Some("-o 'output.log".to_string())),
        Err(LitError::BadOptions("-o 'output.log".to_string()))
    );
    assert_eq!(
        lit().run("/w/d", Some("trailing\\".to_string())),
        Err(LitError::BadOptions("trailing\\".to_string()))
    );
}

#[test]
fn finish_fails_unless_the_process_succeeded() {
    let command = lit().run("/w/d", None).unwrap();
    assert_eq!(command.finish(true), Ok(()));
    assert_eq!(command.finish(false), Err(LitError::Failed));
}

#[test]
fn messages_of_the_errors() {
    assert_eq!(
        LitError::InvalidInput("no/such.c".to_string()).message(),
        "invalid input: no/such.c"
    );
    assert_eq!(LitError::NoFileName.message(), "cannot get input file name");
    assert_eq!(LitError::NameNotText.message(), "filename contain non-utf8 character");
    assert_eq!(LitError::NoExtension.message(), "failed to get input extension");
    assert_eq!(LitError::CommandNotFound.message(), "lit is not found");
    assert_eq!(LitError::CommandNotText.message(), "lit path contain invalid character");
    assert_eq!(LitError::VersionFailed.message(), "cannot find lit version");
    assert_eq!(LitError::VersionNotText.message(), "lit version is not valid utf-8");
    assert_eq!(
        LitError::BadOptions("'x".to_string()).message(),
        "failed to parse LIT_OPTIONS: 'x"
    );
    assert_eq!(LitError::Failed.message(), "");
}
