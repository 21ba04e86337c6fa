use encryption_cli::cli::{parse_cmd_flags, parse_invocation, try_parse_invocation, CtxBuilder, Invocation};
use encryption_cli::descriptions::{ENCRYPT_ALIAS_HELP, TOOL_DESCRIPTION};
use encryption_cli::error::CliError;
use encryption_cli::flags::CMD;

fn args(words: &[&str]) -> Vec<String> {
    words.iter().map(|w| w.to_string()).collect()
}

fn error_of(words: &[&str]) -> String {
    let a = args(words);
    match parse_invocation(&a) {
        Err(e) => e.to_string(),
        Ok(_) => panic!("expected an error"),
    }
}

#[test]
fn empty_command_line() {
    assert_eq!(error_of(&[]), "no command");
}

#[test]
fn unknown_command() {
    assert_eq!(error_of(&["frobnicate"]), "unknown command frobnicate");
}

#[test]
fn missing_target() {
    assert_eq!(error_of(&["e"]), "expected target");
    assert_eq!(error_of(&["decrypt"]), "expected target");
}

#[test]
fn help_texts() {
    let a = args(&["help"]);
    assert!(matches!(parse_invocation(&a), Ok(Invocation::Help(t)) if t == TOOL_DESCRIPTION));
    let a = args(&["help", "e"]);
    assert!(matches!(parse_invocation(&a), Ok(Invocation::Help(t)) if t == ENCRYPT_ALIAS_HELP));
    assert_eq!(error_of(&["help", "x"]), "unknown command 'x'");
}

#[test]
fn encrypt_with_flags_builds_context() {
    let a = args(&["encrypt", "f.txt", "--name", "n", "junk", "--location", "/tmp", "--no-delete"]);
    let mut builder = match parse_invocation(&a) {
        Ok(Invocation::Encrypt(b)) => b,
        _ => panic!("expected an encryption"),
    };
    assert_eq!(builder.target.as_deref(), Some("f.txt"));
    assert_eq!(builder.flags.get_str_flag("--name").unwrap(), "n");
    assert_eq!(builder.flags.get_bool_flag("--no-delete"), Some(true));
    builder.key = Some([1u8; 32]);
    let ctx = builder.build().unwrap();
    assert_eq!(ctx.target, "f.txt");
    assert_eq!(ctx.location, "/tmp");
    assert_eq!(ctx.name.as_deref(), Some("n"));
    assert_eq!(ctx.key, [1u8; 32]);
}

#[test]
fn decrypt_reads_flags_from_the_target_on() {
    let a = args(&["d", "x.e", "--location", "/tmp"]);
    let builder = match parse_invocation(&a) {
        Ok(Invocation::Decrypt(b)) => b,
        _ => panic!("expected a decryption"),
    };
    assert_eq!(builder.target.as_deref(), Some("x.e"));
    assert_eq!(builder.flags.get_str_flag("--location").unwrap(), "/tmp");
    // flags are checked against those of encrypt, but stored for decrypt
    assert_eq!(
        error_of(&["d", "x.e", "--no-delete"]),
        "flag '--no-delete' is not allowed for command: decrypt"
    );
    assert_eq!(error_of(&["d", "x.e", "--name", "n"]), "flag '--name' is not allowed for command: decrypt");
}

#[test]
fn duplicate_flags_on_the_command_line() {
    assert_eq!(error_of(&["e", "f", "--no-delete", "--no-delete"]), "duplicate flag '--no-delete'");
    assert_eq!(error_of(&["e", "f", "--name", "a", "--name", "b"]), "duplicate flag '--name'");
}

#[test]
fn flag_without_value_runs_past_the_end() {
    let a = args(&["e", "f", "--name"]);
    assert!(try_parse_invocation(&a).is_none());
    let a = args(&["e", "f", "--name", "n"]);
    assert!(try_parse_invocation(&a).is_some());
}

#[test]
fn build_reports_what_is_missing() {
    let b = CtxBuilder::new(CMD::ENCRYPT);
    assert!(matches!(b.build(), Err(CliError::MissingTarget)));
    let mut b = CtxBuilder::new(CMD::ENCRYPT);
    b.target = Some("t".to_string());
    assert_eq!(b.build().err().unwrap().to_string(), "missing key");
    let mut b = CtxBuilder::new(CMD::ENCRYPT);
    b.target = Some("t".to_string());
    b.key = Some([0u8; 32]);
    assert_eq!(b.build().err().unwrap().to_string(), "missing mandatory flag --name");
    assert_eq!(CliError::MissingTarget.to_string(), "missing target");
    let b = CtxBuilder::new(CMD::HELP);
    assert!(matches!(b.build(), Err(CliError::MissingTarget)));
    let mut b = CtxBuilder::new(CMD::HELP);
    b.target = Some("t".to_string());
    assert!(matches!(b.build(), Err(CliError::MissingKey)));
}

#[test]
fn parse_flags_into_builder() {
    let a = args(&["--location", "/x", "--other"]);
    let mut b = CtxBuilder::new(CMD::DECRYPT);
    parse_cmd_flags(&mut b, &a, CMD::DECRYPT).unwrap();
    assert_eq!(b.flags.get_str_flag("--location").unwrap(), "/x");
    let a = args(&["--location", "/x", "--location", "/y"]);
    let mut b = CtxBuilder::new(CMD::DECRYPT);
    assert_eq!(parse_cmd_flags(&mut b, &a, CMD::DECRYPT).unwrap_err().to_string(), "duplicate flag '--location'");
}
