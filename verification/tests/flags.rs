use std::collections::{HashMap, HashSet};

use encryption_cli::error::CliError;
use encryption_cli::flags::{
    allowed_bool_flags, is_valid_bool_flag, is_valid_str_flag, str_flag_entries, Flags, CMD,
};

#[test]
fn test_default_values() {
    let mut flags = Flags::new(CMD::ENCRYPT);

    // get all mandatory flags
    let table = str_flag_entries(CMD::ENCRYPT);
    let mandatory_flags: Vec<&str> = table.iter().filter(|e| e.1.is_none()).map(|e| e.0).collect();

    let inserted_str_flags: HashMap<&str, &str> =
        HashMap::from_iter(mandatory_flags.iter().map(|&k| (k, "test")));
    let inserted_bool_flags = HashSet::from(["--no-delete"]);

    for (&f, &v) in &inserted_str_flags {
        flags.set_str_flag(f, v.to_string()).unwrap();
    }

    for &f in &inserted_bool_flags {
        flags.set_bool_flag(f, true).unwrap();
    }

    flags.check_flags().unwrap();

    for &(f, default) in &table {
        match flags.get_str_flag(f) {
            Some(v) => {
                if inserted_str_flags.contains_key(f) {
                    // check value is unchanged
                    assert_eq!(inserted_str_flags[f], v, "Inserted value for key {f} was changed to {}", v);
                } else {
                    // check value is set to default
                    match default {
                        None => panic!("Flag {f} has no default value and was not inserted, but is set to {}", v),
                        Some(d) => assert_eq!(v.clone(), d, "Expected default value {d} for flag {f}. Got {v}"),
                    }
                }
            },
            None => assert!(default.is_none() && !inserted_str_flags.contains_key(f)),
        }
    }

    for f in allowed_bool_flags(CMD::ENCRYPT) {
        let expected = inserted_bool_flags.contains(f);
        assert_eq!(flags.get_bool_flag(f), Some(expected), "expected value {expected} for flag {f}. got {}", !expected);
    }
}

#[test]
fn test_mandatory_values() {
    let mut flags = Flags::new(CMD::ENCRYPT);
    // vector of strings that will be referenced by the keys (they must outlive flags)
    let mandatory_flags: Vec<String> = str_flag_entries(CMD::ENCRYPT)
        .iter()
        .filter(|e| e.1.is_none())
        .map(|e| e.0.to_string())
        .collect();
    let mut unset_mandatory_flags: HashSet<&str> =
        HashSet::from_iter(mandatory_flags.iter().map(|x| x.as_str()));

    while let Err(err) = flags.check_flags() {
        let s = err.to_string();
        assert!(s.starts_with("missing mandatory flag"), "unexpected error");

        let flag = s.split_ascii_whitespace().last().unwrap().to_string();
        assert!(unset_mandatory_flags.contains(flag.as_str()));

        flags.set_str_flag(*unset_mandatory_flags.get(flag.as_str()).unwrap(), "test".into()).unwrap();
        unset_mandatory_flags.remove(flag.as_str());
    }

    assert!(unset_mandatory_flags.is_empty())
}

#[test]
fn new_flags_start_false_and_unset() {
    let flags = Flags::new(CMD::ENCRYPT);
    assert_eq!(flags.get_bool_flag("--no-delete"), Some(false));
    assert_eq!(flags.get_bool_flag("--name"), None);
    assert!(flags.get_str_flag("--name").is_none());
    assert!(flags.get_str_flag("--location").is_none());
    let flags = Flags::new(CMD::DECRYPT);
    assert_eq!(flags.get_bool_flag("--no-delete"), None);
}

#[test]
fn str_flag_read_after_write() {
    let mut flags = Flags::new(CMD::ENCRYPT);
    flags.set_str_flag("--name", "archive".to_string()).unwrap();
    assert_eq!(flags.get_str_flag("--name").unwrap(), "archive");
    assert!(flags.get_str_flag("--location").is_none());
}

#[test]
fn duplicate_str_flag_is_reported_and_overwrites() {
    let mut flags = Flags::new(CMD::ENCRYPT);
    flags.set_str_flag("--name", "first".to_string()).unwrap();
    let err = flags.set_str_flag("--name", "second".to_string()).unwrap_err();
    assert!(matches!(err, CliError::DuplicateFlag { .. }));
    assert_eq!(err.to_string(), "duplicate flag '--name'");
    assert_eq!(flags.get_str_flag("--name").unwrap(), "second");
}

#[test]
fn duplicate_bool_flag_is_reported() {
    let mut flags = Flags::new(CMD::ENCRYPT);
    flags.set_bool_flag("--no-delete", true).unwrap();
    let err = flags.set_bool_flag("--no-delete", true).unwrap_err();
    assert_eq!(err.to_string(), "duplicate flag '--no-delete'");
    assert_eq!(flags.get_bool_flag("--no-delete"), Some(true));
}

#[test]
fn flag_of_another_command_is_refused() {
    let mut flags = Flags::new(CMD::DECRYPT);
    let err = flags.set_str_flag("--name", "x".to_string()).unwrap_err();
    assert_eq!(err.to_string(), "flag '--name' is not allowed for command: decrypt");
    assert!(flags.get_str_flag("--name").is_none());
    let err = flags.set_bool_flag("--no-delete", true).unwrap_err();
    assert_eq!(err.to_string(), "flag '--no-delete' is not allowed for command: decrypt");
    assert_eq!(flags.get_bool_flag("--no-delete"), None);
}

#[test]
fn check_names_the_missing_flag() {
    let mut flags = Flags::new(CMD::DECRYPT);
    let err = flags.check_flags().unwrap_err();
    assert_eq!(err.to_string(), "missing mandatory flag --location");
    flags.set_str_flag("--location", "/tmp".to_string()).unwrap();
    assert!(flags.check_flags().is_ok());
    let mut flags = Flags::new(CMD::ENCRYPT);
    flags.set_str_flag("--location", "/tmp".to_string()).unwrap();
    assert_eq!(flags.check_flags().unwrap_err().to_string(), "missing mandatory flag --name");
    let mut flags = Flags::new(CMD::HELP);
    assert!(flags.check_flags().is_ok());
}

#[test]
fn validity_of_flags_per_command() {
    assert!(is_valid_bool_flag("--no-delete", CMD::ENCRYPT));
    assert!(!is_valid_bool_flag("--no-delete", CMD::DECRYPT));
    assert!(!is_valid_bool_flag("--name", CMD::ENCRYPT));
    assert!(is_valid_str_flag("--name", CMD::ENCRYPT));
    assert!(is_valid_str_flag("--location", CMD::ENCRYPT));
    assert!(is_valid_str_flag("--location", CMD::DECRYPT));
    assert!(!is_valid_str_flag("--name", CMD::DECRYPT));
    assert!(!is_valid_str_flag("--location", CMD::HELP));
    assert!(!is_valid_str_flag("--nam", CMD::ENCRYPT));
}

#[test]
fn command_names() {
    assert_eq!(CMD::ENCRYPT.to_string(), "encrypt");
    assert_eq!(CMD::DECRYPT.to_string(), "decrypt");
    assert_eq!(CMD::HELP.to_string(), "help");
}
