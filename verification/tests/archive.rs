use encryption_cli::archive::{decode_archive, decode_step, format_dir, format_file, try_decode_archive, try_decode_step, ArchiveOp, Step};
use encryption_cli::crypto::{decrypt, encrypt, generate_key_from_password};
use encryption_cli::error::CliError;
use encryption_cli::test_utils;

/// What decoding an archive does, as a list of operations: directories are
/// written with a trailing slash, files with their contents.
fn replay(data: &[u8]) -> Result<Vec<(String, Vec<u8>)>, String> {
    let ops = match try_decode_archive(data) {
        None => return Err("aborted".to_string()),
        Some(Err(e)) => return Err(e.to_string()),
        Some(Ok(ops)) => ops,
    };
    Ok(ops
        .into_iter()
        .map(|op| match op {
            ArchiveOp::CreateDir { path } => (format!("{}/", path.join("/")), Vec::new()),
            ArchiveOp::WriteFile { path, start, end } => (path.join("/"), data[start..end].to_vec()),
        })
        .collect())
}

#[test]
fn file_archive_layout() {
    let v = format_file("a.txt", b"hi".to_vec()).unwrap();
    let mut expected = b"hi\na.txt\n".to_vec();
    expected.extend_from_slice(&9u64.to_be_bytes());
    assert_eq!(v, expected);
}

#[test]
fn dir_archive_layout() {
    let f1 = format_file("x", b"1".to_vec()).unwrap();
    let f2 = format_file("y", b"22".to_vec()).unwrap();
    let v = format_dir("d", vec![f1.clone(), f2.clone()]);
    let mut expected = f1.clone();
    expected.extend_from_slice(&f2);
    expected.extend_from_slice(b"\nd\n");
    expected.extend_from_slice(&2u64.to_be_bytes());
    expected.push(b'\n');
    assert_eq!(v, expected);
}

#[test]
fn decode_dir_step_gives_count() {
    let v = format_dir("d", vec![format_file("x", b"1".to_vec()).unwrap()]);
    match decode_step(&v).unwrap() {
        Step::Dir { name, count, rest } => {
            assert_eq!(name, "d");
            assert_eq!(count, 1);
            assert_eq!(rest, v.len() - 12);
        },
        Step::File { .. } => panic!("expected a directory"),
    }
}

#[test]
fn decode_file_step() {
    let v = format_file("a.txt", b"hi".to_vec()).unwrap();
    match decode_step(&v).unwrap() {
        Step::File { name, start, end } => {
            assert_eq!(name, "a.txt");
            assert_eq!((start, end), (0, 2));
        },
        Step::Dir { .. } => panic!("expected a file"),
    }
}

#[test]
fn test_file_format() {
    let name = format!("{}.txt", test_utils::random_str(10));
    let expected = test_utils::random_bytes();
    let plaintext = format_file(&name, expected.clone()).unwrap();
    assert_eq!(replay(&plaintext).unwrap(), vec![(name, expected)]);
}

#[test]
fn test_dir_format() {
    let dir = test_utils::random_str(10);
    let mut expected_file_data = Vec::new();
    let mut entries = Vec::new();
    for i in 0..3 {
        let name = format!("{}{i}.txt", test_utils::random_str(10));
        let data = test_utils::random_bytes();
        entries.push(format_file(&name, data.clone()).unwrap());
        expected_file_data.push((format!("{dir}/{name}"), data));
    }
    let plaintext = format_dir(&dir, entries);
    let mut ops = replay(&plaintext).unwrap();
    assert_eq!(ops.remove(0), (format!("{dir}/"), vec![]));
    expected_file_data.reverse();
    assert_eq!(ops, expected_file_data);
}

#[test]
fn file_round_trip() {
    let data: Vec<u8> = (0u8..50).collect();
    let v = format_file("data.bin", data.clone()).unwrap();
    assert_eq!(replay(&v).unwrap(), vec![("data.bin".to_string(), data)]);
}

#[test]
fn dir_round_trip() {
    let inner = format_dir("inner", vec![format_file("c", b"ccc".to_vec()).unwrap()]);
    let a = format_file("a", b"aaaa".to_vec()).unwrap();
    let b = format_file("b", b"bb".to_vec()).unwrap();
    let outer = format_dir("outer", vec![inner, a, b]);
    let ops = replay(&outer).unwrap();
    assert_eq!(
        ops,
        vec![
            ("outer/".to_string(), vec![]),
            ("outer/b".to_string(), b"bb".to_vec()),
            ("outer/a".to_string(), b"aaaa".to_vec()),
            ("outer/inner/".to_string(), vec![]),
            ("outer/inner/c".to_string(), b"ccc".to_vec()),
        ]
    );
}

#[test]
fn files_before_a_subdirectory_stay_outside_it() {
    let a = format_file("a", b"aaaa".to_vec()).unwrap();
    let inner = format_dir("inner", vec![format_file("c", b"ccc".to_vec()).unwrap()]);
    let outer = format_dir("outer", vec![a, inner]);
    assert_eq!(
        replay(&outer).unwrap(),
        vec![
            ("outer/".to_string(), vec![]),
            ("outer/inner/".to_string(), vec![]),
            ("outer/inner/c".to_string(), b"ccc".to_vec()),
            ("outer/a".to_string(), b"aaaa".to_vec()),
        ]
    );
}

#[test]
fn test_encrypt_nested_dir() {
    let outer_file_data = test_utils::random_bytes();
    let inner_file_data = test_utils::random_bytes();
    let inner = format_dir("inner", vec![format_file("inner.txt", inner_file_data.clone()).unwrap()]);
    let outer = format_dir("dir", vec![format_file("outer.txt", outer_file_data.clone()).unwrap(), inner]);
    let pw = test_utils::new_random_password(10);
    let key = generate_key_from_password(&pw);
    let sealed = encrypt(&key, &outer).unwrap();
    let opened = decrypt(&key, &sealed).unwrap();
    let ops = replay(&opened).unwrap();
    let outer_entries: Vec<_> = ops.iter().filter(|o| o.0.starts_with("dir/") && o.0 != "dir/" && o.0.trim_end_matches('/').matches('/').count() == 1).collect();
    assert_eq!(outer_entries.len(), 2, "expected 2 entries in the outer directory");
    assert!(ops.contains(&("dir/outer.txt".to_string(), outer_file_data)), "wrong outer file content");
    let inner_entries: Vec<_> = ops.iter().filter(|o| o.0.starts_with("dir/inner/") && o.0 != "dir/inner/").collect();
    assert_eq!(inner_entries.len(), 1, "expected 1 entry in the inner directory");
    assert!(ops.contains(&("dir/inner/inner.txt".to_string(), inner_file_data)), "wrong inner file content");
}

#[test]
fn length_ending_in_newline_byte_is_misread() {
    // 6 bytes of contents, a name of 2 bytes and 2 newlines make 10, the newline byte.
    let v = format_file("ab", b"123456".to_vec()).unwrap();
    assert_eq!(*v.last().unwrap(), b'\n');
    assert_ne!(replay(&v), Ok(vec![("ab".to_string(), b"123456".to_vec())]));
}

#[test]
fn empty_directory_round_trips() {
    let empty = format_dir("empty", vec![]);
    assert_eq!(replay(&empty), Ok(vec![("empty/".to_string(), vec![])]));
    let outer = format_dir("outer", vec![empty, format_file("f", b"ff".to_vec()).unwrap()]);
    assert_eq!(
        replay(&outer).unwrap(),
        vec![
            ("outer/".to_string(), vec![]),
            ("outer/f".to_string(), b"ff".to_vec()),
            ("outer/empty/".to_string(), vec![]),
        ]
    );
}

#[test]
fn more_entries_recorded_than_present_is_wrong_format() {
    let mut v = format_file("f", b"x".to_vec()).unwrap();
    v.extend_from_slice(b"
d
");
    v.extend_from_slice(&2u64.to_be_bytes());
    v.push(b'\n');
    assert!(matches!(decode_archive(&v), Err(CliError::WrongFileFormat)));
}

#[test]
fn short_input_is_wrong_format() {
    let err = decode_step(b"short").unwrap_err();
    assert!(matches!(err, CliError::WrongFileFormat));
    assert_eq!(err.to_string(), "wrong file format");
    // no newline before the length
    let mut v = b"abcdefgh".to_vec();
    v.extend_from_slice(&5u64.to_be_bytes());
    assert!(matches!(decode_step(&v), Err(CliError::WrongFileFormat)));
}

#[test]
fn zero_length_is_empty_file_error() {
    let mut v = b"\nx\n".to_vec();
    v.extend_from_slice(&0u64.to_be_bytes());
    let err = decode_step(&v).unwrap_err();
    assert!(matches!(err, CliError::EmptyFileAndName));
    assert_eq!(err.to_string(), "empty file and name");
}

#[test]
fn out_of_range_inputs_abort() {
    assert!(try_decode_step(b"").is_none());
    assert!(try_decode_archive(b"").is_none());
    assert!(try_decode_step(b"\n").is_none());
    assert!(try_decode_step(b"12345678").is_none());
    // no newline before the name
    let mut v = b"xx\n".to_vec();
    v.extend_from_slice(&4u64.to_be_bytes());
    assert!(try_decode_step(&v).is_none());
    // a length that reaches before the start
    let mut v = b"\nx\n".to_vec();
    v.extend_from_slice(&100u64.to_be_bytes());
    assert!(try_decode_step(&v).is_none());
}

#[test]
fn invalid_utf8_name_is_replaced() {
    let mut v = b"z\n\xff\n".to_vec();
    v.extend_from_slice(&4u64.to_be_bytes());
    match decode_step(&v).unwrap() {
        Step::File { name, start, end } => {
            assert_eq!(name, "\u{FFFD}");
            assert_eq!((start, end), (0, 1));
        },
        Step::Dir { .. } => panic!("expected a file"),
    }
}
