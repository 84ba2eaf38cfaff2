use command_ext::{convert_to_commandline, decompose_command, Command};

fn line(cmd: &Command) -> String {
    convert_to_commandline(cmd, "test").unwrap()
}

#[test]
fn program_alone() {
    assert_eq!(line(&Command::new(b"ls")), "   ls ");
}

#[test]
fn program_with_arguments() {
    let cmd = Command::new(b"echo").arg(b"hello world").arg(b"x");
    assert_eq!(line(&cmd), "   echo hello\\ world x");
}

#[test]
fn all_four_segments_in_order() {
    let cmd = Command::new(b"echo")
        .arg(b"hello world")
        .env(b"FOO", b"bar baz")
        .env_remove(b"OLD")
        .current_dir(b"/tmp/my dir");
    assert_eq!(
        line(&cmd),
        "export FOO=bar\\ baz; unset OLD; cd /tmp/my\\ dir; echo hello\\ world"
    );
}

#[test]
fn several_exports_and_removals() {
    let cmd = Command::new(b"run")
        .env(b"A", b"1")
        .env_remove(b"X")
        .env(b"B", b"")
        .env_remove(b"Y");
    assert_eq!(line(&cmd), "export A=1; export B=''; unset X; unset Y;  run ");
}

#[test]
fn working_directory_only() {
    let cmd = Command::new(b"pwd").current_dir(b"/");
    assert_eq!(line(&cmd), "  cd /; pwd ");
}

#[test]
fn empty_program_and_argument() {
    let cmd = Command::new(b"").arg(b"");
    assert_eq!(line(&cmd), "   '' ''");
}

#[test]
fn building_twice_gives_the_same_string() {
    let cmd = Command::new(b"echo").arg(b"a b").env(b"K", b"v w").env_remove(b"Z");
    assert_eq!(line(&cmd), line(&cmd));
}

/// The statements of a command string, each as its words, and the words of
/// the final command.
fn statements(line: &str) -> (Vec<Vec<String>>, Vec<String>) {
    let mut settings = Vec::new();
    let mut current = Vec::new();
    for word in shellwords::split(line).unwrap() {
        match word.strip_suffix(';') {
            Some(last) => {
                current.push(last.to_string());
                settings.push(current);
                current = Vec::new();
            }
            None => current.push(word),
        }
    }
    settings.sort();
    (settings, current)
}

#[test]
fn order_of_environment_changes_does_not_change_the_effect() {
    let one = Command::new(b"prog")
        .arg(b"x y")
        .env(b"A", b"1 2")
        .env(b"B", b"3")
        .env_remove(b"C")
        .env_remove(b"D")
        .current_dir(b"/w");
    let two = Command::new(b"prog")
        .arg(b"x y")
        .env_remove(b"D")
        .env(b"B", b"3")
        .env_remove(b"C")
        .env(b"A", b"1 2")
        .current_dir(b"/w");
    assert_ne!(line(&one), line(&two));
    assert_eq!(statements(&line(&one)), statements(&line(&two)));
    let (settings, last) = statements(&line(&one));
    assert_eq!(
        settings,
        vec![
            vec!["cd".to_string(), "/w".to_string()],
            vec!["export".to_string(), "A=1 2".to_string()],
            vec!["export".to_string(), "B=3".to_string()],
            vec!["unset".to_string(), "C".to_string()],
            vec!["unset".to_string(), "D".to_string()],
        ]
    );
    assert_eq!(last, vec!["prog".to_string(), "x y".to_string()]);
}

#[test]
fn program_that_is_not_text_is_refused() {
    let err = convert_to_commandline(&Command::new(&[0xff, 0xfe]), "redirect").unwrap_err();
    assert_eq!(err.purpose, "redirect");
    assert_eq!(err.message(), "redirect requires all parts of the command be valid utf8");
}

#[test]
fn argument_that_is_not_text_is_refused() {
    let cmd = Command::new(b"echo").arg(b"ok").arg(&[b'a', 0x80]);
    assert!(convert_to_commandline(&cmd, "run_on_remote").is_err());
}

#[test]
fn environment_that_is_not_text_is_refused() {
    let name = Command::new(b"echo").env(&[0xc3], b"v");
    assert!(convert_to_commandline(&name, "t").is_err());
    let value = Command::new(b"echo").env(b"K", &[0xc3, 0x28]);
    assert!(convert_to_commandline(&value, "t").is_err());
    let removed = Command::new(b"echo").env_remove(&[0xf0, 0x9f]);
    assert!(convert_to_commandline(&removed, "t").is_err());
}

#[test]
fn working_directory_that_is_not_text_is_refused() {
    let cmd = Command::new(b"echo").current_dir(&[b'/', 0xff]);
    assert!(convert_to_commandline(&cmd, "t").is_err());
}

#[test]
fn text_beyond_ascii_is_accepted() {
    let cmd = Command::new("écho".as_bytes()).arg("日本".as_bytes());
    assert_eq!(line(&cmd), "   \\écho \\日\\本");
}

#[test]
fn decompose_splits_the_environment() {
    let cmd = Command::new(b"prog")
        .arg(b"a")
        .arg(b"b")
        .env(b"S1", b"v1")
        .env_remove(b"D1")
        .env(b"S2", b"v2")
        .current_dir(b"/d");
    let (exe, args, cwd, set, del) = decompose_command(&cmd);
    assert_eq!(exe, &b"prog".to_vec());
    assert_eq!(args, &vec![b"a".to_vec(), b"b".to_vec()]);
    assert_eq!(cwd, Some(&b"/d".to_vec()));
    assert_eq!(set, vec![(&b"S1".to_vec(), &b"v1".to_vec()), (&b"S2".to_vec(), &b"v2".to_vec())]);
    assert_eq!(del, vec![&b"D1".to_vec()]);
}

#[test]
fn decompose_of_a_bare_program() {
    let cmd = Command::new(b"prog");
    let (exe, args, cwd, set, del) = decompose_command(&cmd);
    assert_eq!(exe, &b"prog".to_vec());
    assert!(args.is_empty());
    assert_eq!(cwd, None);
    assert!(set.is_empty());
    assert!(del.is_empty());
}

#[test]
fn a_name_is_never_both_set_and_removed() {
    let cmd = Command::new(b"p").env(b"K", b"1").env_remove(b"K").env(b"L", b"2").env(b"L", b"3");
    let (_, _, _, set, del) = decompose_command(&cmd);
    assert_eq!(set, vec![(&b"L".to_vec(), &b"3".to_vec())]);
    assert_eq!(del, vec![&b"K".to_vec()]);
}
