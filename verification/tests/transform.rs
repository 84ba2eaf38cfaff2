use command_ext::{Command, CommandExt};

fn sample() -> Command {
    Command::new(b"make")
        .arg(b"-j")
        .arg(b"all targets")
        .current_dir(b"/src")
        .env_remove(b"TERM")
        .env(b"CC", b"gcc -O2")
}

#[test]
fn run_as_root_wraps_in_sudo() {
    let new = sample().run_as_root();
    assert_eq!(new.get_program(), &b"sudo".to_vec());
    assert_eq!(
        new.get_args(),
        &vec![b"make".to_vec(), b"-j".to_vec(), b"all targets".to_vec()]
    );
    assert_eq!(new.get_current_dir(), Some(&b"/src".to_vec()));
    assert_eq!(
        new.get_envs(),
        &vec![(b"CC".to_vec(), Some(b"gcc -O2".to_vec())), (b"TERM".to_vec(), None)]
    );
}

#[test]
fn run_as_root_of_a_bare_program() {
    let new = Command::new(b"id").run_as_root();
    assert_eq!(new.get_program(), &b"sudo".to_vec());
    assert_eq!(new.get_args(), &vec![b"id".to_vec()]);
    assert_eq!(new.get_current_dir(), None);
    assert!(new.get_envs().is_empty());
}

#[test]
fn run_as_selects_the_user_first() {
    let new = sample().run_as("build bot");
    assert_eq!(new.get_program(), &b"sudo".to_vec());
    assert_eq!(
        new.get_args(),
        &vec![
            b"-u".to_vec(),
            b"build bot".to_vec(),
            b"make".to_vec(),
            b"-j".to_vec(),
            b"all targets".to_vec(),
        ]
    );
    assert_eq!(new.get_current_dir(), Some(&b"/src".to_vec()));
    assert_eq!(
        new.get_envs(),
        &vec![(b"CC".to_vec(), Some(b"gcc -O2".to_vec())), (b"TERM".to_vec(), None)]
    );
}

#[test]
fn escalation_takes_bytes_that_are_not_text() {
    let new = Command::new(&[0xff]).arg(&[0xfe]).run_as_root();
    assert_eq!(new.get_args(), &vec![vec![0xffu8], vec![0xfeu8]]);
}

#[test]
fn escalation_leaves_the_original_alone() {
    let cmd = sample();
    let _ = cmd.run_as_root();
    let _ = cmd.run_as("u");
    assert_eq!(cmd.get_program(), &b"make".to_vec());
    assert_eq!(cmd.get_args().len(), 2);
    assert_eq!(cmd.get_envs().len(), 2);
}

#[test]
fn run_on_remote_builds_an_ssh_call() {
    let cmd = Command::new(b"uname").arg(b"-a");
    let new = cmd.run_on_remote("admin", [192, 168, 0, 1], b"/keys/id rsa").unwrap();
    assert_eq!(new.get_program(), &b"ssh".to_vec());
    assert_eq!(
        new.get_args(),
        &vec![
            b"-i".to_vec(),
            b"/keys/id rsa".to_vec(),
            b"admin@192.168.0.1".to_vec(),
            b"   uname -a".to_vec(),
        ]
    );
    assert_eq!(new.get_current_dir(), None);
    assert!(new.get_envs().is_empty());
}

#[test]
fn run_on_remote_carries_the_environment_in_the_command_string() {
    let cmd = Command::new(b"printenv").arg(b"FOO").env(b"FOO", b"bar baz");
    let new = cmd.run_on_remote("u", [10, 0, 0, 7], b"k").unwrap();
    let line = String::from_utf8(new.get_args()[3].clone()).unwrap();
    let export = line.find("export FOO=bar\\ baz;").unwrap();
    let program = line.find("printenv").unwrap();
    assert!(export < program);
    assert_eq!(line, "export FOO=bar\\ baz;   printenv FOO");
}

#[test]
fn remote_addresses_are_written_in_dotted_decimal() {
    let cases: [([u8; 4], &str); 5] = [
        ([0, 0, 0, 0], "r@0.0.0.0"),
        ([255, 255, 255, 255], "r@255.255.255.255"),
        ([10, 20, 30, 40], "r@10.20.30.40"),
        ([9, 99, 100, 101], "r@9.99.100.101"),
        ([127, 0, 0, 1], "r@127.0.0.1"),
    ];
    for (ip, expected) in cases {
        let new = Command::new(b"x").run_on_remote("r", ip, b"k").unwrap();
        assert_eq!(new.get_args()[2], expected.as_bytes().to_vec());
    }
}

#[test]
fn run_on_remote_refuses_what_is_not_text() {
    let cmd = Command::new(b"echo").arg(&[0xff]);
    let err = cmd.run_on_remote("u", [1, 2, 3, 4], b"k").unwrap_err();
    assert_eq!(err.purpose, "run_on_remote");
    assert_eq!(err.message(), "run_on_remote requires all parts of the command be valid utf8");
}

#[test]
fn run_on_remote_takes_a_key_file_that_is_not_text() {
    let new = Command::new(b"echo").run_on_remote("u", [1, 2, 3, 4], &[0xff]).unwrap();
    assert_eq!(new.get_args()[1], vec![0xffu8]);
}

#[test]
fn redirect_builds_a_shell_call() {
    let new = Command::new(b"echo").arg(b"x").redirect("/tmp/out.txt").unwrap();
    assert_eq!(new.get_program(), &b"bash".to_vec());
    assert_eq!(new.get_args(), &vec![b"-c".to_vec(), b"   echo x >/tmp/out.txt".to_vec()]);
    assert_eq!(new.get_current_dir(), None);
    assert!(new.get_envs().is_empty());
}

#[test]
fn redirect_keeps_directory_and_environment_inside_the_string() {
    let new = sample().redirect("out").unwrap();
    assert_eq!(
        new.get_args()[1],
        b"export CC=gcc\\ -O2; unset TERM; cd /src; make -j all\\ targets >out".to_vec()
    );
}

#[test]
fn redirect_refuses_what_is_not_text() {
    let err = Command::new(&[0x80]).redirect("/tmp/o").unwrap_err();
    assert_eq!(err.purpose, "redirect");
    assert_eq!(err.message(), "redirect requires all parts of the command be valid utf8");
}

#[test]
fn transforms_compose() {
    let new = Command::new(b"echo").arg(b"a b").run_as_root().redirect("/o").unwrap();
    assert_eq!(new.get_args()[1], b"   sudo echo a\\ b >/o".to_vec());
    let twice = Command::new(b"ls").redirect("/o").unwrap().run_as("u");
    assert_eq!(
        twice.get_args(),
        &vec![
            b"-u".to_vec(),
            b"u".to_vec(),
            b"bash".to_vec(),
            b"-c".to_vec(),
            b"   ls  >/o".to_vec(),
        ]
    );
}
