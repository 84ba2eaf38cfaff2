use command_ext::Command;

#[test]
fn new_descriptor_is_bare() {
    let cmd = Command::new(b"ls");
    assert_eq!(cmd.get_program(), &b"ls".to_vec());
    assert!(cmd.get_args().is_empty());
    assert_eq!(cmd.get_current_dir(), None);
    assert!(cmd.get_envs().is_empty());
}

#[test]
fn arguments_keep_their_order() {
    let cmd = Command::new(b"ls").arg(b"-l").arg(b"-a").arg(b"-l");
    assert_eq!(cmd.get_args(), &vec![b"-l".to_vec(), b"-a".to_vec(), b"-l".to_vec()]);
}

#[test]
fn last_working_directory_wins() {
    let cmd = Command::new(b"ls").current_dir(b"/a").current_dir(b"/b");
    assert_eq!(cmd.get_current_dir(), Some(&b"/b".to_vec()));
}

#[test]
fn a_change_replaces_an_earlier_one_in_place() {
    let cmd = Command::new(b"p")
        .env(b"A", b"1")
        .env(b"B", b"2")
        .env(b"A", b"3")
        .env_remove(b"B")
        .env_remove(b"C")
        .env(b"C", b"4");
    assert_eq!(
        cmd.get_envs(),
        &vec![
            (b"A".to_vec(), Some(b"3".to_vec())),
            (b"B".to_vec(), None),
            (b"C".to_vec(), Some(b"4".to_vec())),
        ]
    );
}

#[test]
fn components_need_not_be_text() {
    let cmd = Command::new(&[0xff]).arg(&[0x80, 0x81]).env(&[0xfe], &[0xfd]);
    assert_eq!(cmd.get_program(), &vec![0xffu8]);
    assert_eq!(cmd.get_args(), &vec![vec![0x80u8, 0x81]]);
    assert_eq!(cmd.get_envs(), &vec![(vec![0xfeu8], Some(vec![0xfdu8]))]);
}
