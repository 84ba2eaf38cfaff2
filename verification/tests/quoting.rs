use command_ext::{convert_to_commandline, Command, CommandExt};

/// The quoted form of `word`, taken from the command string of a descriptor
/// that has `word` as its program and nothing else.
fn quoted(word: &str) -> String {
    let line = convert_to_commandline(&Command::new(word.as_bytes()), "test").unwrap();
    let rest = line.strip_prefix("   ").unwrap();
    rest.strip_suffix(' ').unwrap().to_string()
}

/// The quoted forms of `words`, joined, taken from the command string of a
/// descriptor that has them as arguments of the program `p`.
fn joined(words: &[&str]) -> String {
    let mut cmd = Command::new(b"p");
    for w in words {
        cmd = cmd.arg(w.as_bytes());
    }
    let line = convert_to_commandline(&cmd, "test").unwrap();
    line.strip_prefix("   p ").unwrap().to_string()
}

#[test]
fn empty_word_is_a_pair_of_quotes() {
    assert_eq!(quoted(""), "''");
}

#[test]
fn bare_characters_stay() {
    assert_eq!(quoted("AZaz09_-.,:/@"), "AZaz09_-.,:/@");
}

#[test]
fn space_gets_a_backslash() {
    assert_eq!(quoted("bar baz"), "bar\\ baz");
}

#[test]
fn quotes_get_backslashes() {
    assert_eq!(quoted("foo '\"' bar"), "foo\\ \\'\\\"\\'\\ bar");
}

#[test]
fn shell_metacharacters_get_backslashes() {
    assert_eq!(quoted("$HOME;ls|wc&"), "\\$HOME\\;ls\\|wc\\&");
    assert_eq!(quoted("a=b"), "a\\=b");
    assert_eq!(quoted("~/x*?"), "\\~/x\\*\\?");
    assert_eq!(quoted("back\\slash"), "back\\\\slash");
}

#[test]
fn line_feed_is_wrapped_in_single_quotes() {
    assert_eq!(quoted("a\nb"), "a'\n'b");
    assert_eq!(quoted("\n"), "'\n'");
}

#[test]
fn characters_beyond_ascii_get_backslashes() {
    assert_eq!(quoted("あい"), "\\あ\\い");
}

#[test]
fn quoted_word_splits_back_into_itself() {
    let words = [
        "",
        " ",
        "  ",
        "\n",
        "\n\n",
        "\t",
        "plain",
        "two words",
        "it's",
        "say \"hi\"",
        "$HOME",
        "a;b",
        "a\nb",
        " \n\t",
        "back\\slash",
        "äöü",
        "*?[x]{y}~#!&|<>()`",
    ];
    for w in words {
        assert_eq!(shellwords::split(&quoted(w)).unwrap(), vec![w.to_string()], "word {w:?}");
    }
}

#[test]
fn joined_pair_splits_back_into_two_words() {
    let pairs = [("a", "b"), ("", ""), ("x y", "z"), ("it's", "a\nb"), ("$1", ";"), ("", "end")];
    for (a, b) in pairs {
        let line = joined(&[a, b]);
        assert_eq!(shellwords::split(&line).unwrap(), vec![a.to_string(), b.to_string()]);
    }
}

#[test]
fn joined_words_are_separated_by_single_spaces() {
    assert_eq!(
        joined(&["There's", "a", "time", "and", "place", "for", "everything"]),
        "There\\'s a time and place for everything"
    );
    assert_eq!(joined(&["one"]), "one");
    assert_eq!(joined(&[]), "");
    assert_eq!(joined(&["", ""]), "'' ''");
}

#[test]
fn redirect_path_is_quoted() {
    let new = Command::new(b"echo").redirect("/tmp/my file.txt").unwrap();
    assert_eq!(new.get_args()[1], b"   echo  >/tmp/my\\ file.txt".to_vec());
}
