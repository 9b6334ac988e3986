use kick::utils::{char_is_space, split_command, split_words};

fn words_of(line: &str) -> Vec<String> {
    split_words(&line.to_string())
}

fn std_words(line: &str) -> Vec<String> {
    line.split_whitespace().map(|w| w.to_string()).collect()
}

#[test]
fn white_space_is_what_the_standard_library_says() {
    let mut code: u32 = 0;
    while code <= 0x10FFFF {
        if let Some(c) = char::from_u32(code) {
            assert_eq!(char_is_space(c), c.is_whitespace());
        }
        code += 1;
    }
}

#[test]
fn words_of_plain_lines() {
    assert_eq!(words_of("cargo build --release"), vec!["cargo", "build", "--release"]);
    assert_eq!(words_of("one"), vec!["one"]);
    assert_eq!(words_of("a b"), vec!["a", "b"]);
}

#[test]
fn words_ignore_surrounding_and_repeated_space() {
    assert_eq!(words_of("  git   init \t\n"), vec!["git", "init"]);
    assert_eq!(words_of("\u{3000}x\u{a0}y\u{2003}"), vec!["x", "y"]);
}

#[test]
fn blank_lines_have_no_words() {
    assert!(words_of("").is_empty());
    assert!(words_of("   ").is_empty());
    assert!(words_of("\t\n\r").is_empty());
}

#[test]
fn words_agree_with_the_standard_library() {
    let lines = [
        "",
        " ",
        "a",
        " a",
        "a ",
        " a ",
        "a  b",
        "ab cd  ef   ",
        "\tnpm\tinstall\n",
        "\u{e4}\u{f6} \u{1F600}\u{2028}z",
        "x\u{200B}y z",
        "echo 'a b'",
    ];
    for line in lines {
        assert_eq!(words_of(line), std_words(line));
    }
}

#[test]
fn command_is_the_first_word_and_the_rest() {
    let command = split_command(&"  cargo  build --release ".to_string()).unwrap();
    assert_eq!(command.program, "cargo");
    assert_eq!(command.args, vec!["build", "--release"]);
}

#[test]
fn command_of_one_word_has_no_arguments() {
    let command = split_command(&"make".to_string()).unwrap();
    assert_eq!(command.program, "make");
    assert!(command.args.is_empty());
}

#[test]
fn blank_line_is_no_command() {
    assert!(split_command(&"".to_string()).is_none());
    assert!(split_command(&" \t ".to_string()).is_none());
}
