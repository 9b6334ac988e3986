use kick::help::{dispatch, CmdHelp, Verb, HELP};

fn strings(items: &[&str]) -> Vec<String> {
    items.iter().map(|s| s.to_string()).collect()
}

#[test]
fn the_word_after_the_program_names_the_command() {
    for (word, verb) in [("list", Verb::List), ("new", Verb::New), ("help", Verb::Help)] {
        let mut args = strings(&["kick", word, "a", "b"]);
        assert_eq!(dispatch(&mut args), verb);
        assert_eq!(args, strings(&["kick", "a", "b"]));
    }
}

#[test]
fn any_other_word_is_unknown() {
    for word in ["", "List", "lists", "ne", "--help", "helpp"] {
        let mut args = strings(&["kick", word]);
        assert_eq!(dispatch(&mut args), Verb::Unknown);
        assert_eq!(args, strings(&["kick"]));
    }
}

#[test]
fn no_word_asks_for_help() {
    let mut args = strings(&["kick"]);
    assert_eq!(dispatch(&mut args), Verb::Help);
    assert_eq!(args, strings(&["kick"]));
    let mut args = strings(&[]);
    assert_eq!(dispatch(&mut args), Verb::Help);
    assert!(args.is_empty());
}

#[test]
fn the_help_text_names_the_commands() {
    let text = CmdHelp::new(vec![]).init();
    assert_eq!(text, HELP);
    assert!(text.starts_with("kick - Project Template Generator\n\nUSAGE:\n    kick <COMMAND> [OPTIONS]\n"));
    assert!(text.contains("\n    new <template> <project_name [--options]\n"));
    assert!(text.contains("\n    list\n        List all available templates in config dir\n"));
    assert!(text.ends_with("\n    help\n        print commands and discription"));
}
