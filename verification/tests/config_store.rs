use kick::config::{
    get_config_dir, list_dirs_with_config_file, Config, ConfigDir, Descriptor, DescriptorParts,
    EntryProbe, Probe, CACHE_FILE, CONFIG_FOLDER, DESCRIPTOR_FILE,
};
use kick::error::Failure;
use kick::variables::Variable;

fn probe(name: &str, kind: Probe, descriptor: Probe) -> EntryProbe {
    EntryProbe { name: name.to_string(), kind, descriptor }
}

#[test]
fn fixed_names() {
    assert_eq!(DESCRIPTOR_FILE, "config.toml");
    assert_eq!(CACHE_FILE, ".cache.json");
    assert_eq!(CONFIG_FOLDER, "kick");
}

#[test]
fn only_directories_with_a_descriptor_file_are_templates() {
    let entries = vec![
        probe("cli", Probe::Directory, Probe::File),
        probe("notes.txt", Probe::File, Probe::Unreadable),
        probe("empty", Probe::Directory, Probe::Unreadable),
        probe("odd", Probe::Directory, Probe::Directory),
        probe("", Probe::Unreadable, Probe::Unreadable),
        probe("link", Probe::Other, Probe::File),
        probe("sneaky", Probe::File, Probe::File),
        probe("web", Probe::Directory, Probe::File),
        probe("weird", Probe::Directory, Probe::Other),
    ];
    assert_eq!(list_dirs_with_config_file(&entries), vec!["cli".to_string(), "web".to_string()]);
}

#[test]
fn no_entries_no_templates() {
    assert!(list_dirs_with_config_file(&vec![]).is_empty());
}

#[test]
fn list_of_an_unreadable_directory_is_empty() {
    assert!(Config::list(&None).is_empty());
}

#[test]
fn list_names_the_templates_of_a_scan() {
    let scan = Some(vec![
        probe("b", Probe::Directory, Probe::File),
        probe("a", Probe::Directory, Probe::File),
        probe("c", Probe::File, Probe::File),
    ]);
    assert_eq!(Config::list(&scan), vec!["b".to_string(), "a".to_string()]);
}

#[test]
fn empty_config_has_empty_fields() {
    let config = Config::empty();
    assert_eq!(config.language_name, "");
    assert_eq!(config.discription, "");
    assert_eq!(config.setup_cmd, "");
    assert!(config.variables.pairs().is_empty());
}

#[test]
fn parse_fills_in_what_the_file_leaves_out() {
    let parts = DescriptorParts {
        name: "rust".to_string(),
        description: None,
        setup: None,
        variables: None,
    };
    let config = Config::parse(Descriptor::Parsed(parts)).ok().unwrap();
    assert_eq!(config.language_name, "rust");
    assert_eq!(config.discription, "");
    assert_eq!(config.setup_cmd, "");
    assert!(config.variables.pairs().is_empty());
}

#[test]
fn parse_keeps_what_the_file_gives() {
    let parts = DescriptorParts {
        name: "rust".to_string(),
        description: Some("a tool".to_string()),
        setup: Some("cargo build".to_string()),
        variables: Some(vec![
            Variable { name: "name".to_string(), value: "World".to_string() },
            Variable { name: "license".to_string(), value: "MIT".to_string() },
        ]),
    };
    let config = Config::parse(Descriptor::Parsed(parts)).ok().unwrap();
    assert_eq!(config.language_name, "rust");
    assert_eq!(config.discription, "a tool");
    assert_eq!(config.setup_cmd, "cargo build");
    assert_eq!(config.variables.get(&"name".to_string()), Some("World".to_string()));
    assert_eq!(config.variables.get(&"license".to_string()), Some("MIT".to_string()));
    assert_eq!(config.variables.pairs().len(), 2);
}

#[test]
fn parse_of_a_missing_file_is_not_found() {
    assert!(matches!(Config::parse(Descriptor::Missing), Err(Failure::NotFound)));
}

#[test]
fn parse_of_a_malformed_file_is_a_parse_error() {
    assert!(matches!(Config::parse(Descriptor::Malformed), Err(Failure::ParseError)));
}

#[test]
fn config_dir_without_a_platform_directory_is_not_found() {
    assert_eq!(get_config_dir(false, Probe::Directory), Err(Failure::NotFound));
    assert_eq!(get_config_dir(false, Probe::Unreadable), Err(Failure::NotFound));
}

#[test]
fn config_dir_that_is_missing_is_created() {
    assert_eq!(get_config_dir(true, Probe::Unreadable), Ok(ConfigDir::Create));
}

#[test]
fn config_dir_that_is_there_is_used() {
    assert_eq!(get_config_dir(true, Probe::Directory), Ok(ConfigDir::Present));
}

#[test]
fn config_dir_that_is_no_directory_is_an_io_error() {
    assert_eq!(get_config_dir(true, Probe::File), Err(Failure::IoError));
    assert_eq!(get_config_dir(true, Probe::Other), Err(Failure::IoError));
}
