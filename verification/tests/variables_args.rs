use kick::args::{collect_args, parse_token, Token};
use kick::variables::{Variable, Variables};

fn strings(items: &[&str]) -> Vec<String> {
    items.iter().map(|s| s.to_string()).collect()
}

fn variables(pairs: &[(&str, &str)]) -> Variables {
    let mut vars = Variables::new();
    for (name, value) in pairs {
        vars.insert(name.to_string(), value.to_string());
    }
    vars
}

fn sorted(vars: &Variables) -> Vec<(String, String)> {
    let mut pairs: Vec<(String, String)> =
        vars.pairs().into_iter().map(|v| (v.name, v.value)).collect();
    pairs.sort();
    pairs
}

fn owned(pairs: &[(&str, &str)]) -> Vec<(String, String)> {
    pairs.iter().map(|(a, b)| (a.to_string(), b.to_string())).collect()
}

#[test]
fn new_variables_are_empty() {
    let vars = Variables::new();
    assert!(vars.pairs().is_empty());
    assert!(!vars.contains_key(&"name".to_string()));
    assert_eq!(vars.get(&"name".to_string()), None);
}

#[test]
fn insert_adds_and_overwrites() {
    let mut vars = Variables::new();
    vars.insert("a".to_string(), "1".to_string());
    vars.insert("b".to_string(), "2".to_string());
    vars.insert("a".to_string(), "3".to_string());
    assert!(vars.contains_key(&"a".to_string()));
    assert_eq!(vars.get(&"a".to_string()), Some("3".to_string()));
    assert_eq!(vars.get(&"b".to_string()), Some("2".to_string()));
    assert_eq!(sorted(&vars), owned(&[("a", "3"), ("b", "2")]));
}

#[test]
fn pairs_hold_each_variable_once() {
    let mut vars = Variables::new();
    vars.insert("z".to_string(), "1".to_string());
    vars.insert("a".to_string(), "2".to_string());
    vars.insert("z".to_string(), "3".to_string());
    assert_eq!(vars.pairs().len(), 2);
    assert_eq!(sorted(&vars), owned(&[("a", "2"), ("z", "3")]));
}

#[test]
fn token_with_equals_is_a_pair() {
    match parse_token(&"--license=MIT".to_string()) {
        Token::Pair(name, value) => {
            assert_eq!(name, "license");
            assert_eq!(value, "MIT");
        }
        _ => panic!("not a pair"),
    }
}

#[test]
fn token_splits_at_the_first_equals() {
    match parse_token(&"--a=b=c".to_string()) {
        Token::Pair(name, value) => {
            assert_eq!(name, "a");
            assert_eq!(value, "b=c");
        }
        _ => panic!("not a pair"),
    }
}

#[test]
fn token_with_empty_parts() {
    match parse_token(&"--=".to_string()) {
        Token::Pair(name, value) => {
            assert_eq!(name, "");
            assert_eq!(value, "");
        }
        _ => panic!("not a pair"),
    }
    match parse_token(&"--".to_string()) {
        Token::Name(name) => assert_eq!(name, ""),
        _ => panic!("not a name"),
    }
}

#[test]
fn token_without_equals_is_a_name() {
    match parse_token(&"--license".to_string()) {
        Token::Name(name) => assert_eq!(name, "license"),
        _ => panic!("not a name"),
    }
}

#[test]
fn token_without_two_hyphens_is_plain() {
    assert!(matches!(parse_token(&"license=MIT".to_string()), Token::Plain));
    assert!(matches!(parse_token(&"-l".to_string()), Token::Plain));
    assert!(matches!(parse_token(&"-".to_string()), Token::Plain));
    assert!(matches!(parse_token(&"".to_string()), Token::Plain));
}

#[test]
fn token_with_characters_beyond_ascii() {
    match parse_token(&"--n\u{e4}me=w\u{e9}rt\u{1F600}".to_string()) {
        Token::Pair(name, value) => {
            assert_eq!(name, "n\u{e4}me");
            assert_eq!(value, "w\u{e9}rt\u{1F600}");
        }
        _ => panic!("not a pair"),
    }
}

#[test]
fn tokens_override_declared_variables_only() {
    let mut vars = variables(&[("projectName", ""), ("license", "MIT")]);
    collect_args(&mut vars, &strings(&["--license", "Apache-2.0", "--unknown", "x"]));
    assert_eq!(sorted(&vars), owned(&[("license", "Apache-2.0"), ("projectName", "")]));
}

#[test]
fn both_token_forms_bind() {
    let mut vars = variables(&[("a", "0"), ("b", "0"), ("c", "0")]);
    collect_args(&mut vars, &strings(&["kick", "proj", "--a=1", "--b", "2", "plain", "--c=3"]));
    assert_eq!(sorted(&vars), owned(&[("a", "1"), ("b", "2"), ("c", "3")]));
}

#[test]
fn a_lone_name_consumes_the_next_token() {
    let mut vars = variables(&[("a", "0"), ("b", "0")]);
    collect_args(&mut vars, &strings(&["--a", "--b=1"]));
    assert_eq!(sorted(&vars), owned(&[("a", "--b=1"), ("b", "0")]));
}

#[test]
fn an_unknown_lone_name_still_consumes_the_next_token() {
    let mut vars = variables(&[("b", "0")]);
    collect_args(&mut vars, &strings(&["--zzz", "--b=1"]));
    assert_eq!(sorted(&vars), owned(&[("b", "0")]));
}

#[test]
fn a_lone_name_at_the_end_binds_nothing() {
    let mut vars = variables(&[("a", "0")]);
    collect_args(&mut vars, &strings(&["--a"]));
    assert_eq!(sorted(&vars), owned(&[("a", "0")]));
}

#[test]
fn a_later_token_wins() {
    let mut vars = variables(&[("a", "0")]);
    collect_args(&mut vars, &strings(&["--a=1", "--a", "2", "--a=3"]));
    assert_eq!(sorted(&vars), owned(&[("a", "3")]));
}

#[test]
fn no_tokens_change_nothing() {
    let mut vars = variables(&[("a", "0")]);
    collect_args(&mut vars, &strings(&[]));
    assert_eq!(sorted(&vars), owned(&[("a", "0")]));
}

#[test]
fn from_pairs_lets_the_later_pair_count() {
    let vars = Variables::from_pairs(vec![
        Variable { name: "a".to_string(), value: "1".to_string() },
        Variable { name: "b".to_string(), value: "2".to_string() },
        Variable { name: "a".to_string(), value: "3".to_string() },
    ]);
    assert_eq!(sorted(&vars), owned(&[("a", "3"), ("b", "2")]));
    assert!(Variables::from_pairs(vec![]).pairs().is_empty());
}
