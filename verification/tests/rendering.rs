use kick::error::Failure;
use kick::render::{render, rendered};
use kick::variables::Variables;

fn variables(pairs: &[(&str, &str)]) -> Variables {
    let mut vars = Variables::new();
    for (name, value) in pairs {
        vars.insert(name.to_string(), value.to_string());
    }
    vars
}

#[test]
fn a_variable_is_substituted() {
    let vars = variables(&[("name", "World")]);
    assert_eq!(render(&"Hello {{ name }}".to_string(), &vars), Ok("Hello World".to_string()));
}

#[test]
fn several_variables_are_substituted() {
    let vars = variables(&[("projectName", "demo"), ("license", "MIT")]);
    let source = "# {{ projectName }}\nLicense: {{license}}\n".to_string();
    assert_eq!(render(&source, &vars), Ok("# demo\nLicense: MIT".to_string()));
}

#[test]
fn text_without_expressions_is_unchanged() {
    let vars = variables(&[("name", "World")]);
    assert_eq!(render(&"plain\ntext".to_string(), &vars), Ok("plain\ntext".to_string()));
    assert_eq!(render(&"".to_string(), &vars), Ok("".to_string()));
}

#[test]
fn the_engine_drops_one_final_line_break() {
    let vars = Variables::new();
    assert_eq!(render(&"line\n".to_string(), &vars), Ok("line".to_string()));
    assert_eq!(render(&"line\n\n".to_string(), &vars), Ok("line\n".to_string()));
}

#[test]
fn an_undefined_variable_renders_as_nothing() {
    let vars = Variables::new();
    assert_eq!(render(&"Hello {{ name }}!".to_string(), &vars), Ok("Hello !".to_string()));
}

#[test]
fn an_overwritten_variable_renders_with_its_last_value() {
    let mut vars = variables(&[("name", "first")]);
    vars.insert("name".to_string(), "last".to_string());
    assert_eq!(render(&"{{ name }}".to_string(), &vars), Ok("last".to_string()));
}

#[test]
fn invalid_syntax_is_a_render_error() {
    let vars = variables(&[("name", "World")]);
    assert_eq!(render(&"Hello {{ name".to_string(), &vars), Err(Failure::RenderError));
    assert_eq!(render(&"{% if %}".to_string(), &vars), Err(Failure::RenderError));
}

#[test]
fn rendered_keeps_the_text() {
    assert_eq!(rendered(Ok("abc".to_string())), Ok("abc".to_string()));
}

#[test]
fn rendered_maps_an_engine_error() {
    let error = minijinja::Environment::new().render_str("{{", ()).unwrap_err();
    assert_eq!(rendered(Err(error)), Err(Failure::RenderError));
}
