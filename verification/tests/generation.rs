use kick::config::{Descriptor, DescriptorParts};
use kick::error::Failure;
use kick::new::{Action, CmdNew, EntryKind, Event, Phase, WalkEntry};
use kick::variables::Variable;

enum Node {
    File(&'static str),
    Dir(Vec<(&'static str, Node)>),
    UnreadableFile,
    UnreadableDir,
    UnreadableEntry,
}

struct World {
    known: Vec<&'static str>,
    descriptor: Result<(&'static str, &'static str, Vec<(&'static str, &'static str)>), Failure>,
    target_exists: bool,
    target_creatable: bool,
    write_fails_at: Option<usize>,
    tree: Node,
    log: Vec<String>,
    created: Vec<String>,
    made: Vec<String>,
    written: Vec<(String, String)>,
    ran: Vec<(String, Vec<String>)>,
}

fn world(tree: Node) -> World {
    World {
        known: vec!["hello"],
        descriptor: Ok(("text", "", vec![])),
        target_exists: false,
        target_creatable: true,
        write_fails_at: None,
        tree,
        log: Vec::new(),
        created: Vec::new(),
        made: Vec::new(),
        written: Vec::new(),
        ran: Vec::new(),
    }
}

fn strings(items: &[&str]) -> Vec<String> {
    items.iter().map(|s| s.to_string()).collect()
}

fn find<'a>(node: &'a Node, path: &[String]) -> Option<&'a Node> {
    match path.split_first() {
        None => Some(node),
        Some((head, rest)) => match node {
            Node::Dir(children) => {
                children.iter().find(|(name, _)| *name == head.as_str()).and_then(|(_, n)| find(n, rest))
            }
            _ => None,
        },
    }
}

fn perform(world: &mut World, action: Action) -> Option<Event> {
    match action {
        Action::ListTemplates => {
            world.log.push("list-templates".to_string());
            Some(Event::Templates(world.known.iter().map(|s| s.to_string()).collect()))
        }
        Action::ParseDescriptor { template } => {
            world.log.push(format!("parse {}", template));
            Some(Event::Descriptor(match &world.descriptor {
                Err(Failure::ParseError) => Descriptor::Malformed,
                Err(_) => Descriptor::Missing,
                Ok((category, setup, pairs)) => Descriptor::Parsed(DescriptorParts {
                    name: category.to_string(),
                    description: None,
                    setup: Some(setup.to_string()),
                    variables: Some(
                        pairs
                            .iter()
                            .map(|(name, value)| Variable {
                                name: name.to_string(),
                                value: value.to_string(),
                            })
                            .collect(),
                    ),
                }),
            }))
        }
        Action::ProbeTarget { path } => {
            world.log.push(format!("probe {}", path));
            Some(Event::TargetProbed(world.target_exists))
        }
        Action::CreateTarget { path } => {
            world.log.push(format!("create {}", path));
            if world.target_creatable {
                world.created.push(path);
            }
            Some(Event::TargetCreated(world.target_creatable))
        }
        Action::List { dir } => {
            world.log.push(format!("list /{}", dir.join("/")));
            Some(Event::Listed(match find(&world.tree, &dir) {
                Some(Node::Dir(children)) => Some(
                    children
                        .iter()
                        .map(|(name, node)| WalkEntry {
                            name: name.to_string(),
                            kind: match node {
                                Node::Dir(_) | Node::UnreadableDir => EntryKind::Directory,
                                Node::File(_) | Node::UnreadableFile => EntryKind::File,
                                Node::UnreadableEntry => EntryKind::Unreadable,
                            },
                        })
                        .collect(),
                ),
                _ => None,
            }))
        }
        Action::MakeDirectory { dir } => {
            world.log.push(format!("mkdir /{}", dir.join("/")));
            world.made.push(dir.join("/"));
            Some(Event::DirectoryMade)
        }
        Action::Load { file } => {
            world.log.push(format!("load /{}", file.join("/")));
            Some(Event::Loaded(match find(&world.tree, &file) {
                Some(Node::File(text)) => Some(text.to_string()),
                _ => None,
            }))
        }
        Action::Write { file, text } => {
            world.log.push(format!("write /{}", file.join("/")));
            if world.write_fails_at == Some(world.written.len()) {
                Some(Event::Written(false))
            } else {
                world.written.push((file.join("/"), text));
                Some(Event::Written(true))
            }
        }
        Action::RunSetup { program, args } => {
            world.log.push(format!("run {}", program));
            world.ran.push((program, args));
            Some(Event::SetupRan)
        }
        Action::Finish => {
            world.log.push("finish".to_string());
            None
        }
        Action::Abort(failure) => {
            world.log.push(format!("abort {:?}", failure));
            None
        }
    }
}

fn generate(args: &[&str], world: &mut World) -> (CmdNew, Result<(), Failure>) {
    let mut cmd = CmdNew::new(strings(args));
    let mut action = cmd.init();
    loop {
        let outcome = match &action {
            Action::Finish => Some(Ok(())),
            Action::Abort(failure) => Some(Err(*failure)),
            _ => None,
        };
        match perform(world, action) {
            Some(event) => action = cmd.step(event),
            None => return (cmd, outcome.unwrap()),
        }
    }
}

fn bare_descriptor() -> Descriptor {
    Descriptor::Parsed(DescriptorParts {
        name: "text".to_string(),
        description: None,
        setup: None,
        variables: None,
    })
}

fn pairs(items: &[(&str, &str)]) -> Vec<(String, String)> {
    items.iter().map(|(a, b)| (a.to_string(), b.to_string())).collect()
}

fn bound(cmd: &CmdNew) -> Vec<(String, String)> {
    let mut all: Vec<(String, String)> =
        cmd.config().variables.pairs().into_iter().map(|v| (v.name, v.value)).collect();
    all.sort();
    all
}

#[test]
fn a_template_file_is_rendered_into_the_project() {
    let mut w = world(Node::Dir(vec![
        ("README.md", Node::File("Hello {{ name }}")),
        ("config.toml", Node::File("name = \"text\"\nvariables = { name = \"World\" }\n")),
    ]));
    w.descriptor = Ok(("text", "", vec![("name", "World")]));
    let (cmd, result) = generate(&["kick", "hello", "demo"], &mut w);
    assert_eq!(result, Ok(()));
    assert_eq!(cmd.phase(), Phase::Done);
    assert_eq!(w.created, strings(&["demo"]));
    assert_eq!(w.written, pairs(&[("README.md", "Hello World")]));
    assert!(w.made.is_empty());
    assert!(w.ran.is_empty());
    assert_eq!(
        w.log,
        strings(&[
            "list-templates",
            "parse hello",
            "probe demo",
            "create demo",
            "list /",
            "load /README.md",
            "write /README.md",
            "finish",
        ])
    );
}

#[test]
fn an_existing_target_fails_before_anything_is_written() {
    let mut w = world(Node::Dir(vec![("README.md", Node::File("Hello"))]));
    w.target_exists = true;
    let (mut cmd, result) = generate(&["kick", "hello", "demo"], &mut w);
    assert_eq!(result, Err(Failure::TargetExists));
    assert_eq!(cmd.phase(), Phase::Failed(Failure::TargetExists));
    assert!(w.created.is_empty());
    assert!(w.made.is_empty());
    assert!(w.written.is_empty());
    assert!(w.ran.is_empty());
    assert_eq!(
        w.log,
        strings(&["list-templates", "parse hello", "probe demo", "abort TargetExists"])
    );
    assert!(matches!(cmd.step(Event::TargetCreated(true)), Action::Abort(Failure::TargetExists)));
    assert!(matches!(cmd.step(Event::Written(true)), Action::Abort(Failure::TargetExists)));
}

#[test]
fn variables_are_bound_from_the_tokens_and_the_project_name() {
    let mut w = world(Node::Dir(vec![]));
    w.descriptor = Ok(("text", "", vec![("projectName", ""), ("license", "MIT")]));
    let (cmd, result) =
        generate(&["kick", "hello", "demo", "--license", "Apache-2.0", "--unknown", "x"], &mut w);
    assert_eq!(result, Ok(()));
    assert_eq!(bound(&cmd), pairs(&[("license", "Apache-2.0"), ("projectName", "demo")]));
    assert_eq!(cmd.project_name(), "demo");
    assert_eq!(cmd.template_name(), "hello");
    assert_eq!(cmd.config().language_name, "text");
}

#[test]
fn the_project_name_overrides_a_token_of_that_name() {
    let mut w = world(Node::Dir(vec![("a.txt", Node::File("{{ projectName }}"))]));
    w.descriptor = Ok(("text", "", vec![("projectName", "default")]));
    let (cmd, result) = generate(&["kick", "hello", "demo", "--projectName=other"], &mut w);
    assert_eq!(result, Ok(()));
    assert_eq!(bound(&cmd), pairs(&[("projectName", "demo")]));
    assert_eq!(w.written, pairs(&[("a.txt", "demo")]));
}

#[test]
fn the_project_name_is_bound_even_if_undeclared() {
    let mut w = world(Node::Dir(vec![("a.txt", Node::File("{{ projectName }}"))]));
    let (cmd, result) = generate(&["kick", "hello", "demo"], &mut w);
    assert_eq!(result, Ok(()));
    assert_eq!(bound(&cmd), pairs(&[("projectName", "demo")]));
    assert_eq!(w.written, pairs(&[("a.txt", "demo")]));
}

#[test]
fn the_tree_is_walked_depth_first_and_descriptors_are_passed_over() {
    let mut w = world(Node::Dir(vec![
        ("a.txt", Node::File("a")),
        (
            "src",
            Node::Dir(vec![
                ("config.toml", Node::File("not copied")),
                ("deep", Node::Dir(vec![("x.rs", Node::File("{{ v }}"))])),
                ("main.rs", Node::File("main")),
            ]),
        ),
        ("config.toml", Node::Dir(vec![("inner.txt", Node::File("never"))])),
        ("empty", Node::Dir(vec![])),
        ("z.txt", Node::File("z")),
    ]));
    w.descriptor = Ok(("text", "", vec![("v", "1")]));
    let (_, result) = generate(&["kick", "hello", "demo", "--v=2"], &mut w);
    assert_eq!(result, Ok(()));
    assert_eq!(w.made, strings(&["src", "src/deep", "empty"]));
    assert_eq!(
        w.written,
        pairs(&[("a.txt", "a"), ("src/deep/x.rs", "2"), ("src/main.rs", "main"), ("z.txt", "z")])
    );
    assert_eq!(
        w.log,
        strings(&[
            "list-templates",
            "parse hello",
            "probe demo",
            "create demo",
            "list /",
            "load /a.txt",
            "write /a.txt",
            "mkdir /src",
            "list /src",
            "mkdir /src/deep",
            "list /src/deep",
            "load /src/deep/x.rs",
            "write /src/deep/x.rs",
            "load /src/main.rs",
            "write /src/main.rs",
            "mkdir /empty",
            "list /empty",
            "load /z.txt",
            "write /z.txt",
            "finish",
        ])
    );
}

#[test]
fn the_setup_command_runs_last() {
    let mut w = world(Node::Dir(vec![("a.txt", Node::File("a"))]));
    w.descriptor = Ok(("text", "  git init  -q ", vec![]));
    let (cmd, result) = generate(&["kick", "hello", "demo"], &mut w);
    assert_eq!(result, Ok(()));
    assert_eq!(cmd.phase(), Phase::Done);
    assert_eq!(w.ran, vec![("git".to_string(), strings(&["init", "-q"]))]);
    assert_eq!(w.log.last().unwrap(), "finish");
    assert_eq!(w.log[w.log.len() - 2], "run git");
}

#[test]
fn a_blank_setup_command_is_not_run() {
    let mut w = world(Node::Dir(vec![]));
    w.descriptor = Ok(("text", " \t ", vec![]));
    let (_, result) = generate(&["kick", "hello", "demo"], &mut w);
    assert_eq!(result, Ok(()));
    assert!(w.ran.is_empty());
}

#[test]
fn a_missing_template_name_fails() {
    let mut w = world(Node::Dir(vec![]));
    let (cmd, result) = generate(&["kick"], &mut w);
    assert_eq!(result, Err(Failure::MissingTemplateName));
    assert_eq!(cmd.phase(), Phase::Failed(Failure::MissingTemplateName));
    assert_eq!(w.log, strings(&["abort MissingTemplateName"]));
    let mut w = world(Node::Dir(vec![]));
    let (_, result) = generate(&[], &mut w);
    assert_eq!(result, Err(Failure::MissingTemplateName));
}

#[test]
fn an_unknown_template_fails() {
    let mut w = world(Node::Dir(vec![]));
    w.known = vec!["other", "hello2"];
    let (_, result) = generate(&["kick", "hello", "demo"], &mut w);
    assert_eq!(result, Err(Failure::TemplateNotFound));
    assert_eq!(w.log, strings(&["list-templates", "abort TemplateNotFound"]));
}

#[test]
fn a_descriptor_failure_fails_the_generation() {
    for failure in [Failure::NotFound, Failure::ParseError] {
        let mut w = world(Node::Dir(vec![]));
        w.descriptor = Err(failure);
        let (_, result) = generate(&["kick", "hello", "demo"], &mut w);
        assert_eq!(result, Err(failure));
        assert!(w.created.is_empty());
    }
}

#[test]
fn a_target_that_cannot_be_created_is_an_io_error() {
    let mut w = world(Node::Dir(vec![("a.txt", Node::File("a"))]));
    w.target_creatable = false;
    let (_, result) = generate(&["kick", "hello", "demo"], &mut w);
    assert_eq!(result, Err(Failure::IoError));
    assert!(w.written.is_empty());
}

#[test]
fn an_invalid_template_file_aborts_and_leaves_what_was_written() {
    let mut w = world(Node::Dir(vec![
        ("a.txt", Node::File("a")),
        ("b.txt", Node::File("{{ broken")),
        ("c.txt", Node::File("c")),
    ]));
    let (cmd, result) = generate(&["kick", "hello", "demo"], &mut w);
    assert_eq!(result, Err(Failure::RenderError));
    assert_eq!(cmd.phase(), Phase::Failed(Failure::RenderError));
    assert_eq!(w.written, pairs(&[("a.txt", "a")]));
    assert_eq!(w.log.last().unwrap(), "abort RenderError");
}

#[test]
fn an_unreadable_file_is_an_io_error() {
    let mut w = world(Node::Dir(vec![
        ("a.txt", Node::File("a")),
        ("b.txt", Node::UnreadableFile),
        ("c.txt", Node::File("c")),
    ]));
    let (_, result) = generate(&["kick", "hello", "demo"], &mut w);
    assert_eq!(result, Err(Failure::IoError));
    assert_eq!(w.written, pairs(&[("a.txt", "a")]));
}

#[test]
fn an_unreadable_directory_is_an_io_error() {
    let mut w =
        world(Node::Dir(vec![("sub", Node::UnreadableDir), ("c.txt", Node::File("c"))]));
    let (_, result) = generate(&["kick", "hello", "demo"], &mut w);
    assert_eq!(result, Err(Failure::IoError));
    assert_eq!(w.made, strings(&["sub"]));
    assert!(w.written.is_empty());
}

#[test]
fn an_unreadable_entry_is_an_io_error() {
    let mut w = world(Node::Dir(vec![
        ("a.txt", Node::File("a")),
        ("", Node::UnreadableEntry),
        ("c.txt", Node::File("c")),
    ]));
    let (_, result) = generate(&["kick", "hello", "demo"], &mut w);
    assert_eq!(result, Err(Failure::IoError));
    assert_eq!(w.written, pairs(&[("a.txt", "a")]));
}

#[test]
fn an_unreadable_template_root_is_an_io_error() {
    let mut w = world(Node::UnreadableDir);
    let (_, result) = generate(&["kick", "hello", "demo"], &mut w);
    assert_eq!(result, Err(Failure::IoError));
    assert_eq!(w.created, strings(&["demo"]));
}

#[test]
fn a_failed_write_is_an_io_error() {
    let mut w =
        world(Node::Dir(vec![("a.txt", Node::File("a")), ("b.txt", Node::File("b"))]));
    w.write_fails_at = Some(1);
    let (_, result) = generate(&["kick", "hello", "demo"], &mut w);
    assert_eq!(result, Err(Failure::IoError));
    assert_eq!(w.written, pairs(&[("a.txt", "a")]));
}

#[test]
fn without_a_project_name_nothing_is_reserved() {
    let mut w = world(Node::Dir(vec![("a.txt", Node::File("{{ projectName }}!"))]));
    let (cmd, result) = generate(&["kick", "hello"], &mut w);
    assert_eq!(result, Ok(()));
    assert_eq!(cmd.project_name(), "");
    assert!(w.created.is_empty());
    assert_eq!(w.written, pairs(&[("a.txt", "!")]));
    assert_eq!(
        w.log,
        strings(&["list-templates", "parse hello", "list /", "load /a.txt", "write /a.txt", "finish"])
    );
}

#[test]
fn an_event_out_of_turn_fails_the_generation() {
    let mut cmd = CmdNew::new(strings(&["kick", "hello", "demo"]));
    assert!(matches!(cmd.step(Event::SetupRan), Action::Abort(Failure::OutOfTurn)));
    assert_eq!(cmd.phase(), Phase::Failed(Failure::OutOfTurn));

    let mut cmd = CmdNew::new(strings(&["kick", "hello", "demo"]));
    assert!(matches!(cmd.init(), Action::ListTemplates));
    assert_eq!(cmd.phase(), Phase::Resolving);
    assert!(matches!(cmd.step(Event::TargetProbed(false)), Action::Abort(Failure::OutOfTurn)));
    assert!(matches!(cmd.step(Event::Templates(vec![])), Action::Abort(Failure::OutOfTurn)));
    assert!(matches!(cmd.init(), Action::Abort(Failure::OutOfTurn)));
}

#[test]
fn beginning_twice_is_out_of_turn() {
    let mut cmd = CmdNew::new(strings(&["kick", "hello", "demo"]));
    assert!(matches!(cmd.init(), Action::ListTemplates));
    assert!(matches!(cmd.init(), Action::Abort(Failure::OutOfTurn)));
}

#[test]
fn a_complete_generation_stays_complete() {
    let mut w = world(Node::Dir(vec![]));
    let (mut cmd, result) = generate(&["kick", "hello", "demo"], &mut w);
    assert_eq!(result, Ok(()));
    assert!(matches!(cmd.step(Event::Written(true)), Action::Finish));
    assert!(matches!(cmd.init(), Action::Finish));
    assert_eq!(cmd.phase(), Phase::Done);
}

#[test]
fn a_fresh_generation_knows_its_template() {
    let cmd = CmdNew::new(strings(&["kick", "hello", "demo"]));
    assert_eq!(cmd.phase(), Phase::Fresh);
    assert_eq!(cmd.template_name(), "hello");
    assert_eq!(cmd.project_name(), "");
    let cmd = CmdNew::new(strings(&["kick"]));
    assert_eq!(cmd.template_name(), "");
}

#[test]
fn deliver_writes_the_text_it_is_given() {
    let mut cmd = CmdNew::new(strings(&["kick", "hello"]));
    assert!(matches!(cmd.init(), Action::ListTemplates));
    assert!(matches!(
        cmd.step(Event::Templates(strings(&["hello"]))),
        Action::ParseDescriptor { .. }
    ));
    assert!(matches!(cmd.step(Event::Descriptor(bare_descriptor())), Action::List { .. }));
    let entries = vec![WalkEntry { name: "a.txt".to_string(), kind: EntryKind::File }];
    match cmd.step(Event::Listed(Some(entries))) {
        Action::Load { file } => assert_eq!(file, strings(&["a.txt"])),
        _ => panic!("no load"),
    }
    assert_eq!(cmd.phase(), Phase::Loading);
    match cmd.deliver(Ok("given text".to_string())) {
        Action::Write { file, text } => {
            assert_eq!(file, strings(&["a.txt"]));
            assert_eq!(text, "given text");
        }
        _ => panic!("no write"),
    }
    assert_eq!(cmd.phase(), Phase::Writing);
    assert!(matches!(cmd.deliver(Ok("again".to_string())), Action::Abort(Failure::OutOfTurn)));
}

#[test]
fn deliver_of_a_failed_rendering_is_a_render_error() {
    let mut cmd = CmdNew::new(strings(&["kick", "hello"]));
    cmd.init();
    cmd.step(Event::Templates(strings(&["hello"])));
    cmd.step(Event::Descriptor(bare_descriptor()));
    cmd.step(Event::Listed(Some(vec![WalkEntry {
        name: "a.txt".to_string(),
        kind: EntryKind::File,
    }])));
    assert!(matches!(cmd.deliver(Err(Failure::IoError)), Action::Abort(Failure::RenderError)));
    assert_eq!(cmd.phase(), Phase::Failed(Failure::RenderError));
}
