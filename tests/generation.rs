use generator::prompt::{parse_index, CliPrompt, PromptError, Resolution};
use generator::render::{render_text, substitutions_exec, RenderError};
use generator::service::{
    Create, CreateProjectInput, CreateSubCommand, GenerateError, GenerateService, Origin, Service,
};
use generator::specification::{
    load_template_configuration, specification_document, PlaceholderItem, PlaceholderKind,
    SpecificationError, TemplateConfiguration, TemplateSpecification,
};
use generator::tree::{load_local, load_remote, FileTree, ListedFile, LoadError, LocalListing, RemoteOrigin};
use generator::write::{WriteAction, WriteOutcome, WriteSession};

fn read(path: &str, content: &str) -> ListedFile {
    ListedFile::Read(path.as_bytes().to_vec(), content.as_bytes().to_vec())
}

fn single(key: &str, default: &str) -> PlaceholderItem {
    PlaceholderItem {
        template_key: key.to_string(),
        prompt_message: format!("{}?", key),
        kind: PlaceholderKind::SingleChoice(default.to_string()),
        answer: Vec::new(),
    }
}

fn multiple(key: &str, options: &[&str]) -> PlaceholderItem {
    PlaceholderItem {
        template_key: key.to_string(),
        prompt_message: format!("{}?", key),
        kind: PlaceholderKind::MultipleChoice(options.iter().map(|o| o.to_string()).collect()),
        answer: Vec::new(),
    }
}

fn answered(key: &str, answer: &str) -> PlaceholderItem {
    let mut item = single(key, "");
    item.answer = answer.as_bytes().to_vec();
    item
}

fn tree_of(files: &[(&str, &str)]) -> FileTree {
    let listed = files.iter().map(|(p, c)| read(p, c)).collect();
    match load_local("origin".to_string(), LocalListing::Listed(listed)) {
        Ok(tree) => tree,
        Err(_) => panic!("tree should load"),
    }
}

fn configuration(files: &[(&str, &str)], items: Vec<PlaceholderItem>) -> TemplateConfiguration {
    TemplateConfiguration {
        file_list: tree_of(files),
        template_specification: TemplateSpecification { placeholders: items },
    }
}

#[test]
fn should_create_project() {
    let service = Service::new(false);
    let input = CreateProjectInput { path: "path".to_string() };
    let result = service.create_project(&input, LocalListing::Listed(Vec::new()));
    match result {
        Ok(tree) => {
            assert_eq!(tree.origin, "path");
            assert!(tree.files.is_empty());
        }
        Err(_) => panic!("expected a tree"),
    }
}

#[test]
fn create_project_refuses_empty_path() {
    let service = Service::new(false);
    let input = CreateProjectInput { path: String::new() };
    let result = service.create_project(&input, LocalListing::Listed(Vec::new()));
    assert!(matches!(result, Err(GenerateError::EmptyPath)));
}

#[test]
fn local_load_keeps_every_file() {
    let listed = vec![read("README.md", "hello"), read("src/main.rs", "fn main() {}"), read("a/b/c.txt", "")];
    let tree = match load_local("tpl".to_string(), LocalListing::Listed(listed)) {
        Ok(t) => t,
        Err(_) => panic!("load should succeed"),
    };
    assert_eq!(tree.origin, "tpl");
    assert_eq!(tree.files.len(), 3);
    assert_eq!(tree.files[0].relative_path, b"README.md".to_vec());
    assert_eq!(tree.files[0].content, b"hello".to_vec());
    assert_eq!(tree.files[1].relative_path, b"src/main.rs".to_vec());
    assert_eq!(tree.files[1].content, b"fn main() {}".to_vec());
    assert_eq!(tree.files[2].relative_path, b"a/b/c.txt".to_vec());
    assert!(tree.files[2].content.is_empty());
}

#[test]
fn missing_origin_is_not_found() {
    let r = load_local("nowhere".to_string(), LocalListing::Missing);
    assert!(matches!(r, Err(LoadError::OriginNotFound(ref o)) if o == "nowhere"));
}

#[test]
fn version_control_metadata_is_left_out() {
    let listed = vec![
        read(".git/HEAD", "ref"),
        ListedFile::Unreadable(b"sub/.git/index".to_vec(), "denied".to_string()),
        read("x.gitignore", "a"),
        read(".github/ci.yml", "b"),
    ];
    let tree = match load_local("o".to_string(), LocalListing::Listed(listed)) {
        Ok(t) => t,
        Err(_) => panic!("load should succeed"),
    };
    assert_eq!(tree.files.len(), 2);
    assert_eq!(tree.files[0].relative_path, b"x.gitignore".to_vec());
    assert_eq!(tree.files[1].relative_path, b".github/ci.yml".to_vec());
}

#[test]
fn unreadable_file_aborts_load() {
    let listed = vec![
        read("a.txt", "a"),
        ListedFile::Unreadable(b"b.txt".to_vec(), "denied".to_string()),
        ListedFile::Unreadable(b"c.txt".to_vec(), "gone".to_string()),
    ];
    let r = load_local("o".to_string(), LocalListing::Listed(listed));
    match r {
        Err(LoadError::ReadError(p, c)) => {
            assert_eq!(p, b"b.txt".to_vec());
            assert_eq!(c, "denied");
        }
        _ => panic!("expected a read error"),
    }
}

#[test]
fn escaping_and_repeated_paths_are_refused() {
    let r = load_local("o".to_string(), LocalListing::Listed(vec![read("a/../../x", "")]));
    assert!(matches!(r, Err(LoadError::InvalidPath(ref p)) if p == b"a/../../x"));
    let r = load_local("o".to_string(), LocalListing::Listed(vec![read("/etc/passwd", "")]));
    assert!(matches!(r, Err(LoadError::InvalidPath(_))));
    let r = load_local("o".to_string(), LocalListing::Listed(vec![read("a..b/c", "")]));
    assert!(r.is_ok());
    let r = load_local("o".to_string(), LocalListing::Listed(vec![read("a", "1"), read("a", "2")]));
    assert!(matches!(r, Err(LoadError::DuplicatePath(ref p)) if p == b"a"));
}

#[test]
fn remote_fetch_failure_names_origin_and_cause() {
    let origin = RemoteOrigin { remote_url: "https://example.org/t.git".to_string(), branch: "main".to_string() };
    let r = load_remote(&origin, Err("no such branch".to_string()));
    match r {
        Err(LoadError::RemoteFetchError(o, b, c)) => {
            assert_eq!(o, "https://example.org/t.git");
            assert_eq!(b, "main");
            assert_eq!(c, "no such branch");
        }
        _ => panic!("expected a fetch error"),
    }
    let r = load_remote(&origin, Ok(LocalListing::Listed(vec![read("f", "x")])));
    match r {
        Ok(tree) => {
            assert_eq!(tree.origin, "https://example.org/t.git");
            assert_eq!(tree.files.len(), 1);
        }
        Err(_) => panic!("expected a tree"),
    }
}

#[test]
fn shared_key_fails_with_that_key() {
    let tree = tree_of(&[("template.yaml", "..."), ("a", "")]);
    let items = vec![single("name", "x"), single("other", "y"), single("name", "z")];
    let r = load_template_configuration(tree, Ok(items));
    assert!(matches!(r, Err(SpecificationError::DuplicateKey(ref k)) if k == "name"));
}

#[test]
fn missing_document_gives_empty_specification() {
    let tree = tree_of(&[("a", "")]);
    assert!(specification_document(&tree).is_none());
    let r = load_template_configuration(tree, Err("ignored".to_string()));
    match r {
        Ok(c) => assert!(c.template_specification.placeholders.is_empty()),
        Err(_) => panic!("expected a configuration"),
    }
}

#[test]
fn malformed_document_is_a_parse_error() {
    let tree = tree_of(&[("template.yaml", "- [")]);
    assert_eq!(specification_document(&tree), Some(&b"- [".to_vec()));
    let r = load_template_configuration(tree, Err("bad yaml".to_string()));
    match r {
        Err(SpecificationError::ParseError(p, c)) => {
            assert_eq!(p, b"template.yaml".to_vec());
            assert_eq!(c, "bad yaml");
        }
        _ => panic!("expected a parse error"),
    }
}

#[test]
fn every_resolved_token_is_replaced() {
    let items = vec![answered("name", "demo"), answered("kind", "lib")];
    let subs = substitutions_exec(&items);
    let out = render_text(b"{{name}} is a {{kind}}; {{name}}{{name}}", &subs);
    assert_eq!(out, b"demo is a lib; demodemo".to_vec());
    let path = render_text(b"src/{{name}}/{{kind}}.rs", &subs);
    assert_eq!(path, b"src/demo/lib.rs".to_vec());
}

#[test]
fn unknown_token_passes_through() {
    let items = vec![answered("name", "demo")];
    let subs = substitutions_exec(&items);
    let out = render_text(b"{{other}} and {{name}} and {{ name }}", &subs);
    assert_eq!(out, b"{{other}} and demo and {{ name }}".to_vec());
}

#[test]
fn answers_are_not_scanned_again() {
    let items = vec![answered("a", "{{b}}"), answered("b", "x")];
    let subs = substitutions_exec(&items);
    assert_eq!(render_text(b"{{a}}{{b}}", &subs), b"{{b}}x".to_vec());
}

#[test]
fn end_to_end_default_answer() {
    let tree = tree_of(&[("README.md", "Hello {{name}}"), ("template.yaml", "spec")]);
    let config = match load_template_configuration(tree, Ok(vec![single("name", "World")])) {
        Ok(c) => c,
        Err(_) => panic!("expected a configuration"),
    };
    let mut generation = GenerateService::new(Service::new(false), config);
    assert!(generation.pending_question().is_some());
    assert!(matches!(generation.answer(""), Ok(Resolution::Answered)));
    assert!(generation.pending_question().is_none());
    let session = match generation.render() {
        Ok(s) => s,
        Err(_) => panic!("expected a plan"),
    };
    assert_eq!(session.plan[0].relative_path, b"README.md".to_vec());
    assert_eq!(session.plan[0].content, b"Hello World".to_vec());
}

#[test]
fn multiple_choice_by_position() {
    let prompt = CliPrompt {};
    let mut item = multiple("letter", &["a", "b", "c"]);
    assert!(matches!(prompt.get_answer(&mut item, "2\n"), Ok(Resolution::Answered)));
    assert_eq!(item.answer, b"b".to_vec());

    let mut item = multiple("letter", &["a", "b", "c"]);
    assert!(matches!(prompt.get_answer(&mut item, "9"), Ok(Resolution::OutOfRange)));
    assert!(item.answer.is_empty());

    let mut item = multiple("letter", &["a", "b", "c"]);
    assert!(matches!(prompt.get_answer(&mut item, "0"), Ok(Resolution::OutOfRange)));
    assert!(item.answer.is_empty());

    let mut item = multiple("letter", &["a", "b", "c"]);
    assert!(matches!(prompt.get_answer(&mut item, " 2\n"), Ok(Resolution::Answered)));
    assert_eq!(item.answer, b"b".to_vec());

    let mut item = multiple("letter", &["a", "b", "c"]);
    assert!(matches!(prompt.get_answer(&mut item, "\t3 \r\n"), Ok(Resolution::Answered)));
    assert_eq!(item.answer, b"c".to_vec());

    let mut item = multiple("letter", &["a", "b", "c"]);
    assert!(matches!(prompt.get_answer(&mut item, "+1"), Ok(Resolution::Answered)));
    assert_eq!(item.answer, b"a".to_vec());

    let mut item = multiple("letter", &["a", "b", "c"]);
    assert!(matches!(prompt.get_answer(&mut item, "two"), Err(PromptError::NotANumber(ref t)) if t == b"two"));
    assert!(item.answer.is_empty());
}

#[test]
fn single_choice_trims_line_endings() {
    let prompt = CliPrompt {};
    let mut item = single("name", "World");
    assert!(matches!(prompt.get_answer(&mut item, "my app\r\n"), Ok(Resolution::Answered)));
    assert_eq!(item.answer, b"my app".to_vec());
    let mut item = single("name", "World");
    assert!(matches!(prompt.get_answer(&mut item, "\n"), Ok(Resolution::Answered)));
    assert_eq!(item.answer, b"World".to_vec());
}

#[test]
fn refused_answer_keeps_question_pending() {
    let config = configuration(&[("a", "{{n}}")], vec![multiple("n", &["x", "y"])]);
    let mut generation = GenerateService::new(Service::new(false), config);
    assert!(generation.answer("oops").is_err());
    assert_eq!(generation.next_question, 0);
    assert!(matches!(generation.answer("1"), Ok(Resolution::Answered)));
    assert_eq!(generation.next_question, 1);
}

#[test]
fn parse_index_values() {
    assert_eq!(parse_index(b"42"), Some(42));
    assert_eq!(parse_index(b"007"), Some(7));
    assert_eq!(parse_index(b""), None);
    assert_eq!(parse_index(b"4x"), None);
    assert_eq!(parse_index(b"-1"), None);
    assert_eq!(parse_index(b"+5"), Some(5));
    assert_eq!(parse_index(b"+"), None);
    assert_eq!(parse_index(b"++5"), None);
    assert_eq!(parse_index(b"99999999999999999999999"), None);
}

fn three_file_session() -> WriteSession {
    let config = configuration(&[("a", "1"), ("b", "2"), ("c", "3")], Vec::new());
    match Service::new(false).template_project(&config) {
        Ok(s) => s,
        Err(_) => panic!("expected a plan"),
    }
}

#[test]
fn write_failure_stops_and_keeps_written_files() {
    let mut session = three_file_session();
    assert_eq!(session.next_action(), WriteAction::Write { index: 0, overwrite: false });
    session.record(WriteOutcome::Written);
    assert_eq!(session.next_action(), WriteAction::Write { index: 1, overwrite: false });
    session.record(WriteOutcome::Failed("disk full".to_string()));
    assert_eq!(session.next_action(), WriteAction::Aborted);
    assert_eq!(session.written, 1);
    match &session.failure {
        Some(RenderError::WriteError(p, c)) => {
            assert_eq!(p, &b"b".to_vec());
            assert_eq!(c, "disk full");
        }
        _ => panic!("expected a write error"),
    }
}

#[test]
fn existing_file_is_a_conflict() {
    let mut session = three_file_session();
    session.record(WriteOutcome::AlreadyExists);
    assert_eq!(session.next_action(), WriteAction::Aborted);
    assert!(matches!(session.failure, Some(RenderError::DestinationConflict(ref p)) if p == b"a"));
}

#[test]
fn all_written_finishes() {
    let mut session = three_file_session();
    for _ in 0..3 {
        session.record(WriteOutcome::Written);
    }
    assert_eq!(session.next_action(), WriteAction::Finished);
}

#[test]
fn escaping_rendered_path_is_refused() {
    let config = configuration(&[("{{dir}}/x", "")], vec![answered("dir", "..")]);
    let r = Service::new(true).template_project(&config);
    assert!(matches!(r, Err(RenderError::UnsafePath(ref p)) if p == b"../x"));
}

#[test]
fn create_command_trims_trailing_slashes() {
    let create = Create {
        sub_command: CreateSubCommand::Local {
            template_path: "tpl//".to_string(),
            destination_path: "out/".to_string(),
        },
    };
    let input = create.to_input();
    assert!(matches!(input.origin, Origin::Local(ref p) if p == "tpl"));
    assert_eq!(input.destination_path, "out");
    let create = Create {
        sub_command: CreateSubCommand::Git {
            remote_path: "https://h/r.git/".to_string(),
            branch: "dev".to_string(),
            destination_path: "o//".to_string(),
        },
    };
    let input = create.to_input();
    assert!(matches!(input.origin, Origin::Remote(ref r) if r.remote_url == "https://h/r.git/" && r.branch == "dev"));
    assert_eq!(input.destination_path, "o");
}

#[test]
fn generate_project_answers_in_order_then_renders() {
    let config = configuration(
        &[("{{name}}/README.md", "Hello {{name}}, a {{kind}}")],
        vec![single("name", "World"), multiple("kind", &["lib", "bin"])],
    );
    let mut generation = GenerateService::new(Service::new(false), config);
    let session = match generation.generate_project(&vec!["demo\n".to_string(), "2\n".to_string()]) {
        Ok(s) => s,
        Err(_) => panic!("expected a plan"),
    };
    assert_eq!(session.plan[0].relative_path, b"demo/README.md".to_vec());
    assert_eq!(session.plan[0].content, b"Hello demo, a bin".to_vec());
}

#[test]
fn generate_project_uses_defaults_when_lines_run_out() {
    let config = configuration(&[("README.md", "Hello {{name}}")], vec![single("name", "World")]);
    let mut generation = GenerateService::new(Service::new(false), config);
    let session = match generation.generate_project(&Vec::new()) {
        Ok(s) => s,
        Err(_) => panic!("expected a plan"),
    };
    assert_eq!(session.plan[0].content, b"Hello World".to_vec());
}

#[test]
fn generate_project_stops_at_refused_answer() {
    let config = configuration(
        &[("a", "{{x}}{{y}}")],
        vec![multiple("x", &["p", "q"]), single("y", "d")],
    );
    let mut generation = GenerateService::new(Service::new(false), config);
    let r = generation.generate_project(&vec!["nine".to_string(), "z".to_string()]);
    assert!(matches!(r, Err(GenerateError::Prompt(PromptError::NotANumber(_)))));
    assert_eq!(generation.next_question, 0);
    assert!(generation.configuration.template_specification.placeholders[1].answer.is_empty());
}

#[test]
fn single_choice_keeps_inner_spaces() {
    let prompt = CliPrompt {};
    let mut item = single("name", "World");
    assert!(matches!(prompt.get_answer(&mut item, " my app \n"), Ok(Resolution::Answered)));
    assert_eq!(item.answer, b" my app ".to_vec());
}

#[test]
fn occupied_destination_follows_policy() {
    let mut session = three_file_session();
    assert!(session.check_destination(false));
    assert_eq!(session.next_action(), WriteAction::Write { index: 0, overwrite: false });
    assert!(!session.check_destination(true));
    assert_eq!(session.next_action(), WriteAction::Aborted);
    assert!(matches!(session.failure, Some(RenderError::DestinationConflict(ref p)) if p == b"a"));

    let config = configuration(&[("a", "1")], Vec::new());
    let mut session = match Service::new(true).template_project(&config) {
        Ok(s) => s,
        Err(_) => panic!("expected a plan"),
    };
    assert!(session.check_destination(true));
    session.record(WriteOutcome::Written);
    assert_eq!(session.next_action(), WriteAction::Finished);
}
